use cs110l::balancebeam::message::{Header, Version, MAX_BODY_SIZE, MAX_HEADERS_SIZE};
use cs110l::balancebeam::reason::{phrase_from, reason_phrase};
use cs110l::balancebeam::head::ResponseHead;
use cs110l::balancebeam::response::{
    after_parse, format_response_line, get_content_length, is_head, make_http_error,
    make_http_error_with, parse_response, read_from_stream, response_from_head, write_to_stream,
    Error, ReadStep, Response, ResponseReader,
};

fn feed_response(method: &[u8], pieces: &[&[u8]]) -> Result<Response, Error> {
    let mut reader = ResponseReader::new(method);
    for piece in pieces {
        assert!(piece.len() <= reader.want());
        match reader.feed(piece) {
            ReadStep::Pending(next) => reader = next,
            ReadStep::Complete(response) => return Ok(response),
            ReadStep::Failed(error) => return Err(error),
        }
    }
    panic!("the pieces ran out before the reader was done");
}

#[test]
fn reason_phrases_come_from_the_standard_table() {
    assert_eq!(reason_phrase(200), b"OK".to_vec());
    assert_eq!(reason_phrase(400), b"Bad Request".to_vec());
    assert_eq!(reason_phrase(413), b"Payload Too Large".to_vec());
    assert_eq!(reason_phrase(502), b"Bad Gateway".to_vec());
    assert_eq!(reason_phrase(503), b"Service Unavailable".to_vec());
}

#[test]
fn a_status_without_standard_phrase_has_the_empty_phrase() {
    assert_eq!(reason_phrase(299), Vec::<u8>::new());
    assert_eq!(reason_phrase(999), Vec::<u8>::new());
    assert_eq!(reason_phrase(99), Vec::<u8>::new());
    assert_eq!(reason_phrase(0), Vec::<u8>::new());
    assert_eq!(reason_phrase(1000), Vec::<u8>::new());
    assert_eq!(reason_phrase(u16::MAX), Vec::<u8>::new());
}

#[test]
fn phrase_from_takes_what_was_found() {
    assert_eq!(phrase_from(Some(b"OK".to_vec())), b"OK".to_vec());
    assert_eq!(phrase_from(None), Vec::<u8>::new());
}

#[test]
fn format_response_line_joins_version_status_and_reason() {
    let response = Response {
        version: Version::Http11,
        status: 200,
        reason: b"OK".to_vec(),
        headers: Vec::new(),
        body: Vec::new(),
    };
    assert_eq!(format_response_line(&response), b"HTTP/1.1 200 OK".to_vec());
    let bare = Response {
        version: Version::Http10,
        status: 299,
        reason: Vec::new(),
        headers: Vec::new(),
        body: Vec::new(),
    };
    assert_eq!(format_response_line(&bare), b"HTTP/1.0 299 ".to_vec());
}

#[test]
fn make_http_error_names_the_status_in_plain_text() {
    let response = make_http_error(502);
    assert_eq!(response.version, Version::Http11);
    assert_eq!(response.status, 502);
    assert_eq!(response.reason, b"Bad Gateway".to_vec());
    assert_eq!(
        response.headers,
        vec![
            Header::new(b"Content-Type", b"text/plain"),
            Header::new(b"Content-Length", b"20"),
        ]
    );
    assert_eq!(response.body, b"HTTP 502 Bad Gateway".to_vec());
    assert_eq!(get_content_length(&response), Ok(Some(20)));
}

#[test]
fn an_error_response_is_written_whole() {
    let mut out = Vec::new();
    write_to_stream(&make_http_error(400), &mut out);
    assert_eq!(
        out,
        b"HTTP/1.1 400 Bad Request\r\nContent-Type: text/plain\r\nContent-Length: 20\r\n\r\nHTTP 400 Bad Request"
            .to_vec()
    );
    let mut large = Vec::new();
    write_to_stream(&make_http_error(413), &mut large);
    assert_eq!(
        large,
        b"HTTP/1.1 413 Payload Too Large\r\nContent-Type: text/plain\r\nContent-Length: 26\r\n\r\nHTTP 413 Payload Too Large"
            .to_vec()
    );
}

#[test]
fn every_error_response_declares_its_own_length() {
    for status in [100u16, 204, 400, 404, 413, 500, 502, 503, 599, 299] {
        let response = make_http_error(status);
        assert_eq!(get_content_length(&response), Ok(Some(response.body.len())));
        let mut written = Vec::new();
        write_to_stream(&response, &mut written);
        if status >= 200 && status != 204 {
            assert_eq!(read_from_stream(&written, b"GET"), Ok(response));
        }
    }
}

#[test]
fn parse_response_finds_a_whole_head() {
    let buffer = b"HTTP/1.1 404 Nowhere\r\nServer: x\r\nContent-Length: 3\r\n\r\nabc";
    let (response, len) = parse_response(buffer).unwrap().unwrap();
    assert_eq!(len, buffer.len() - 3);
    assert_eq!(response.status, 404);
    assert_eq!(response.reason, b"Not Found".to_vec());
    assert_eq!(response.version, Version::Http11);
    assert_eq!(
        response.headers,
        vec![Header::new(b"Server", b"x"), Header::new(b"Content-Length", b"3")]
    );
    assert!(response.body.is_empty());
}

#[test]
fn parse_response_tells_partial_and_malformed_apart() {
    assert_eq!(parse_response(b"HTTP/1.1 200 O"), Ok(None));
    assert_eq!(parse_response(b""), Ok(None));
    assert_eq!(
        parse_response(b"HTTP/1.1 2x0 OK\r\n\r\n"),
        Err(Error::MalformedResponse(httparse::Error::Status))
    );
    assert_eq!(
        parse_response(b"FTP/1.1 200 OK\r\n\r\n"),
        Err(Error::MalformedResponse(httparse::Error::Version))
    );
}

#[test]
fn response_from_head_takes_status_headers_and_the_given_reason() {
    let head = ResponseHead {
        status: 418,
        headers: vec![Header::new(b"Server", b"x")],
        len: 40,
    };
    let (response, len) = response_from_head(head, b"Teapot".to_vec());
    assert_eq!(len, 40);
    assert_eq!(
        response,
        Response {
            version: Version::Http11,
            status: 418,
            reason: b"Teapot".to_vec(),
            headers: vec![Header::new(b"Server", b"x")],
            body: Vec::new(),
        }
    );
}

fn found_response(status: u16, headers: Vec<Header>, len: usize) -> Result<Option<(Response, usize)>, Error> {
    Ok(Some((
        Response {
            version: Version::Http11,
            status,
            reason: Vec::new(),
            headers,
            body: Vec::new(),
        },
        len,
    )))
}

#[test]
fn after_parse_of_a_response_goes_by_what_was_found() {
    match after_parse(b"0123456789".to_vec(), false, found_response(200, vec![Header::new(b"Content-Length", b"6")], 4)) {
        ReadStep::Complete(response) => assert_eq!(response.body, b"456789".to_vec()),
        _ => panic!("the body came with the head"),
    }
    match after_parse(b"0123456789".to_vec(), false, found_response(200, vec![Header::new(b"Content-Length", b"7")], 4)) {
        ReadStep::Pending(reader) => assert_eq!(reader.want(), 512),
        _ => panic!("a byte of the body is missing"),
    }
    match after_parse(b"0123456789".to_vec(), false, found_response(200, vec![Header::new(b"Content-Length", b"5")], 4)) {
        ReadStep::Failed(error) => assert_eq!(error, Error::ContentLengthMismatch),
        _ => panic!("there is a byte too many"),
    }
    match after_parse(b"0123456789".to_vec(), true, found_response(200, vec![Header::new(b"Content-Length", b"5")], 4)) {
        ReadStep::Complete(response) => assert!(response.body.is_empty()),
        _ => panic!("a response to HEAD is complete with its head"),
    }
    match after_parse(b"0123456789".to_vec(), false, found_response(304, Vec::new(), 4)) {
        ReadStep::Complete(response) => assert!(response.body.is_empty()),
        _ => panic!("a response with status 304 is complete with its head"),
    }
    match after_parse(b"0123".to_vec(), false, Ok(None)) {
        ReadStep::Pending(reader) => assert_eq!(reader.want(), MAX_HEADERS_SIZE - 4),
        _ => panic!("the head is not complete"),
    }
    match after_parse(vec![b'x'; MAX_HEADERS_SIZE], false, Ok(None)) {
        ReadStep::Failed(error) => assert_eq!(error, Error::HeadTooLarge),
        _ => panic!("there is no room for more of the head"),
    }
    match after_parse(b"0123".to_vec(), false, Err(Error::MalformedResponse(httparse::Error::Status))) {
        ReadStep::Failed(error) => {
            assert_eq!(error, Error::MalformedResponse(httparse::Error::Status))
        }
        _ => panic!("the parser gave up"),
    }
}

#[test]
fn make_http_error_with_takes_the_given_reason() {
    let response = make_http_error_with(418, b"I'm a teapot");
    assert_eq!(response.status, 418);
    assert_eq!(response.reason, b"I'm a teapot".to_vec());
    assert_eq!(response.body, b"HTTP 418 I'm a teapot".to_vec());
    assert_eq!(
        response.headers,
        vec![
            Header::new(b"Content-Type", b"text/plain"),
            Header::new(b"Content-Length", b"21"),
        ]
    );
    assert_eq!(make_http_error_with(7, b"").body, b"HTTP 7 ".to_vec());
}

#[test]
fn is_head_knows_the_method() {
    assert!(is_head(b"HEAD"));
    assert!(!is_head(b"head"));
    assert!(!is_head(b"GET"));
    assert!(!is_head(b"HEADS"));
    assert!(!is_head(b""));
}

#[test]
fn a_response_with_declared_length_is_read() {
    let stream = b"HTTP/1.1 200 OK\r\nContent-Length: 5\r\n\r\nhello";
    let response = read_from_stream(stream, b"GET").unwrap();
    assert_eq!(response.status, 200);
    assert_eq!(response.body, b"hello".to_vec());
    let empty = b"HTTP/1.1 200 OK\r\nContent-Length: 0\r\n\r\n";
    assert!(read_from_stream(empty, b"GET").unwrap().body.is_empty());
}

#[test]
fn a_response_without_declared_length_ends_with_the_stream() {
    let stream = b"HTTP/1.1 200 OK\r\nServer: x\r\n\r\nall of this";
    assert_eq!(read_from_stream(stream, b"GET").unwrap().body, b"all of this".to_vec());
    let bare = b"HTTP/1.1 200 OK\r\n\r\n";
    assert!(read_from_stream(bare, b"GET").unwrap().body.is_empty());
    assert_eq!(
        feed_response(b"GET", &[b"HTTP/1.1 200 OK\r\n\r\nab", b"cd", b"e", b""]).unwrap().body,
        b"abcde".to_vec()
    );
}

#[test]
fn a_response_to_head_has_no_body() {
    let stream = b"HTTP/1.1 200 OK\r\nContent-Length: 5\r\n\r\n";
    let response = read_from_stream(stream, b"HEAD").unwrap();
    assert!(response.body.is_empty());
    assert_eq!(get_content_length(&response), Ok(Some(5)));
    let with_bytes = b"HTTP/1.1 200 OK\r\nContent-Length: 5\r\n\r\nhello";
    assert!(read_from_stream(with_bytes, b"HEAD").unwrap().body.is_empty());
}

#[test]
fn responses_with_status_1xx_204_304_have_no_body() {
    for status in ["100 Continue", "101 Switching Protocols", "199 X", "204 No Content", "304 Not Modified"] {
        let stream = format!("HTTP/1.1 {}\r\nContent-Length: 5\r\n\r\nhello", status);
        let response = read_from_stream(stream.as_bytes(), b"GET").unwrap();
        assert!(response.body.is_empty(), "status {}", status);
        let bad = format!("HTTP/1.1 {}\r\nContent-Length: nonsense\r\n\r\n", status);
        assert!(read_from_stream(bad.as_bytes(), b"POST").unwrap().body.is_empty());
    }
    let ok = b"HTTP/1.1 200 OK\r\nContent-Length: 5\r\n\r\nhello";
    assert_eq!(read_from_stream(ok, b"GET").unwrap().body, b"hello".to_vec());
    let not_modified_like = b"HTTP/1.1 305 Use Proxy\r\nContent-Length: 2\r\n\r\nhi";
    assert_eq!(read_from_stream(not_modified_like, b"GET").unwrap().body, b"hi".to_vec());
}

#[test]
fn a_head_cut_short_is_incomplete_and_an_over_long_head_too_large() {
    assert_eq!(read_from_stream(b"", b"GET"), Err(Error::IncompleteResponse));
    assert_eq!(read_from_stream(b"HTTP/1.1 200", b"GET"), Err(Error::IncompleteResponse));
    let mut long = b"HTTP/1.1 200 OK\r\nX-Long: ".to_vec();
    long.resize(MAX_HEADERS_SIZE + 1, b'a');
    assert_eq!(read_from_stream(&long, b"GET"), Err(Error::HeadTooLarge));
    long.truncate(MAX_HEADERS_SIZE - 1);
    assert_eq!(read_from_stream(&long, b"GET"), Err(Error::IncompleteResponse));
}

#[test]
fn a_body_that_differs_from_the_declared_length_is_a_mismatch() {
    let short = b"HTTP/1.1 200 OK\r\nContent-Length: 10\r\n\r\nhello";
    assert_eq!(read_from_stream(short, b"GET"), Err(Error::ContentLengthMismatch));
    let long = b"HTTP/1.1 200 OK\r\nContent-Length: 3\r\n\r\nhello";
    assert_eq!(read_from_stream(long, b"GET"), Err(Error::ContentLengthMismatch));
    assert_eq!(
        feed_response(b"GET", &[b"HTTP/1.1 200 OK\r\nContent-Length: 3\r\n\r\nhe", b"llo"]),
        Err(Error::ContentLengthMismatch)
    );
}

#[test]
fn a_response_content_length_that_is_no_number_is_invalid() {
    let stream = b"HTTP/1.1 200 OK\r\nContent-Length: 1x\r\n\r\nhello";
    assert_eq!(read_from_stream(stream, b"GET"), Err(Error::InvalidContentLength));
}

#[test]
fn a_malformed_response_is_refused() {
    assert_eq!(
        read_from_stream(b"HELLO\r\n\r\n", b"GET"),
        Err(Error::MalformedResponse(httparse::Error::Version))
    );
}

#[test]
fn a_body_over_the_limit_is_too_large() {
    let mut stream = b"HTTP/1.1 200 OK\r\n\r\n".to_vec();
    let head_len = stream.len();
    stream.resize(head_len + MAX_BODY_SIZE + 1, b'x');
    assert_eq!(read_from_stream(&stream, b"GET"), Err(Error::ResponseBodyTooLarge));
    stream.truncate(head_len + MAX_BODY_SIZE);
    assert_eq!(read_from_stream(&stream, b"GET").unwrap().body.len(), MAX_BODY_SIZE);
}

#[test]
fn a_declared_length_over_the_limit_fails_when_the_body_passes_the_limit() {
    let mut stream =
        format!("HTTP/1.1 200 OK\r\nContent-Length: {}\r\n\r\n", MAX_BODY_SIZE + 600).into_bytes();
    let head_len = stream.len();
    stream.resize(head_len + MAX_BODY_SIZE + 600, b'x');
    assert_eq!(read_from_stream(&stream, b"GET"), Err(Error::ResponseBodyTooLarge));
    stream.truncate(head_len + 100);
    assert_eq!(read_from_stream(&stream, b"GET"), Err(Error::ContentLengthMismatch));
}

#[test]
fn the_reader_wants_room_for_the_head_and_then_512_bytes() {
    let reader = ResponseReader::new(b"GET");
    assert_eq!(reader.want(), MAX_HEADERS_SIZE);
    let reader = match reader.feed(b"HTTP/1.1 200 OK\r\nContent-Length: 7\r\n\r\n") {
        ReadStep::Pending(next) => next,
        _ => panic!("the body is not complete yet"),
    };
    assert_eq!(reader.want(), 512);
}

#[test]
fn error_responses_agree_with_the_http_crate_for_every_status() {
    for code in 100u16..=999 {
        let status = http::StatusCode::from_u16(code).unwrap();
        let reason = status.canonical_reason().unwrap_or("");
        let body = format!("HTTP {} {}", status.as_u16(), reason).into_bytes();
        let response = make_http_error(code);
        assert_eq!(response.status, code);
        assert_eq!(response.reason, reason.as_bytes().to_vec());
        assert_eq!(response.body, body);
        assert_eq!(
            response.headers,
            vec![
                Header::new(b"Content-Type", b"text/plain"),
                Header::new(b"Content-Length", body.len().to_string().as_bytes()),
            ]
        );
        assert_eq!(
            format_response_line(&response),
            format!("{:?} {} {}", http::Version::HTTP_11, status.as_str(), reason).into_bytes()
        );
    }
}

#[test]
fn too_many_headers_are_told_apart_from_a_malformed_response() {
    let mut stream = b"HTTP/1.1 200 OK\r\n".to_vec();
    for i in 0..32 {
        stream.extend_from_slice(format!("H{}: v\r\n", i).as_bytes());
    }
    let mut fits = stream.clone();
    fits.extend_from_slice(b"\r\n");
    assert_eq!(read_from_stream(&fits, b"GET").unwrap().headers.len(), 32);
    stream.extend_from_slice(b"H32: v\r\n\r\n");
    assert_eq!(read_from_stream(&stream, b"GET"), Err(Error::TooManyHeaders));
    assert_eq!(parse_response(&stream), Err(Error::TooManyHeaders));
}
