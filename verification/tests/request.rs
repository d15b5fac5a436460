use cs110l::balancebeam::message::{Header, Version, MAX_BODY_SIZE, MAX_HEADERS_SIZE};
use cs110l::balancebeam::head::{HeadParse, RequestHead};
use cs110l::balancebeam::request::{
    after_parse, extend_header_value, format_request_line, get_content_length, parse_request,
    read_from_stream, request_from_parse, write_to_stream, Error, ReadStep, Request,
    RequestReader,
};

fn get_request() -> Request {
    Request {
        method: b"GET".to_vec(),
        target: b"/index.html".to_vec(),
        version: Version::Http11,
        headers: vec![Header::new(b"Host", b"example.com")],
        body: Vec::new(),
    }
}

fn feed_all(pieces: &[&[u8]]) -> Result<Request, Error> {
    let mut reader = RequestReader::new();
    for piece in pieces {
        assert!(piece.len() <= reader.want());
        match reader.feed(piece) {
            ReadStep::Pending(next) => reader = next,
            ReadStep::Complete(request) => return Ok(request),
            ReadStep::Failed(error) => return Err(error),
        }
    }
    panic!("the pieces ran out before the reader was done");
}

#[test]
fn format_request_line_joins_method_target_and_version() {
    assert_eq!(format_request_line(&get_request()), b"GET /index.html HTTP/1.1".to_vec());
    let mut old = get_request();
    old.version = Version::Http10;
    old.method = b"OPTIONS".to_vec();
    old.target = b"*".to_vec();
    assert_eq!(format_request_line(&old), b"OPTIONS * HTTP/1.0".to_vec());
}

#[test]
fn write_to_stream_writes_head_then_body() {
    let mut request = get_request();
    request.method = b"POST".to_vec();
    request.headers.push(Header::new(b"Content-Length", b"5"));
    request.body = b"hello".to_vec();
    let mut out = Vec::new();
    write_to_stream(&request, &mut out);
    assert_eq!(
        out,
        b"POST /index.html HTTP/1.1\r\nHost: example.com\r\nContent-Length: 5\r\n\r\nhello".to_vec()
    );
    write_to_stream(&get_request(), &mut out);
    assert!(out.ends_with(b"helloGET /index.html HTTP/1.1\r\nHost: example.com\r\n\r\n"));
}

#[test]
fn get_content_length_tells_absent_valid_and_invalid_apart() {
    let mut request = get_request();
    assert_eq!(get_content_length(&request), Ok(None));
    request.headers.push(Header::new(b"content-LENGTH", b"42"));
    assert_eq!(get_content_length(&request), Ok(Some(42)));
    request.headers[1] = Header::new(b"Content-Length", b"4 2");
    assert_eq!(get_content_length(&request), Err(Error::InvalidContentLength));
}

#[test]
fn extend_header_value_appends_to_an_existing_header() {
    let mut request = get_request();
    request.headers.push(Header::new(b"X-Forwarded-For", b"1.2.3.4"));
    extend_header_value(&mut request, b"x-forwarded-for", b"5.6.7.8");
    assert_eq!(
        request.headers,
        vec![
            Header::new(b"Host", b"example.com"),
            Header::new(b"X-Forwarded-For", b"1.2.3.4, 5.6.7.8"),
        ]
    );
}

#[test]
fn extend_header_value_creates_a_missing_header() {
    let mut request = get_request();
    extend_header_value(&mut request, b"x-forwarded-for", b"5.6.7.8");
    assert_eq!(
        request.headers,
        vec![Header::new(b"Host", b"example.com"), Header::new(b"x-forwarded-for", b"5.6.7.8")]
    );
    assert_eq!(request.method, b"GET".to_vec());
    assert_eq!(request.target, b"/index.html".to_vec());
    assert!(request.body.is_empty());
}

#[test]
fn extend_header_value_leaves_one_line_of_that_name() {
    let mut request = get_request();
    request.headers = vec![
        Header::new(b"A", b"1"),
        Header::new(b"X-Forwarded-For", b"1.1.1.1"),
        Header::new(b"B", b"2"),
        Header::new(b"x-forwarded-for", b"2.2.2.2"),
        Header::new(b"C", b"3"),
    ];
    extend_header_value(&mut request, b"x-forwarded-for", b"9.9.9.9");
    assert_eq!(
        request.headers,
        vec![
            Header::new(b"A", b"1"),
            Header::new(b"X-Forwarded-For", b"1.1.1.1, 9.9.9.9"),
            Header::new(b"B", b"2"),
            Header::new(b"C", b"3"),
        ]
    );
}

#[test]
fn parse_request_finds_a_whole_head() {
    let buffer = b"GET /a?b=c HTTP/1.1\r\nHost: example.com\r\nX-Key:   spaced value \r\n\r\nrest";
    let (request, len) = parse_request(buffer).unwrap().unwrap();
    assert_eq!(len, buffer.len() - 4);
    assert_eq!(request.method, b"GET".to_vec());
    assert_eq!(request.target, b"/a?b=c".to_vec());
    assert_eq!(request.version, Version::Http11);
    assert_eq!(
        request.headers,
        vec![Header::new(b"Host", b"example.com"), Header::new(b"X-Key", b"spaced value")]
    );
    assert!(request.body.is_empty());
}

#[test]
fn parse_request_asks_for_more_of_a_partial_head() {
    assert_eq!(parse_request(b"GET / HT"), Ok(None));
    assert_eq!(parse_request(b"GET / HTTP/1.1\r\nHost: exa"), Ok(None));
    assert_eq!(parse_request(b"GET / HTTP/1.1\r\nHost: example.com\r\n"), Ok(None));
    assert_eq!(parse_request(b""), Ok(None));
}

#[test]
fn parse_request_refuses_what_is_no_request() {
    assert_eq!(
        parse_request(b"GET / HTTP/9.9\r\n\r\n"),
        Err(Error::MalformedRequest(httparse::Error::Version))
    );
    assert_eq!(
        parse_request(b"G\x01T / HTTP/1.1\r\n\r\n"),
        Err(Error::MalformedRequest(httparse::Error::Token))
    );
    assert_eq!(
        parse_request(b"GET / HTTP/1.1\r\nBad Header: x\r\n\r\n"),
        Err(Error::MalformedRequest(httparse::Error::HeaderName))
    );
}

#[test]
fn parse_request_takes_thirty_two_headers_and_no_more() {
    let mut head = b"GET / HTTP/1.1\r\n".to_vec();
    for i in 0..32 {
        head.extend_from_slice(format!("H{}: v\r\n", i).as_bytes());
    }
    let mut full = head.clone();
    full.extend_from_slice(b"\r\n");
    let (request, len) = parse_request(&full).unwrap().unwrap();
    assert_eq!(request.headers.len(), 32);
    assert_eq!(len, full.len());
    head.extend_from_slice(b"H32: v\r\n\r\n");
    assert_eq!(
        parse_request(&head),
        Err(Error::TooManyHeaders)
    );
}

#[test]
fn request_from_parse_maps_each_outcome() {
    let head = RequestHead {
        method: b"PUT".to_vec(),
        target: b"/x".to_vec(),
        headers: vec![Header::new(b"A", b"b")],
        len: 30,
    };
    let mut request = get_request();
    request.method = b"PUT".to_vec();
    request.target = b"/x".to_vec();
    request.headers = vec![Header::new(b"A", b"b")];
    assert_eq!(request_from_parse(HeadParse::Complete(head)), Ok(Some((request, 30))));
    assert_eq!(request_from_parse(HeadParse::Partial), Ok(None));
    assert_eq!(request_from_parse(HeadParse::TooManyHeaders), Err(Error::TooManyHeaders));
    assert_eq!(
        request_from_parse(HeadParse::Malformed(httparse::Error::NewLine)),
        Err(Error::MalformedRequest(httparse::Error::NewLine))
    );
}

#[test]
fn a_request_without_body_is_read() {
    let stream = b"GET /index.html HTTP/1.1\r\nHost: example.com\r\n\r\n";
    assert_eq!(read_from_stream(stream), Ok(get_request()));
}

#[test]
fn a_request_with_its_body_is_read() {
    let stream = b"POST /submit HTTP/1.1\r\nContent-Length: 5\r\n\r\nhello";
    let request = read_from_stream(stream).unwrap();
    assert_eq!(request.method, b"POST".to_vec());
    assert_eq!(request.body, b"hello".to_vec());
    assert_eq!(get_content_length(&request), Ok(Some(5)));
}

#[test]
fn a_client_that_sends_nothing_is_done() {
    assert_eq!(read_from_stream(b""), Err(Error::IncompleteRequest(0)));
    assert_eq!(feed_all(&[b""]), Err(Error::IncompleteRequest(0)));
}

#[test]
fn a_client_that_hangs_up_in_the_head_is_incomplete() {
    assert_eq!(read_from_stream(b"GET / HT"), Err(Error::IncompleteRequest(8)));
    assert_eq!(feed_all(&[b"GET ", b"/ HT", b""]), Err(Error::IncompleteRequest(8)));
}

#[test]
fn a_body_shorter_than_declared_is_a_mismatch() {
    let stream = b"POST / HTTP/1.1\r\nContent-Length: 10\r\n\r\nhello";
    assert_eq!(read_from_stream(stream), Err(Error::ContentLengthMismatch));
    assert_eq!(
        feed_all(&[b"POST / HTTP/1.1\r\nContent-Length: 10\r\n\r\n", b"hello", b""]),
        Err(Error::ContentLengthMismatch)
    );
}

#[test]
fn a_body_longer_than_declared_is_a_mismatch() {
    let stream = b"POST / HTTP/1.1\r\nContent-Length: 3\r\n\r\nhello";
    assert_eq!(read_from_stream(stream), Err(Error::ContentLengthMismatch));
    assert_eq!(
        feed_all(&[b"POST / HTTP/1.1\r\nContent-Length: 3\r\n\r\nhe", b"llo"]),
        Err(Error::ContentLengthMismatch)
    );
}

#[test]
fn bytes_behind_a_head_that_declares_no_body_are_a_mismatch() {
    let stream = b"GET / HTTP/1.1\r\nHost: a\r\n\r\nextra";
    assert_eq!(read_from_stream(stream), Err(Error::ContentLengthMismatch));
}

#[test]
fn a_content_length_that_is_no_number_is_invalid() {
    let stream = b"POST / HTTP/1.1\r\nContent-Length: five\r\n\r\nhello";
    assert_eq!(read_from_stream(stream), Err(Error::InvalidContentLength));
    let negative = b"POST / HTTP/1.1\r\nContent-Length: -5\r\n\r\nhello";
    assert_eq!(read_from_stream(negative), Err(Error::InvalidContentLength));
}

#[test]
fn a_declared_body_over_the_limit_is_too_large() {
    let stream = format!("POST / HTTP/1.1\r\nContent-Length: {}\r\n\r\n", MAX_BODY_SIZE + 1);
    assert_eq!(read_from_stream(stream.as_bytes()), Err(Error::RequestBodyTooLarge));
}

#[test]
fn a_body_of_exactly_the_limit_is_read() {
    let mut stream =
        format!("POST / HTTP/1.1\r\nContent-Length: {}\r\n\r\n", MAX_BODY_SIZE).into_bytes();
    let head_len = stream.len();
    stream.resize(head_len + MAX_BODY_SIZE, b'x');
    let request = read_from_stream(&stream).unwrap();
    assert_eq!(request.body.len(), MAX_BODY_SIZE);
    assert!(request.body.iter().all(|b| *b == b'x'));
}

#[test]
fn a_head_that_fills_the_buffer_is_too_large() {
    let mut stream = b"GET / HTTP/1.1\r\nX-Long: ".to_vec();
    stream.resize(MAX_HEADERS_SIZE + 100, b'a');
    assert_eq!(read_from_stream(&stream), Err(Error::HeadTooLarge));
}

#[test]
fn a_malformed_request_is_refused() {
    assert_eq!(
        read_from_stream(b"NOT A REQUEST\r\n\r\n"),
        Err(Error::MalformedRequest(httparse::Error::Version))
    );
}

#[test]
fn the_reader_wants_room_for_the_head_and_then_up_to_512_bytes() {
    let reader = RequestReader::new();
    assert_eq!(reader.want(), MAX_HEADERS_SIZE);
    let reader = match reader.feed(b"POST / HTTP/1.1\r\nContent-") {
        ReadStep::Pending(next) => next,
        _ => panic!("the head is not complete yet"),
    };
    assert_eq!(reader.want(), MAX_HEADERS_SIZE - 25);
    let reader = match reader.feed(b"Length: 2000\r\n\r\nabc") {
        ReadStep::Pending(next) => next,
        _ => panic!("the body is not complete yet"),
    };
    assert_eq!(reader.want(), 512);
    let small = match RequestReader::new().feed(b"POST / HTTP/1.1\r\nContent-Length: 7\r\n\r\n") {
        ReadStep::Pending(next) => next,
        _ => panic!("the body is not complete yet"),
    };
    assert_eq!(small.want(), 7);
}

#[test]
fn a_request_that_comes_in_pieces_is_read() {
    let request = feed_all(&[
        b"POST /submit HT",
        b"TP/1.1\r\nContent-Le",
        b"ngth: 11\r\n\r\nhel",
        b"lo ",
        b"world",
    ])
    .unwrap();
    assert_eq!(request.target, b"/submit".to_vec());
    assert_eq!(request.body, b"hello world".to_vec());
}

#[test]
fn a_long_body_is_read_in_pieces_of_512() {
    let body: Vec<u8> = (0..2000u32).map(|i| (i % 251) as u8).collect();
    let mut stream = b"PUT /blob HTTP/1.1\r\nContent-Length: 2000\r\n\r\n".to_vec();
    stream.extend_from_slice(&body);
    assert_eq!(read_from_stream(&stream).unwrap().body, body);
    let mut long_stream = b"PUT /blob HTTP/1.1\r\nContent-Length: 9000\r\n\r\n".to_vec();
    let long_body: Vec<u8> = (0..9000u32).map(|i| (i % 7) as u8 + b'a').collect();
    long_stream.extend_from_slice(&long_body);
    assert_eq!(read_from_stream(&long_stream).unwrap().body, long_body);
}

#[test]
fn reading_and_writing_gives_the_same_bytes() {
    let streams: Vec<&[u8]> = vec![
        b"GET /index.html HTTP/1.1\r\nHost: example.com\r\n\r\n",
        b"POST /submit HTTP/1.1\r\nHost: a\r\nContent-Length: 5\r\nX-Mixed-CASE: Yes\r\n\r\nhello",
        b"POST /x HTTP/1.1\r\ncontent-length: 0\r\n\r\n",
        b"DELETE /a/b/c?d=e HTTP/1.1\r\nAccept: a\r\nAccept: b\r\nContent-Length: 2\r\n\r\n\r\n",
    ];
    for stream in streams {
        let request = read_from_stream(stream).unwrap();
        let mut written = Vec::new();
        write_to_stream(&request, &mut written);
        assert_eq!(written, stream.to_vec());
    }
}

#[test]
fn what_is_written_is_read_back() {
    let mut request = get_request();
    request.method = b"POST".to_vec();
    request.headers.push(Header::new(b"Content-Length", b"3"));
    request.body = vec![0, 255, 10];
    let mut written = Vec::new();
    write_to_stream(&request, &mut written);
    assert_eq!(read_from_stream(&written), Ok(request));
}

fn found(headers: Vec<Header>, len: usize) -> Result<Option<(Request, usize)>, Error> {
    let mut request = get_request();
    request.headers = headers;
    Ok(Some((request, len)))
}

#[test]
fn after_parse_goes_by_what_was_found() {
    match after_parse(b"0123456789".to_vec(), found(vec![Header::new(b"Content-Length", b"6")], 4)) {
        ReadStep::Complete(request) => assert_eq!(request.body, b"456789".to_vec()),
        _ => panic!("the body came with the head"),
    }
    match after_parse(b"0123456789".to_vec(), found(vec![Header::new(b"Content-Length", b"9")], 4)) {
        ReadStep::Pending(reader) => assert_eq!(reader.want(), 9),
        _ => panic!("bytes of the body are missing"),
    }
    match after_parse(b"0123456789".to_vec(), found(vec![Header::new(b"Content-Length", b"5")], 4)) {
        ReadStep::Failed(error) => assert_eq!(error, Error::ContentLengthMismatch),
        _ => panic!("there is a byte too many"),
    }
    match after_parse(b"0123456789".to_vec(), found(Vec::new(), 10)) {
        ReadStep::Complete(request) => assert!(request.body.is_empty()),
        _ => panic!("a request without body is complete with its head"),
    }
    match after_parse(b"0123456789".to_vec(), found(Vec::new(), 9)) {
        ReadStep::Failed(error) => assert_eq!(error, Error::ContentLengthMismatch),
        _ => panic!("no body is declared"),
    }
    match after_parse(b"0123456789".to_vec(), found(vec![Header::new(b"Content-Length", b"10000001")], 10)) {
        ReadStep::Failed(error) => assert_eq!(error, Error::RequestBodyTooLarge),
        _ => panic!("the declared body is over the limit"),
    }
    match after_parse(b"0123456789".to_vec(), found(vec![Header::new(b"Content-Length", b"1e3")], 10)) {
        ReadStep::Failed(error) => assert_eq!(error, Error::InvalidContentLength),
        _ => panic!("the declared length is no number"),
    }
    match after_parse(b"0123".to_vec(), Ok(None)) {
        ReadStep::Pending(reader) => assert_eq!(reader.want(), MAX_HEADERS_SIZE - 4),
        _ => panic!("the head is not complete"),
    }
    match after_parse(vec![b'x'; MAX_HEADERS_SIZE], Ok(None)) {
        ReadStep::Failed(error) => assert_eq!(error, Error::HeadTooLarge),
        _ => panic!("there is no room for more of the head"),
    }
    match after_parse(b"0123".to_vec(), Err(Error::MalformedRequest(httparse::Error::Token))) {
        ReadStep::Failed(error) => assert_eq!(error, Error::MalformedRequest(httparse::Error::Token)),
        _ => panic!("the parser gave up"),
    }
}

#[test]
fn the_request_line_agrees_with_the_http_crate() {
    let built = http::Request::builder()
        .method("PATCH")
        .uri("/a/b?c=d")
        .version(http::Version::HTTP_11)
        .body(Vec::<u8>::new())
        .unwrap();
    let expected = format!("{} {} {:?}", built.method(), built.uri(), built.version());
    let mut request = get_request();
    request.method = b"PATCH".to_vec();
    request.target = b"/a/b?c=d".to_vec();
    assert_eq!(format_request_line(&request), expected.into_bytes());
}

#[test]
fn an_over_long_head_is_told_apart_from_a_head_that_was_cut_short() {
    let mut long = b"GET / HTTP/1.1\r\nX: ".to_vec();
    long.resize(long.len() + 9000, b'a');
    assert_eq!(read_from_stream(&long), Err(Error::HeadTooLarge));
    long.truncate(MAX_HEADERS_SIZE);
    assert_eq!(read_from_stream(&long), Err(Error::HeadTooLarge));
    long.truncate(MAX_HEADERS_SIZE - 1);
    assert_eq!(read_from_stream(&long), Err(Error::IncompleteRequest(MAX_HEADERS_SIZE - 1)));
    // In pieces: the head is too large as soon as the last byte of room is taken.
    let mut reader = RequestReader::new();
    let mut fed = 0;
    let outcome = loop {
        let piece = vec![b'a'; reader.want().min(1000)];
        let first: &[u8] = b"GET / HTTP/1.1\r\nX: ";
        let piece = if fed == 0 { [first, &piece[first.len()..]].concat() } else { piece };
        fed += piece.len();
        match reader.feed(&piece) {
            ReadStep::Pending(next) => reader = next,
            ReadStep::Failed(error) => break error,
            ReadStep::Complete(_) => panic!("there is no whole head"),
        }
    };
    assert_eq!(outcome, Error::HeadTooLarge);
    assert_eq!(fed, MAX_HEADERS_SIZE);
}

#[test]
fn a_head_of_just_the_limit_is_read() {
    let mut stream = b"GET / HTTP/1.1\r\nX: ".to_vec();
    stream.resize(MAX_HEADERS_SIZE - 4, b'a');
    stream.extend_from_slice(b"\r\n\r\n");
    assert_eq!(stream.len(), MAX_HEADERS_SIZE);
    let request = read_from_stream(&stream).unwrap();
    assert_eq!(request.headers.len(), 1);
    assert_eq!(request.headers[0].value.len(), MAX_HEADERS_SIZE - 4 - 19);
}

#[test]
fn too_many_headers_are_told_apart_from_a_malformed_request() {
    let mut stream = b"GET / HTTP/1.1\r\n".to_vec();
    for i in 0..33 {
        stream.extend_from_slice(format!("H{}: v\r\n", i).as_bytes());
    }
    stream.extend_from_slice(b"\r\n");
    assert_eq!(read_from_stream(&stream), Err(Error::TooManyHeaders));
    assert_eq!(
        read_from_stream(b"GET / HTTP/1.1\r\nBad Header: x\r\n\r\n"),
        Err(Error::MalformedRequest(httparse::Error::HeaderName))
    );
}
