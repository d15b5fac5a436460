use cs110l::balancebeam::handler::{
    status_for, Action, ConnectionHandler, Event, Reaction, BAD_GATEWAY, BAD_REQUEST,
    PAYLOAD_TOO_LARGE, SERVICE_UNAVAILABLE,
};
use cs110l::balancebeam::message::{Header, Version};
use cs110l::balancebeam::request;
use cs110l::balancebeam::request::Request;
use cs110l::balancebeam::response;
use cs110l::balancebeam::response::{make_http_error, Response};
use cs110l::balancebeam::upstream::{Selection, UpstreamPool};

fn error_bytes(status: u16) -> Vec<u8> {
    let mut bytes = Vec::new();
    response::write_to_stream(&make_http_error(status), &mut bytes);
    bytes
}

fn post_hello() -> Request {
    request::read_from_stream(b"POST /echo HTTP/1.1\r\nContent-Length: 5\r\n\r\nhello").unwrap()
}

fn step(handler: ConnectionHandler, event: Event) -> (ConnectionHandler, Reaction) {
    handler.step(event)
}

fn expect_connect(reaction: &Reaction) {
    assert!(matches!(reaction.action, Action::ConnectUpstream));
}

/// Runs the search for an upstream as the proxy does: pick, try to connect,
/// mark dead on failure, pick again.
fn connect(pool: &mut UpstreamPool, reachable: &[usize], rolls: &mut dyn Iterator<Item = usize>) -> Event {
    let mut selection = Selection::new();
    loop {
        match pool.select_with(&mut selection, rolls.next().unwrap_or(0)) {
            Ok(index) => {
                if pool.after_connect(&selection, index, reachable.contains(&index)) {
                    return Event::UpstreamConnected(index);
                }
            }
            Err(_) => return Event::NoUpstreamAvailable,
        }
    }
}

#[test]
fn statuses_follow_the_table() {
    assert_eq!(BAD_REQUEST, 400);
    assert_eq!(PAYLOAD_TOO_LARGE, 413);
    assert_eq!(BAD_GATEWAY, 502);
    assert_eq!(SERVICE_UNAVAILABLE, 503);
    assert_eq!(status_for(&request::Error::IncompleteRequest(5)), 400);
    assert_eq!(status_for(&request::Error::HeadTooLarge), 400);
    assert_eq!(status_for(&request::Error::TooManyHeaders), 400);
    assert_eq!(status_for(&request::Error::MalformedRequest(httparse::Error::Token)), 400);
    assert_eq!(status_for(&request::Error::InvalidContentLength), 400);
    assert_eq!(status_for(&request::Error::ContentLengthMismatch), 400);
    assert_eq!(status_for(&request::Error::RequestBodyTooLarge), 413);
    assert_eq!(status_for(&request::Error::ConnectionError(String::from("reset"))), 503);
}

#[test]
fn a_client_that_sends_nothing_is_closed_without_response() {
    let handler = ConnectionHandler::new(b"10.0.0.1", 3);
    assert!(!handler.is_closed());
    let read = request::read_from_stream(b"");
    let (handler, reaction) = step(handler, Event::RequestRead(read));
    assert!(matches!(reaction.action, Action::Close));
    assert_eq!(reaction.mark_dead, None);
    assert!(handler.is_closed());
}

#[test]
fn a_short_body_gets_400_and_the_hung_up_client_is_let_go() {
    let handler = ConnectionHandler::new(b"10.0.0.1", 3);
    let read = request::read_from_stream(b"POST / HTTP/1.1\r\nContent-Length: 10\r\n\r\nhello");
    assert_eq!(read, Err(request::Error::ContentLengthMismatch));
    let (handler, reaction) = step(handler, Event::RequestRead(read));
    match reaction.action {
        Action::SendToClient { bytes } => {
            assert_eq!(bytes, error_bytes(400));
            assert!(bytes.starts_with(b"HTTP/1.1 400 Bad Request\r\n"));
        }
        _ => panic!("a response is due"),
    }
    assert_eq!(reaction.mark_dead, None);
    let (handler, reaction) = step(handler, Event::ResponseRelayed);
    assert!(matches!(reaction.action, Action::ReadRequest));
    assert!(!handler.is_closed());
    // The client has hung up: the next read brings nothing, and the
    // connection is closed.
    let (handler, reaction) = step(handler, Event::RequestRead(request::read_from_stream(b"")));
    assert!(matches!(reaction.action, Action::Close));
    assert!(handler.is_closed());
}

#[test]
fn each_failure_to_read_a_request_has_its_answer() {
    let cases: Vec<(request::Error, Option<u16>)> = vec![
        (request::Error::IncompleteRequest(0), None),
        (request::Error::IncompleteRequest(1), Some(400)),
        (request::Error::HeadTooLarge, Some(400)),
        (request::Error::TooManyHeaders, Some(400)),
        (request::Error::MalformedRequest(httparse::Error::Version), Some(400)),
        (request::Error::InvalidContentLength, Some(400)),
        (request::Error::ContentLengthMismatch, Some(400)),
        (request::Error::RequestBodyTooLarge, Some(413)),
        (request::Error::ConnectionError(String::from("broken pipe")), Some(503)),
    ];
    for (error, status) in cases {
        let handler = ConnectionHandler::new(b"10.0.0.1", 2);
        let (handler, reaction) = step(handler, Event::RequestRead(Err(error)));
        match status {
            None => {
                assert!(matches!(reaction.action, Action::Close));
                assert!(handler.is_closed());
            }
            Some(status) => match reaction.action {
                Action::SendToClient { bytes } => assert_eq!(bytes, error_bytes(status)),
                _ => panic!("a response is due"),
            },
        }
    }
}

#[test]
fn failover_reaches_the_third_upstream_and_marks_the_first_two_dead() {
    let mut pool = UpstreamPool::new(vec![
        String::from("127.0.0.1:1"),
        String::from("127.0.0.1:2"),
        String::from("127.0.0.1:3"),
    ]);
    let handler = ConnectionHandler::new(b"10.0.0.1", pool.len());
    let (handler, reaction) = step(handler, Event::RequestRead(Ok(post_hello())));
    expect_connect(&reaction);
    let connected = connect(&mut pool, &[2], &mut std::iter::repeat(0));
    assert!(matches!(connected, Event::UpstreamConnected(2)));
    assert!(pool.is_dead(0) && pool.is_dead(1) && !pool.is_dead(2));

    let (handler, reaction) = step(handler, connected);
    let forwarded = match reaction.action {
        Action::ForwardRequest { upstream, bytes } => {
            assert_eq!(upstream, 2);
            bytes
        }
        _ => panic!("the request is to be forwarded"),
    };
    assert_eq!(
        forwarded,
        b"POST /echo HTTP/1.1\r\nContent-Length: 5\r\nx-forwarded-for: 10.0.0.1\r\n\r\nhello".to_vec()
    );
    let (handler, reaction) = step(handler, Event::RequestForwarded);
    match reaction.action {
        Action::ReadResponse { upstream, method } => {
            assert_eq!(upstream, 2);
            assert_eq!(method, b"POST".to_vec());
        }
        _ => panic!("the response is to be read"),
    }
    // The upstream echoes the request that it got.
    let mut echo = format!("HTTP/1.1 200 OK\r\nContent-Length: {}\r\n\r\n", forwarded.len()).into_bytes();
    echo.extend_from_slice(&forwarded);
    let answer = response::read_from_stream(&echo, b"POST").unwrap();
    assert_eq!(answer.body, forwarded);
    let (handler, reaction) = step(handler, Event::ResponseRead(answer));
    assert_eq!(reaction.mark_dead, None);
    match reaction.action {
        Action::SendToClient { bytes } => assert_eq!(bytes, echo),
        _ => panic!("the response is to be relayed"),
    }
    let (handler, reaction) = step(handler, Event::ResponseRelayed);
    assert!(matches!(reaction.action, Action::ReadRequest));
    assert!(!handler.is_closed());
    assert!(pool.is_dead(0) && pool.is_dead(1) && !pool.is_dead(2));
}

#[test]
fn with_every_upstream_unreachable_the_client_gets_502() {
    let mut pool = UpstreamPool::new(vec![String::from("a:1"), String::from("b:2"), String::from("c:3")]);
    let mut handler = ConnectionHandler::new(b"10.0.0.1", pool.len());
    let (next, reaction) = step(handler, Event::RequestRead(Ok(post_hello())));
    handler = next;
    expect_connect(&reaction);
    let mut connects = 1;
    let bytes = loop {
        let event = connect(&mut pool, &[], &mut std::iter::repeat(1));
        assert!(matches!(event, Event::NoUpstreamAvailable));
        let (next, reaction) = step(handler, event);
        handler = next;
        match reaction.action {
            Action::ConnectUpstream => connects += 1,
            Action::SendToClient { bytes } => break bytes,
            _ => panic!("either the next attempt or a response is due"),
        }
    };
    assert_eq!(connects, 3);
    assert!(pool.is_dead(0) && pool.is_dead(1) && pool.is_dead(2));
    assert_eq!(bytes, error_bytes(502));
    assert!(bytes.starts_with(b"HTTP/1.1 502 Bad Gateway\r\n"));
    assert!(bytes.ends_with(b"\r\n\r\nHTTP 502 Bad Gateway"));
    let (handler, reaction) = step(handler, Event::ResponseRelayed);
    assert!(matches!(reaction.action, Action::Close));
    assert!(handler.is_closed());
}

#[test]
fn a_failed_forward_marks_the_upstream_dead_and_retries() {
    let handler = ConnectionHandler::new(b"10.0.0.1", 2);
    let (handler, _) = step(handler, Event::RequestRead(Ok(post_hello())));
    let (handler, _) = step(handler, Event::UpstreamConnected(1));
    let (handler, reaction) = step(handler, Event::ForwardFailed);
    assert_eq!(reaction.mark_dead, Some(1));
    expect_connect(&reaction);
    let (handler, _) = step(handler, Event::UpstreamConnected(0));
    let (handler, _) = step(handler, Event::RequestForwarded);
    let (handler, reaction) = step(handler, Event::ResponseFailed);
    assert_eq!(reaction.mark_dead, Some(0));
    match reaction.action {
        Action::SendToClient { bytes } => assert_eq!(bytes, error_bytes(502)),
        _ => panic!("the budget of two attempts is used up"),
    }
    let (handler, reaction) = step(handler, Event::ResponseRelayed);
    assert!(matches!(reaction.action, Action::Close));
    assert!(handler.is_closed());
}

#[test]
fn a_failed_read_of_the_response_retries_with_the_same_request() {
    let handler = ConnectionHandler::new(b"10.0.0.1", 3);
    let (handler, _) = step(handler, Event::RequestRead(Ok(post_hello())));
    let (handler, first) = step(handler, Event::UpstreamConnected(0));
    let (handler, _) = step(handler, Event::RequestForwarded);
    let (handler, reaction) = step(handler, Event::ResponseFailed);
    assert_eq!(reaction.mark_dead, Some(0));
    expect_connect(&reaction);
    let (_, second) = step(handler, Event::UpstreamConnected(2));
    match (first.action, second.action) {
        (
            Action::ForwardRequest { upstream: 0, bytes: a },
            Action::ForwardRequest { upstream: 2, bytes: b },
        ) => assert_eq!(a, b),
        _ => panic!("both attempts forward the request"),
    }
}

#[test]
fn without_upstreams_every_request_gets_502() {
    let handler = ConnectionHandler::new(b"10.0.0.1", 0);
    let (handler, reaction) = step(handler, Event::RequestRead(Ok(post_hello())));
    match reaction.action {
        Action::SendToClient { bytes } => assert_eq!(bytes, error_bytes(502)),
        _ => panic!("a response is due"),
    }
    let (handler, _) = step(handler, Event::ResponseRelayed);
    assert!(handler.is_closed());
}

#[test]
fn the_client_address_joins_an_existing_forwarded_for_header() {
    let request = Request {
        method: b"GET".to_vec(),
        target: b"/".to_vec(),
        version: Version::Http11,
        headers: vec![Header::new(b"X-Forwarded-For", b"1.2.3.4")],
        body: Vec::new(),
    };
    let handler = ConnectionHandler::new(b"5.6.7.8", 1);
    let (handler, _) = step(handler, Event::RequestRead(Ok(request)));
    let (_, reaction) = step(handler, Event::UpstreamConnected(0));
    match reaction.action {
        Action::ForwardRequest { bytes, .. } => {
            assert_eq!(bytes, b"GET / HTTP/1.1\r\nX-Forwarded-For: 1.2.3.4, 5.6.7.8\r\n\r\n".to_vec())
        }
        _ => panic!("the request is to be forwarded"),
    }
}

#[test]
fn a_failed_write_to_the_client_closes_the_connection() {
    let handler = ConnectionHandler::new(b"10.0.0.1", 1);
    let (handler, _) = step(handler, Event::RequestRead(Err(request::Error::InvalidContentLength)));
    let (handler, reaction) = step(handler, Event::ClientWriteFailed);
    assert!(matches!(reaction.action, Action::Close));
    assert!(handler.is_closed());
}

#[test]
fn a_closed_connection_stays_closed() {
    let handler = ConnectionHandler::new(b"10.0.0.1", 1);
    let (handler, _) = step(handler, Event::RequestRead(Err(request::Error::IncompleteRequest(0))));
    let events = vec![
        Event::RequestRead(Ok(post_hello())),
        Event::UpstreamConnected(0),
        Event::NoUpstreamAvailable,
        Event::RequestForwarded,
        Event::ForwardFailed,
        Event::ResponseFailed,
        Event::ResponseRelayed,
        Event::ClientWriteFailed,
    ];
    let mut handler = handler;
    for event in events {
        let (next, reaction) = step(handler, event);
        assert!(matches!(reaction.action, Action::Close));
        assert_eq!(reaction.mark_dead, None);
        assert!(next.is_closed());
        handler = next;
    }
}

#[test]
fn an_event_out_of_turn_closes_the_connection() {
    let handler = ConnectionHandler::new(b"10.0.0.1", 1);
    let (handler, reaction) = step(handler, Event::UpstreamConnected(0));
    assert!(matches!(reaction.action, Action::Close));
    assert!(handler.is_closed());
    let handler = ConnectionHandler::new(b"10.0.0.1", 1);
    let (handler, _) = step(handler, Event::RequestRead(Ok(post_hello())));
    let response = Response {
        version: Version::Http11,
        status: 200,
        reason: b"OK".to_vec(),
        headers: Vec::new(),
        body: Vec::new(),
    };
    let (handler, reaction) = step(handler, Event::ResponseRead(response));
    assert!(matches!(reaction.action, Action::Close));
    assert!(handler.is_closed());
}

#[test]
fn two_requests_on_one_connection_are_both_served() {
    let mut handler = ConnectionHandler::new(b"10.0.0.1", 1);
    for _ in 0..2 {
        let (next, reaction) = step(handler, Event::RequestRead(Ok(post_hello())));
        expect_connect(&reaction);
        let (next, _) = step(next, Event::UpstreamConnected(0));
        let (next, _) = step(next, Event::RequestForwarded);
        let (next, reaction) = step(next, Event::ResponseRead(make_http_error(404)));
        match reaction.action {
            Action::SendToClient { bytes } => assert_eq!(bytes, error_bytes(404)),
            _ => panic!("the response is to be relayed"),
        }
        let (next, reaction) = step(next, Event::ResponseRelayed);
        assert!(matches!(reaction.action, Action::ReadRequest));
        handler = next;
    }
    assert!(!handler.is_closed());
}

#[test]
fn a_connection_that_fails_while_a_request_is_read_gets_503_and_ends() {
    let handler = ConnectionHandler::new(b"10.0.0.1", 2);
    let error = request::Error::ConnectionError(String::from("connection reset by peer"));
    let (handler, reaction) = step(handler, Event::RequestRead(Err(error)));
    match reaction.action {
        Action::SendToClient { bytes } => {
            assert_eq!(bytes, error_bytes(503));
            assert!(bytes.starts_with(b"HTTP/1.1 503 Service Unavailable\r\n"));
        }
        _ => panic!("a response is due"),
    }
    assert!(!handler.is_closed());
    let (handler, reaction) = step(handler, Event::ResponseRelayed);
    assert!(matches!(reaction.action, Action::Close));
    assert!(handler.is_closed());
}
