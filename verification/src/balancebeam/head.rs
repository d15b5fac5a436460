//! Start line and headers of a message, read by the `httparse` crate.
//!
//! The parser is not verified here. What it returns on a buffer is given a
//! name, and the two functions below that call it are believed to return
//! what the name stands for. Of the parser's errors one is told apart: that
//! the head has more header lines than the codec allows.

use crate::balancebeam::message::{Header, HeaderLine, header_lines};
use httparse::Error as ParseError;
use vstd::prelude::*;

verus! {

/// The error that `httparse` reports for a head that no more bytes can mend.
#[verifier::external_type_specification]
#[verifier::external_body]
pub struct ExParseError(ParseError);

/// The head of a request: method, target and header lines, and the number
/// of bytes that the head took in the buffer it was read from.
pub struct RequestHead {
    pub method: Vec<u8>,
    pub target: Vec<u8>,
    pub headers: Vec<Header>,
    pub len: usize,
}

/// The head of a response: status code and header lines, and the number of
/// bytes that the head took in the buffer it was read from.
pub struct ResponseHead {
    pub status: u16,
    pub headers: Vec<Header>,
    pub len: usize,
}

/// What a call of the parser gave.
pub enum HeadParse<H> {
    /// The buffer starts with this whole head.
    Complete(H),
    /// The buffer may be the beginning of a head.
    Partial,
    /// The parser met more header lines than it was given room for.
    TooManyHeaders,
    /// No head starts like the buffer; the parser's error says why.
    Malformed(ParseError),
}

/// What the parser makes of a buffer that should start with a request.
pub ghost enum ParsedRequest {
    /// The buffer starts with a whole head of `len` bytes.
    Complete { method: Seq<u8>, target: Seq<u8>, headers: Seq<HeaderLine>, len: nat },
    /// The buffer may be the beginning of a head.
    Partial,
    /// The buffer holds more header lines than there is room for.
    TooManyHeaders,
    /// No head starts like the buffer.
    Malformed,
}

/// What the parser makes of a buffer that should start with a response.
pub ghost enum ParsedResponse {
    /// The buffer starts with a whole head of `len` bytes.
    Complete { status: u16, headers: Seq<HeaderLine>, len: nat },
    /// The buffer may be the beginning of a head.
    Partial,
    /// The buffer holds more header lines than there is room for.
    TooManyHeaders,
    /// No head starts like the buffer.
    Malformed,
}

/// The outcome of `httparse::Request::parse` on `buffer`, with room for
/// `max_headers` header lines.
pub uninterp spec fn parsed_request_head(buffer: Seq<u8>, max_headers: nat) -> ParsedRequest;

/// The outcome of `httparse::Response::parse` on `buffer`, with room for
/// `max_headers` header lines.
pub uninterp spec fn parsed_response_head(buffer: Seq<u8>, max_headers: nat) -> ParsedResponse;

/// Calls `httparse::Request::parse` on `buffer` with room for `max_headers`
/// header lines, copies out what it found, and tells the error
/// `httparse::Error::TooManyHeaders` apart from the parser's other errors.
///
/// Believed, not proved: the result is the outcome named
/// `parsed_request_head`; a complete head lies within the buffer, so its
/// length is an offset into it; and the parser hands out no more header
/// lines than it was given room for.
#[verifier::external_body]
pub(crate) fn httparse_request(buffer: &[u8], max_headers: usize) -> (r: HeadParse<RequestHead>)
    ensures
        match r {
            HeadParse::Complete(head) => {
                &&& parsed_request_head(buffer@, max_headers as nat) == (ParsedRequest::Complete {
                    method: head.method@,
                    target: head.target@,
                    headers: header_lines(head.headers@),
                    len: head.len as nat,
                })
                &&& head.len <= buffer@.len()
                &&& head.headers@.len() <= max_headers
            },
            HeadParse::Partial => parsed_request_head(buffer@, max_headers as nat) is Partial,
            HeadParse::TooManyHeaders => parsed_request_head(buffer@, max_headers as nat)
                is TooManyHeaders,
            HeadParse::Malformed(_) => parsed_request_head(buffer@, max_headers as nat) is Malformed,
        },
{
    let mut lines = vec![httparse::EMPTY_HEADER; max_headers];
    let mut request = httparse::Request::new(&mut lines);
    match request.parse(buffer) {
        Ok(httparse::Status::Partial) => HeadParse::Partial,
        Err(ParseError::TooManyHeaders) => HeadParse::TooManyHeaders,
        Err(error) => HeadParse::Malformed(error),
        Ok(httparse::Status::Complete(len)) => HeadParse::Complete(RequestHead {
            method: request.method.unwrap().as_bytes().to_vec(),
            target: request.path.unwrap().as_bytes().to_vec(),
            headers: request.headers.iter().map(|h| Header { name: h.name.as_bytes().to_vec(), value: h.value.to_vec() }).collect(),
            len,
        }),
    }
}

/// Calls `httparse::Response::parse` on `buffer` with room for `max_headers`
/// header lines, copies out what it found, and tells the error
/// `httparse::Error::TooManyHeaders` apart from the parser's other errors.
///
/// Believed, not proved: the result is the outcome named
/// `parsed_response_head`; a complete head lies within the buffer, so its
/// length is an offset into it; and the parser hands out no more header
/// lines than it was given room for.
#[verifier::external_body]
pub(crate) fn httparse_response(buffer: &[u8], max_headers: usize) -> (r: HeadParse<ResponseHead>)
    ensures
        match r {
            HeadParse::Complete(head) => {
                &&& parsed_response_head(buffer@, max_headers as nat) == (ParsedResponse::Complete {
                    status: head.status,
                    headers: header_lines(head.headers@),
                    len: head.len as nat,
                })
                &&& head.len <= buffer@.len()
                &&& head.headers@.len() <= max_headers
            },
            HeadParse::Partial => parsed_response_head(buffer@, max_headers as nat) is Partial,
            HeadParse::TooManyHeaders => parsed_response_head(buffer@, max_headers as nat)
                is TooManyHeaders,
            HeadParse::Malformed(_) => parsed_response_head(buffer@, max_headers as nat)
                is Malformed,
        },
{
    let mut lines = vec![httparse::EMPTY_HEADER; max_headers];
    let mut response = httparse::Response::new(&mut lines);
    match response.parse(buffer) {
        Ok(httparse::Status::Partial) => HeadParse::Partial,
        Err(ParseError::TooManyHeaders) => HeadParse::TooManyHeaders,
        Err(error) => HeadParse::Malformed(error),
        Ok(httparse::Status::Complete(len)) => HeadParse::Complete(ResponseHead {
            status: response.code.unwrap(),
            headers: response.headers.iter().map(|h| Header { name: h.name.as_bytes().to_vec(), value: h.value.to_vec() }).collect(),
            len,
        }),
    }
}

} // verus!
