//! Responses: their data, their byte form, how one is read off a stream
//! that hands over its bytes piece by piece, and the error responses that
//! the proxy itself sends.

use crate::balancebeam::decimal::{decimal_digits, format_decimal, lemma_parse_format};
use crate::balancebeam::head::{
    HeadParse, ParsedResponse, ResponseHead, httparse_response, parsed_response_head,
};
use crate::balancebeam::message::{
    DeclaredLength, Header, HeaderLine, MAX_BODY_SIZE, MAX_HEADERS_SIZE, MAX_NUM_HEADERS, Version,
    append_bytes, append_text, bytes, content_length, content_length_name, copy_bytes, crlf,
    declared_length,
    header_block, header_lines, is_first_header, lemma_first_header, lower, same_bytes, same_name,
    version_bytes, write_headers, write_version,
};
use crate::balancebeam::reason::{reason_phrase, reason_text};
use vstd::prelude::*;
use vstd::string::*;

verus! {

/// Why no response could be read.
#[derive(Debug, PartialEq)]
pub enum Error {
    /// The server hung up before it had sent a whole head.
    IncompleteResponse,
    /// Status line and headers take more than `MAX_HEADERS_SIZE` bytes.
    HeadTooLarge,
    /// The response has more than `MAX_NUM_HEADERS` header lines.
    TooManyHeaders,
    /// What came is no HTTP response.
    MalformedResponse(httparse::Error),
    /// The `Content-Length` header holds no number.
    InvalidContentLength,
    /// The body that came is not as long as `Content-Length` says.
    ContentLengthMismatch,
    /// The body is longer than `MAX_BODY_SIZE`.
    ResponseBodyTooLarge,
    /// Reading from the connection failed; the text says how.
    ConnectionError(String),
}

/// An `Error` without what the verifier cannot look into.
pub ghost enum Failure {
    IncompleteResponse,
    HeadTooLarge,
    TooManyHeaders,
    MalformedResponse,
    InvalidContentLength,
    ContentLengthMismatch,
    ResponseBodyTooLarge,
    ConnectionError,
}

impl View for Error {
    type V = Failure;

    open spec fn view(&self) -> Failure {
        match self {
            Error::IncompleteResponse => Failure::IncompleteResponse,
            Error::HeadTooLarge => Failure::HeadTooLarge,
            Error::TooManyHeaders => Failure::TooManyHeaders,
            Error::MalformedResponse(_) => Failure::MalformedResponse,
            Error::InvalidContentLength => Failure::InvalidContentLength,
            Error::ContentLengthMismatch => Failure::ContentLengthMismatch,
            Error::ResponseBodyTooLarge => Failure::ResponseBodyTooLarge,
            Error::ConnectionError(_) => Failure::ConnectionError,
        }
    }
}

/// An HTTP response. Header lines are kept as they came.
#[derive(Debug, PartialEq, Eq)]
pub struct Response {
    pub version: Version,
    pub status: u16,
    pub reason: Vec<u8>,
    pub headers: Vec<Header>,
    pub body: Vec<u8>,
}

/// A response as mathematical data.
pub ghost struct ResponseData {
    pub version: Version,
    pub status: u16,
    pub reason: Seq<u8>,
    pub headers: Seq<HeaderLine>,
    pub body: Seq<u8>,
}

impl View for Response {
    type V = ResponseData;

    open spec fn view(&self) -> ResponseData {
        ResponseData {
            version: self.version,
            status: self.status,
            reason: self.reason@,
            headers: header_lines(self.headers@),
            body: self.body@,
        }
    }
}

/// The status line without its line end: version, status code in decimal
/// and reason phrase with one space between them.
pub open spec fn response_line(response: ResponseData) -> Seq<u8> {
    version_bytes(response.version) + bytes(" ") + decimal_digits(response.status as nat) + bytes(
        " ",
    ) + response.reason
}

/// A response on the wire: status line, header lines, empty line, body.
pub open spec fn response_bytes(response: ResponseData) -> Seq<u8> {
    response_line(response) + crlf() + header_block(response.headers) + crlf() + response.body
}

/// The status line of `response`, such as `HTTP/1.1 200 OK`.
pub fn format_response_line(response: &Response) -> (line: Vec<u8>)
    ensures
        line@ == response_line(response@),
{
    let mut line: Vec<u8> = Vec::new();
    write_version(response.version, &mut line);
    append_text(&mut line, " ");
    let digits = format_decimal(response.status as usize);
    append_bytes(&mut line, digits.as_slice());
    append_text(&mut line, " ");
    append_bytes(&mut line, response.reason.as_slice());
    assert(line@ == response_line(response@));
    line
}

/// Writes `response` to `stream`: status line, headers in their order, an
/// empty line, then the body, each byte once.
pub fn write_to_stream(response: &Response, stream: &mut Vec<u8>)
    ensures
        final(stream)@ == old(stream)@ + response_bytes(response@),
{
    let ghost before = stream@;
    let line = format_response_line(response);
    append_bytes(stream, line.as_slice());
    append_text(stream, "\r\n");
    write_headers(&response.headers, stream);
    append_text(stream, "\r\n");
    append_bytes(stream, response.body.as_slice());
    assert(stream@ == before + response_bytes(response@));
}

/// The body length that `response` declares: `Ok(None)` without a
/// `Content-Length` header, `Ok(Some(n))` where the first one holds the
/// number `n`, and `InvalidContentLength` where it holds none.
pub fn get_content_length(response: &Response) -> (r: Result<Option<usize>, Error>)
    ensures
        match declared_length(response@.headers) {
            DeclaredLength::Absent => r == Ok::<Option<usize>, Error>(None),
            DeclaredLength::Valid(n) => r == Ok::<Option<usize>, Error>(Some(n)),
            DeclaredLength::Invalid => r == Err::<Option<usize>, Error>(Error::InvalidContentLength),
        },
{
    match content_length(&response.headers) {
        DeclaredLength::Absent => Ok(None),
        DeclaredLength::Valid(n) => Ok(Some(n)),
        DeclaredLength::Invalid => Err(Error::InvalidContentLength),
    }
}

/// The response with the given status, reason phrase and headers:
/// HTTP/1.1, body still empty.
pub open spec fn response_with(status: u16, reason: Seq<u8>, headers: Seq<HeaderLine>) -> ResponseData {
    ResponseData { version: Version::Http11, status, reason, headers, body: Seq::empty() }
}

/// The response that a complete head stands for: HTTP/1.1, the standard
/// reason phrase of its status code, body still empty.
pub open spec fn response_of_head(status: u16, headers: Seq<HeaderLine>) -> ResponseData {
    response_with(status, reason_text(status), headers)
}

/// Makes of a head that the parser found, and of the reason phrase that
/// goes with its status, a response without its body.
pub fn response_from_head(head: ResponseHead, reason: Vec<u8>) -> (r: (Response, usize))
    ensures
        r.0@ == response_with(head.status, reason@, header_lines(head.headers@)),
        r.1 == head.len,
{
    let response = Response {
        version: Version::Http11,
        status: head.status,
        reason,
        headers: head.headers,
        body: Vec::new(),
    };
    (response, head.len)
}

/// What came of looking for the head of a response in the bytes received.
pub ghost enum HeadFound {
    /// A whole head of `len` bytes, which makes `response`.
    Complete { response: ResponseData, len: nat },
    /// What may be the beginning of a head.
    Partial,
    /// No response.
    Failed(Failure),
}

/// What `parsed`, the result of looking for a head, says.
pub open spec fn head_found(parsed: Result<Option<(Response, usize)>, Error>) -> HeadFound {
    match parsed {
        Ok(Some((response, len))) => HeadFound::Complete { response: response@, len: len as nat },
        Ok(None) => HeadFound::Partial,
        Err(error) => HeadFound::Failed(error@),
    }
}

/// What the outcome `parsed` of the parser says.
pub open spec fn head_of_parser(parsed: ParsedResponse) -> HeadFound {
    match parsed {
        ParsedResponse::Complete { status, headers, len } => HeadFound::Complete {
            response: response_of_head(status, headers),
            len,
        },
        ParsedResponse::Partial => HeadFound::Partial,
        ParsedResponse::TooManyHeaders => HeadFound::Failed(Failure::TooManyHeaders),
        ParsedResponse::Malformed => HeadFound::Failed(Failure::MalformedResponse),
    }
}

/// Looks for the head of a response at the start of `buffer`.
///
/// * `Ok(Some((response, len)))`: the first `len` bytes are a whole head;
///   `response` holds its status and headers, and no body yet.
/// * `Ok(None)`: the buffer may be the beginning of a head.
/// * `Err(TooManyHeaders)`: there are more than `MAX_NUM_HEADERS` header
///   lines.
/// * `Err(MalformedResponse(..))`: no response starts like this.
pub fn parse_response(buffer: &[u8]) -> (r: Result<Option<(Response, usize)>, Error>)
    ensures
        match parsed_response_head(buffer@, MAX_NUM_HEADERS as nat) {
            ParsedResponse::Complete { status, headers, len } => {
                &&& r matches Ok(Some((response, n)))
                &&& response@ == response_of_head(status, headers)
                &&& n == len
                &&& n <= buffer@.len()
                &&& headers.len() <= MAX_NUM_HEADERS
            },
            ParsedResponse::Partial => r matches Ok(None),
            ParsedResponse::TooManyHeaders => r == Err::<Option<(Response, usize)>, Error>(
                Error::TooManyHeaders,
            ),
            ParsedResponse::Malformed => r matches Err(e) && e@ == Failure::MalformedResponse,
        },
        head_found(r) == head_of_parser(parsed_response_head(buffer@, MAX_NUM_HEADERS as nat)),
{
    match httparse_response(buffer, MAX_NUM_HEADERS) {
        HeadParse::Complete(head) => {
            let reason = reason_phrase(head.status);
            Ok(Some(response_from_head(head, reason)))
        },
        HeadParse::Partial => Ok(None),
        HeadParse::TooManyHeaders => Err(Error::TooManyHeaders),
        HeadParse::Malformed(error) => Err(Error::MalformedResponse(error)),
    }
}

/// The method `HEAD`.
pub open spec fn head_method() -> Seq<u8> {
    bytes("HEAD")
}

/// A response with this status to a request with this method carries no
/// body: the method is `HEAD`, or the status is below 200, 204 or 304.
pub open spec fn bodiless(request_method: Seq<u8>, status: u16) -> bool {
    request_method == head_method() || status < 200 || status == 204 || status == 304
}

/// Tells whether `method` is `HEAD`.
pub fn is_head(method: &[u8]) -> (r: bool)
    ensures
        r == (method@ == head_method()),
{
    same_bytes(method, "HEAD".as_bytes())
}

/// How far the reading of one response has come.
pub ghost enum Reading {
    /// The head is not complete; `received` holds the bytes that came.
    /// `head_only` says that the request was a `HEAD`.
    Head { received: Seq<u8>, head_only: bool },
    /// The head is read and the body goes on: up to the declared length, or
    /// up to the end of the stream where none is declared.
    Body { response: ResponseData, content_length: Option<nat> },
}

/// What a piece of the stream leads to.
pub ghost enum Progress {
    /// More bytes are needed.
    Pending(Reading),
    /// The response is complete.
    Complete(ResponseData),
    /// No response will come of this.
    Failed(Failure),
}

/// The reading that has seen nothing yet, of the response to a request with
/// the method `request_method`.
pub open spec fn start(request_method: Seq<u8>) -> Reading {
    Reading::Head { received: Seq::empty(), head_only: request_method == head_method() }
}

/// States that `read_headers` and `read_body` leave behind: a head that still
/// has room to grow, or a body within the limit that is short of its
/// declared length, if one is declared.
pub open spec fn valid(state: Reading) -> bool {
    match state {
        Reading::Head { received, head_only } => received.len() < MAX_HEADERS_SIZE,
        Reading::Body { response, content_length } => {
            &&& response.body.len() <= MAX_BODY_SIZE
            &&& match content_length {
                Some(n) => response.body.len() < n && declared_length(response.headers)
                    == DeclaredLength::Valid(n as usize) && n <= usize::MAX,
                None => declared_length(response.headers) == DeclaredLength::Absent,
            }
        },
    }
}

/// The most bytes that the next piece may hold: the room left for the head,
/// or 512 for the body.
pub open spec fn wanted(state: Reading) -> nat {
    match state {
        Reading::Head { received, head_only } => (MAX_HEADERS_SIZE - received.len()) as nat,
        Reading::Body { response, content_length } => 512,
    }
}

/// What becomes of a response that may have a body, once its head is read
/// and its body holds the bytes that came with the head.
pub open spec fn framed(response: ResponseData) -> Progress {
    match declared_length(response.headers) {
        DeclaredLength::Invalid => Progress::Failed(Failure::InvalidContentLength),
        DeclaredLength::Absent => Progress::Pending(
            Reading::Body { response, content_length: None },
        ),
        DeclaredLength::Valid(n) => if response.body.len() > n {
            Progress::Failed(Failure::ContentLengthMismatch)
        } else if response.body.len() == n {
            Progress::Complete(response)
        } else {
            Progress::Pending(Reading::Body { response, content_length: Some(n as nat) })
        },
    }
}

/// `response` with the body `body`.
pub open spec fn with_body(response: ResponseData, body: Seq<u8>) -> ResponseData {
    ResponseData { body, ..response }
}

/// What the bytes `received` lead to while the head is being read, when
/// looking for a head in them gave `found`. A whole head makes a response.
/// If it is a response to `HEAD`, which `head_only` says, or one with a
/// status below 200, 204 or 304, it is complete, and its body empty. The
/// body of any other begins with the bytes behind the head. Without a whole
/// head more bytes are awaited, unless `MAX_HEADERS_SIZE` bytes have come: a
/// head that long is too large.
pub open spec fn with_head(received: Seq<u8>, head_only: bool, found: HeadFound) -> Progress {
    match found {
        HeadFound::Failed(failure) => Progress::Failed(failure),
        HeadFound::Partial => if received.len() >= MAX_HEADERS_SIZE {
            Progress::Failed(Failure::HeadTooLarge)
        } else {
            Progress::Pending(Reading::Head { received, head_only })
        },
        HeadFound::Complete { response, len } => if head_only || response.status < 200
            || response.status == 204 || response.status == 304 {
            Progress::Complete(with_body(response, Seq::empty()))
        } else {
            framed(with_body(response, received.skip(len as int)))
        },
    }
}

/// What the bytes `received` lead to while the head is being read.
pub open spec fn after_head(received: Seq<u8>, head_only: bool) -> Progress {
    with_head(
        received,
        head_only,
        head_of_parser(parsed_response_head(received, MAX_NUM_HEADERS as nat)),
    )
}

/// `response` with `chunk` behind its body.
pub open spec fn with_more_body(response: ResponseData, chunk: Seq<u8>) -> ResponseData {
    ResponseData { body: response.body + chunk, ..response }
}

/// What the end of the stream means in `state`.
pub open spec fn at_end(state: Reading) -> Progress {
    match state {
        Reading::Head { received, head_only } => Progress::Failed(Failure::IncompleteResponse),
        Reading::Body { response, content_length } => match content_length {
            None => Progress::Complete(response),
            Some(_) => Progress::Failed(Failure::ContentLengthMismatch),
        },
    }
}

/// One step of reading: what `chunk`, the next piece of the stream, leads to
/// in `state`. An empty piece is the end of the stream.
pub open spec fn step(state: Reading, chunk: Seq<u8>) -> Progress {
    if chunk.len() == 0 {
        at_end(state)
    } else {
        match state {
            Reading::Head { received, head_only } => after_head(received + chunk, head_only),
            Reading::Body { response, content_length } => if content_length matches Some(n)
                && response.body.len() + chunk.len() > n {
                Progress::Failed(Failure::ContentLengthMismatch)
            } else if response.body.len() + chunk.len() > MAX_BODY_SIZE {
                Progress::Failed(Failure::ResponseBodyTooLarge)
            } else if content_length == Some((response.body.len() + chunk.len()) as nat) {
                Progress::Complete(with_more_body(response, chunk))
            } else {
                Progress::Pending(
                    Reading::Body { response: with_more_body(response, chunk), content_length },
                )
            },
        }
    }
}

/// Reads one response off a connection, piece by piece. The caller reads
/// from the connection, at most `want()` bytes at a time, and hands each
/// piece to `feed`.
pub struct ResponseReader {
    buffer: Vec<u8>,
    head_only: bool,
    response: Option<Response>,
    content_length: Option<usize>,
}

/// What `feed` returns.
pub enum ReadStep {
    /// More bytes are needed: go on with this reader.
    Pending(ResponseReader),
    /// The response is complete.
    Complete(Response),
    /// No response will come of this.
    Failed(Error),
}

/// A declared length as a number without bound.
pub open spec fn length_view(content_length: Option<usize>) -> Option<nat> {
    match content_length {
        Some(n) => Some(n as nat),
        None => None,
    }
}

impl View for ResponseReader {
    type V = Reading;

    closed spec fn view(&self) -> Reading {
        match self.response {
            None => Reading::Head { received: self.buffer@, head_only: self.head_only },
            Some(response) => Reading::Body {
                response: response@,
                content_length: length_view(self.content_length),
            },
        }
    }
}

impl View for ReadStep {
    type V = Progress;

    open spec fn view(&self) -> Progress {
        match self {
            ReadStep::Pending(reader) => Progress::Pending(reader@),
            ReadStep::Complete(response) => Progress::Complete(response@),
            ReadStep::Failed(error) => Progress::Failed(error@),
        }
    }
}

impl ResponseReader {
    #[verifier::type_invariant]
    spec fn well_formed(self) -> bool {
        valid(self@)
    }

    /// A reader that has seen nothing yet, for the response to a request
    /// with the method `request_method`.
    pub fn new(request_method: &[u8]) -> (reader: ResponseReader)
        ensures
            reader@ == start(request_method@),
    {
        ResponseReader {
            buffer: Vec::new(),
            head_only: is_head(request_method),
            response: None,
            content_length: None,
        }
    }

    /// The most bytes that the next piece may hold; never 0.
    pub fn want(&self) -> (n: usize)
        ensures
            n == wanted(self@),
            n > 0,
            valid(self@),
    {
        proof {
            use_type_invariant(self);
        }
        match &self.response {
            None => MAX_HEADERS_SIZE - self.buffer.len(),
            Some(_) => 512,
        }
    }

    /// Takes the next piece of the stream; an empty piece says that the
    /// stream has ended.
    pub fn feed(self, chunk: &[u8]) -> (r: ReadStep)
        requires
            chunk@.len() <= wanted(self@),
        ensures
            r@ == step(self@, chunk@),
            valid(self@),
            r matches ReadStep::Pending(reader) ==> valid(reader@),
    {
        proof {
            use_type_invariant(&self);
        }
        let ResponseReader { buffer, head_only, response, content_length } = self;
        match response {
            None => read_headers(buffer, head_only, chunk),
            Some(response) => read_body(response, content_length, chunk),
        }
    }
}

/// Decides what becomes of `response`, which may have a body, once its head
/// is read and its body holds the bytes that came with the head.
fn frame(response: Response) -> (r: ReadStep)
    requires
        response.body@.len() <= MAX_HEADERS_SIZE,
    ensures
        r@ == framed(response@),
        r matches ReadStep::Pending(reader) ==> valid(reader@),
{
    match content_length(&response.headers) {
        DeclaredLength::Invalid => ReadStep::Failed(Error::InvalidContentLength),
        DeclaredLength::Absent => ReadStep::Pending(
            ResponseReader {
                buffer: Vec::new(),
                head_only: false,
                response: Some(response),
                content_length: None,
            },
        ),
        DeclaredLength::Valid(n) => if response.body.len() > n {
            ReadStep::Failed(Error::ContentLengthMismatch)
        } else if response.body.len() == n {
            ReadStep::Complete(response)
        } else {
            ReadStep::Pending(
                ResponseReader {
                    buffer: Vec::new(),
                    head_only: false,
                    response: Some(response),
                    content_length: Some(n),
                },
            )
        },
    }
}

/// Goes on from the result `parsed` of looking for a head in `buffer`, the
/// bytes received, of the response to a `HEAD` request, if `head_only`, or
/// to another: the response is complete, more bytes are needed, or no
/// response will come of this.
pub fn after_parse(
    buffer: Vec<u8>,
    head_only: bool,
    parsed: Result<Option<(Response, usize)>, Error>,
) -> (r: ReadStep)
    requires
        buffer@.len() <= MAX_HEADERS_SIZE,
        parsed matches Ok(Some((_, len))) ==> len <= buffer@.len(),
    ensures
        r@ == with_head(buffer@, head_only, head_found(parsed)),
        r matches ReadStep::Pending(reader) ==> valid(reader@),
{
    match parsed {
        Err(error) => ReadStep::Failed(error),
        Ok(None) => if buffer.len() >= MAX_HEADERS_SIZE {
            ReadStep::Failed(Error::HeadTooLarge)
        } else {
            ReadStep::Pending(
                ResponseReader { buffer, head_only, response: None, content_length: None },
            )
        },
        Ok(Some((response, len))) => {
            let mut response = response;
            let ghost head = response@;
            response.body = Vec::new();
            if head_only || response.status < 200 || response.status == 204 || response.status
                == 304 {
                assert(response@ == with_body(head, Seq::empty()));
                ReadStep::Complete(response)
            } else {
                let rest = vstd::slice::slice_subrange(buffer.as_slice(), len, buffer.len());
                append_bytes(&mut response.body, rest);
                assert(response@ == with_body(head, buffer@.skip(len as int)));
                frame(response)
            }
        },
    }
}

/// Reads on at the head of a response: `buffer` holds what came before, and
/// `chunk` is the next piece of the stream. The head is complete as soon
/// as the parser finds all of it in what has come.
fn read_headers(buffer: Vec<u8>, head_only: bool, chunk: &[u8]) -> (r: ReadStep)
    requires
        buffer@.len() + chunk@.len() <= MAX_HEADERS_SIZE,
    ensures
        r@ == step(Reading::Head { received: buffer@, head_only }, chunk@),
        r matches ReadStep::Pending(reader) ==> valid(reader@),
{
    let mut buffer = buffer;
    if chunk.len() == 0 {
        return ReadStep::Failed(Error::IncompleteResponse);
    }
    append_bytes(&mut buffer, chunk);
    let parsed = parse_response(buffer.as_slice());
    after_parse(buffer, head_only, parsed)
}

/// Reads on at the body of `response`: `chunk` is the next piece of the
/// stream. With a declared length the body ends when it is that long;
/// without one it ends with the stream.
fn read_body(response: Response, content_length: Option<usize>, chunk: &[u8]) -> (r: ReadStep)
    requires
        valid(Reading::Body { response: response@, content_length: length_view(content_length) }),
        chunk@.len() <= 512,
    ensures
        r@ == step(
            Reading::Body { response: response@, content_length: length_view(content_length) },
            chunk@,
        ),
        r matches ReadStep::Pending(reader) ==> valid(reader@),
{
    let mut response = response;
    let ghost before = response@;
    if chunk.len() == 0 {
        return match content_length {
            None => ReadStep::Complete(response),
            Some(_) => ReadStep::Failed(Error::ContentLengthMismatch),
        };
    }
    match content_length {
        Some(n) => {
            if chunk.len() > n - response.body.len() {
                return ReadStep::Failed(Error::ContentLengthMismatch);
            }
        },
        None => {},
    }
    if response.body.len() + chunk.len() > MAX_BODY_SIZE {
        return ReadStep::Failed(Error::ResponseBodyTooLarge);
    }
    append_bytes(&mut response.body, chunk);
    assert(response@ == with_more_body(before, chunk@));
    let done: bool = match content_length {
        Some(n) => response.body.len() == n,
        None => false,
    };
    if done {
        ReadStep::Complete(response)
    } else {
        ReadStep::Pending(
            ResponseReader {
                buffer: Vec::new(),
                head_only: false,
                response: Some(response),
                content_length,
            },
        )
    }
}

/// The next piece of `stream` for a reader in `state`: as many bytes as the
/// reader wants, or all of the stream if that is less.
pub open spec fn piece_len(state: Reading, stream: Seq<u8>) -> int {
    if wanted(state) < stream.len() {
        wanted(state) as int
    } else {
        stream.len() as int
    }
}

/// What comes of reading `stream` to its end from `state`, when each read
/// brings as many bytes as the reader wants and the stream still has.
pub open spec fn read_all(state: Reading, stream: Seq<u8>) -> Result<ResponseData, Failure>
    decreases stream.len(),
{
    let n = piece_len(state, stream);
    match step(state, stream.take(n)) {
        Progress::Complete(response) => Ok(response),
        Progress::Failed(failure) => Err(failure),
        Progress::Pending(next) => if n > 0 {
            read_all(next, stream.skip(n))
        } else {
            Err(Failure::IncompleteResponse)
        },
    }
}

/// Reads the response to a request with the method `request_method` from
/// `stream`, which holds every byte that the server sends before it hangs
/// up.
pub fn read_from_stream(stream: &[u8], request_method: &[u8]) -> (r: Result<Response, Error>)
    ensures
        match r {
            Ok(response) => read_all(start(request_method@), stream@) == Ok::<
                ResponseData,
                Failure,
            >(response@),
            Err(error) => read_all(start(request_method@), stream@) == Err::<
                ResponseData,
                Failure,
            >(error@),
        },
{
    let mut reader = ResponseReader::new(request_method);
    let mut pos: usize = 0;
    assert(stream@.skip(0) == stream@);
    loop
        invariant
            pos <= stream@.len(),
            read_all(start(request_method@), stream@) == read_all(reader@, stream@.skip(pos as int)),
        decreases stream@.len() - pos,
    {
        let want: usize = reader.want();
        let left: usize = stream.len() - pos;
        let n: usize = if want < left {
            want
        } else {
            left
        };
        let chunk = vstd::slice::slice_subrange(stream, pos, pos + n);
        let ghost rest = stream@.skip(pos as int);
        assert(chunk@ == rest.take(n as int));
        assert(rest.skip(n as int) == stream@.skip(pos + n));
        match reader.feed(chunk) {
            ReadStep::Pending(next) => {
                reader = next;
                pos = pos + n;
            },
            ReadStep::Complete(response) => {
                return Ok(response);
            },
            ReadStep::Failed(error) => {
                return Err(error);
            },
        }
    }
}

/// The header name `Content-Type`.
pub open spec fn content_type_header() -> Seq<u8> {
    bytes("Content-Type")
}

/// The header value `text/plain`.
pub open spec fn text_plain() -> Seq<u8> {
    bytes("text/plain")
}

/// The header name `Content-Length`.
pub open spec fn content_length_header() -> Seq<u8> {
    bytes("Content-Length")
}

/// The body of the error response for `status` with the reason phrase
/// `reason`: `HTTP`, the status code and the phrase, with one space between
/// them.
pub open spec fn error_body_with(status: u16, reason: Seq<u8>) -> Seq<u8> {
    bytes("HTTP ") + decimal_digits(status as nat) + bytes(" ") + reason
}

/// The error response for `status` with the reason phrase `reason`: plain
/// text that names the status, with the headers `Content-Type` and
/// `Content-Length`.
pub open spec fn error_response_with(status: u16, reason: Seq<u8>) -> ResponseData {
    ResponseData {
        version: Version::Http11,
        status,
        reason,
        headers: seq![
            HeaderLine { name: content_type_header(), value: text_plain() },
            HeaderLine {
                name: content_length_header(),
                value: decimal_digits(error_body_with(status, reason).len()),
            },
        ],
        body: error_body_with(status, reason),
    }
}

/// The body of the error response for `status`.
pub open spec fn error_body(status: u16) -> Seq<u8> {
    error_body_with(status, reason_text(status))
}

/// The error response for `status`, with the standard reason phrase of
/// the status.
pub open spec fn error_response(status: u16) -> ResponseData {
    error_response_with(status, reason_text(status))
}

/// Makes the response that tells a client of the error `status`, given the
/// reason phrase that goes with the status.
pub fn make_http_error_with(status: u16, reason: &[u8]) -> (response: Response)
    ensures
        response@ == error_response_with(status, reason@),
        declared_length(response@.headers) == DeclaredLength::Valid(response.body@.len() as usize),
{
    let mut body: Vec<u8> = Vec::new();
    append_text(&mut body, "HTTP ");
    let digits = format_decimal(status as usize);
    append_bytes(&mut body, digits.as_slice());
    append_text(&mut body, " ");
    append_bytes(&mut body, reason);
    assert(body@ == error_body_with(status, reason@));
    proof {
        lemma_error_response_framed(status, reason@);
    }
    let length = format_decimal(body.len());
    let mut headers: Vec<Header> = Vec::new();
    headers.push(Header::new("Content-Type".as_bytes(), "text/plain".as_bytes()));
    headers.push(Header::new("Content-Length".as_bytes(), length.as_slice()));
    assert(header_lines(headers@) == error_response_with(status, reason@).headers);
    Response { version: Version::Http11, status, reason: copy_bytes(reason), headers, body }
}

/// Makes the response that tells a client of the error `status`.
pub fn make_http_error(status: u16) -> (response: Response)
    ensures
        response@ == error_response(status),
        declared_length(response@.headers) == DeclaredLength::Valid(response.body@.len() as usize),
{
    let reason = reason_phrase(status);
    make_http_error_with(status, reason.as_slice())
}

/// An error response declares the length of its own body.
pub proof fn lemma_error_response_framed(status: u16, reason: Seq<u8>)
    ensures
        error_body_with(status, reason).len() <= usize::MAX ==> declared_length(
            error_response_with(status, reason).headers,
        ) == DeclaredLength::Valid(error_body_with(status, reason).len() as usize),
{
    let lines = error_response_with(status, reason).headers;
    let name = content_length_name();
    reveal_strlit("Content-Type");
    reveal_strlit("Content-Length");
    reveal_strlit("content-length");
    assert("Content-Type".is_ascii() && "Content-Length".is_ascii() && "content-length".is_ascii());
    assert(content_type_header().len() == 12);
    assert(name.len() == 14);
    assert(!same_name(lines[0].name, name));
    assert(same_name(lines[1].name, name)) by {
        assert(lines[1].name == content_length_header());
        assert forall|i: int| 0 <= i < 14 implies lower(#[trigger] content_length_header()[i])
            == lower(name[i]) by {
            assert(content_length_header()[i] == name[i] || (i == 0 || i == 8));
        }
    }
    assert(is_first_header(lines, name, 1));
    lemma_first_header(lines, name, 1);
    if error_body_with(status, reason).len() <= usize::MAX {
        lemma_parse_format(error_body_with(status, reason).len() as usize);
    }
}

/// While the body is read, status, reason and headers stay as they are.
pub proof fn lemma_body_keeps_head(response: ResponseData, content_length: Option<nat>, rest: Seq<
    u8,
>)
    ensures
        read_all(Reading::Body { response, content_length }, rest) matches Ok(read) ==> read.status
            == response.status && read.reason == response.reason && read.headers
            == response.headers && read.version == response.version,
    decreases rest.len(),
{
    let state = Reading::Body { response, content_length };
    let n = piece_len(state, rest);
    match step(state, rest.take(n)) {
        Progress::Pending(next) => {
            if n > 0 {
                lemma_body_keeps_head(with_more_body(response, rest.take(n)), content_length, rest.skip(n));
            }
        },
        _ => {},
    }
}

/// A response to a `HEAD` request, or with a status below 200, 204 or 304,
/// is read with an empty body, whatever its headers declare and whatever
/// follows its head.
pub proof fn lemma_bodiless_response(request_method: Seq<u8>, stream: Seq<u8>)
    ensures
        read_all(start(request_method), stream) matches Ok(response) ==> (bodiless(
            request_method,
            response.status,
        ) ==> response.body.len() == 0),
{
    let state = start(request_method);
    let n = piece_len(state, stream);
    let piece = stream.take(n);
    assert(Seq::<u8>::empty() + piece == piece);
    if n > 0 {
        match parsed_response_head(piece, MAX_NUM_HEADERS as nat) {
            ParsedResponse::Complete { status, headers, len } => {
                if !bodiless(request_method, status) {
                    let first = ResponseData {
                        body: piece.skip(len as int),
                        ..response_of_head(status, headers)
                    };
                    match framed(first) {
                        Progress::Pending(next) => {
                            lemma_body_keeps_head(first, next->content_length, stream.skip(n));
                        },
                        _ => {},
                    }
                }
            },
            ParsedResponse::Partial => {
                if piece.len() < MAX_HEADERS_SIZE {
                    let next = Reading::Head {
                        received: piece,
                        head_only: request_method == head_method(),
                    };
                    assert(stream.skip(n).len() == 0);
                    assert(read_all(next, stream.skip(n)) is Err);
                }
            },
            _ => {},
        }
    }
}

/// The body of a response to a request with the method `request_method` is
/// as long as it has to be: empty where such a response carries no body,
/// and else as long as `Content-Length` says, if it says so.
pub open spec fn well_framed(request_method: Seq<u8>, response: ResponseData) -> bool {
    if bodiless(request_method, response.status) {
        response.body.len() == 0
    } else {
        match declared_length(response.headers) {
            DeclaredLength::Valid(n) => response.body.len() == n,
            DeclaredLength::Absent => true,
            DeclaredLength::Invalid => false,
        }
    }
}

/// A body that is read to its end is as long as the length that the reader
/// goes by, if it goes by one.
pub proof fn lemma_body_is_framed(response: ResponseData, content_length: Option<nat>, rest: Seq<u8>)
    ensures
        read_all(Reading::Body { response, content_length }, rest) matches Ok(read) ==> (
        content_length matches Some(n) ==> read.body.len() == n),
    decreases rest.len(),
{
    let state = Reading::Body { response, content_length };
    let n = piece_len(state, rest);
    match step(state, rest.take(n)) {
        Progress::Pending(next) => {
            if n > 0 {
                lemma_body_is_framed(with_more_body(response, rest.take(n)), content_length, rest.skip(n));
            }
        },
        _ => {},
    }
}

/// Whatever is read is framed as it has to be: a response that carries
/// no body has none, and any other has a body as long as its
/// `Content-Length` says, if it has that header.
pub proof fn lemma_read_is_framed(request_method: Seq<u8>, stream: Seq<u8>)
    ensures
        read_all(start(request_method), stream) matches Ok(response) ==> well_framed(
            request_method,
            response,
        ),
{
    lemma_bodiless_response(request_method, stream);
    let state = start(request_method);
    let n = piece_len(state, stream);
    let piece = stream.take(n);
    assert(Seq::<u8>::empty() + piece == piece);
    if n > 0 {
        match parsed_response_head(piece, MAX_NUM_HEADERS as nat) {
            ParsedResponse::Complete { status, headers, len } => {
                if !bodiless(request_method, status) {
                    let first = ResponseData {
                        body: piece.skip(len as int),
                        ..response_of_head(status, headers)
                    };
                    match framed(first) {
                        Progress::Pending(next) => {
                            lemma_body_keeps_head(first, next->content_length, stream.skip(n));
                            lemma_body_is_framed(first, next->content_length, stream.skip(n));
                        },
                        _ => {},
                    }
                }
            },
            ParsedResponse::Partial => {
                if piece.len() < MAX_HEADERS_SIZE {
                    let next = Reading::Head {
                        received: piece,
                        head_only: request_method == head_method(),
                    };
                    assert(stream.skip(n).len() == 0);
                    assert(read_all(next, stream.skip(n)) is Err);
                }
            },
            _ => {},
        }
    }
}

/// Without a declared length the body is all that the stream holds, where
/// that is within the limit on bodies, and `ResponseBodyTooLarge` where it
/// is not.
pub proof fn lemma_body_to_close(response: ResponseData, rest: Seq<u8>)
    requires
        valid(Reading::Body { response, content_length: None }),
    ensures
        read_all(Reading::Body { response, content_length: None }, rest) == (if response.body.len()
            + rest.len() <= MAX_BODY_SIZE {
            Ok::<ResponseData, Failure>(with_more_body(response, rest))
        } else {
            Err::<ResponseData, Failure>(Failure::ResponseBodyTooLarge)
        }),
    decreases rest.len(),
{
    let state = Reading::Body { response, content_length: None };
    let n = piece_len(state, rest);
    let piece = rest.take(n);
    if n == 0 {
        assert(response.body + rest == response.body);
    } else if response.body.len() + n <= MAX_BODY_SIZE {
        let more = with_more_body(response, piece);
        lemma_body_to_close(more, rest.skip(n));
        assert(with_more_body(more, rest.skip(n)).body == response.body + rest) by {
            assert(piece + rest.skip(n) == rest);
            assert((response.body + piece) + rest.skip(n) == response.body + (piece + rest.skip(n)));
        }
    }
}

/// With a declared length within the limit, a body that the stream holds
/// to its last byte, and no further, is read.
pub proof fn lemma_body_exact(response: ResponseData, content_length: nat, rest: Seq<u8>)
    requires
        valid(Reading::Body { response, content_length: Some(content_length) }),
        response.body.len() + rest.len() == content_length,
        content_length <= MAX_BODY_SIZE,
    ensures
        read_all(Reading::Body { response, content_length: Some(content_length) }, rest) == Ok::<
            ResponseData,
            Failure,
        >(with_more_body(response, rest)),
    decreases rest.len(),
{
    let state = Reading::Body { response, content_length: Some(content_length) };
    let n = piece_len(state, rest);
    let piece = rest.take(n);
    if n == rest.len() {
        assert(piece == rest);
    } else {
        let more = with_more_body(response, piece);
        lemma_body_exact(more, content_length, rest.skip(n));
        assert(with_more_body(more, rest.skip(n)).body == response.body + rest) by {
            assert(piece + rest.skip(n) == rest);
            assert((response.body + piece) + rest.skip(n) == response.body + (piece + rest.skip(n)));
        }
    }
}

/// A stream that ends before the body is as long as declared, and within
/// the limit, gives `ContentLengthMismatch`.
pub proof fn lemma_body_short(response: ResponseData, content_length: nat, rest: Seq<u8>)
    requires
        valid(Reading::Body { response, content_length: Some(content_length) }),
        response.body.len() + rest.len() < content_length,
        response.body.len() + rest.len() <= MAX_BODY_SIZE,
    ensures
        read_all(Reading::Body { response, content_length: Some(content_length) }, rest) == Err::<
            ResponseData,
            Failure,
        >(Failure::ContentLengthMismatch),
    decreases rest.len(),
{
    let state = Reading::Body { response, content_length: Some(content_length) };
    if rest.len() > 0 {
        let n = piece_len(state, rest);
        let piece = rest.take(n);
        lemma_body_short(with_more_body(response, piece), content_length, rest.skip(n));
    }
}

/// A head that is not whole after `MAX_HEADERS_SIZE` bytes is too large:
/// the result is `HeadTooLarge`, whatever follows. It is not taken for a
/// response that was cut short, and nothing of it is accepted.
pub proof fn lemma_long_head_is_too_large(request_method: Seq<u8>, stream: Seq<u8>)
    requires
        stream.len() >= MAX_HEADERS_SIZE,
        parsed_response_head(stream.take(MAX_HEADERS_SIZE as int), MAX_NUM_HEADERS as nat)
            is Partial,
    ensures
        read_all(start(request_method), stream) == Err::<ResponseData, Failure>(
            Failure::HeadTooLarge,
        ),
{
    let piece = stream.take(MAX_HEADERS_SIZE as int);
    assert(Seq::<u8>::empty() + piece == piece);
}

/// A server that hangs up in the middle of a head that is still within the
/// limit gives `IncompleteResponse`.
pub proof fn lemma_cut_short_head_is_incomplete(request_method: Seq<u8>, stream: Seq<u8>)
    requires
        stream.len() < MAX_HEADERS_SIZE,
        stream.len() == 0 || parsed_response_head(stream, MAX_NUM_HEADERS as nat) is Partial,
    ensures
        read_all(start(request_method), stream) == Err::<ResponseData, Failure>(
            Failure::IncompleteResponse,
        ),
{
    if stream.len() > 0 {
        let piece = stream.take(stream.len() as int);
        assert(piece == stream);
        assert(Seq::<u8>::empty() + piece == piece);
        let next = Reading::Head { received: stream, head_only: request_method == head_method() };
        assert(stream.skip(stream.len() as int).len() == 0);
        assert(read_all(next, stream.skip(stream.len() as int)) == Err::<ResponseData, Failure>(
            Failure::IncompleteResponse,
        ));
    }
}

/// More header lines than `MAX_NUM_HEADERS` give `TooManyHeaders`, which
/// is neither `MalformedResponse` nor `HeadTooLarge`.
pub proof fn lemma_too_many_headers(request_method: Seq<u8>, stream: Seq<u8>)
    requires
        stream.len() > 0,
        parsed_response_head(
            stream.take(piece_len(start(request_method), stream)),
            MAX_NUM_HEADERS as nat,
        ) is TooManyHeaders,
    ensures
        read_all(start(request_method), stream) == Err::<ResponseData, Failure>(
            Failure::TooManyHeaders,
        ),
{
    let piece = stream.take(piece_len(start(request_method), stream));
    assert(Seq::<u8>::empty() + piece == piece);
}

} // verus!
