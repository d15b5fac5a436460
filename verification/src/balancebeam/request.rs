//! Requests: their data, their byte form, and how one is read off a stream
//! that hands over its bytes piece by piece.

use crate::balancebeam::head::{
    HeadParse, ParsedRequest, RequestHead, httparse_request, parsed_request_head,
};
use crate::balancebeam::message::{
    DeclaredLength, Header, HeaderLine, MAX_BODY_SIZE, MAX_HEADERS_SIZE, MAX_NUM_HEADERS, Version,
    append_bytes, append_text, bytes, content_length, crlf, declared_length, find_header,
    has_header, header_block, header_lines, header_position, header_value, lemma_first_header,
    lemma_has_first_header, lemma_header_lines_push, names_match, same_name, version_bytes,
    write_headers, write_version,
};
use vstd::prelude::*;

verus! {

/// Why no request could be read.
#[derive(Debug, PartialEq)]
pub enum Error {
    /// The client hung up before it had sent a whole request; the number
    /// tells how many bytes had come. With 0 the client was simply done.
    IncompleteRequest(usize),
    /// Request line and headers take more than `MAX_HEADERS_SIZE` bytes.
    HeadTooLarge,
    /// The request has more than `MAX_NUM_HEADERS` header lines.
    TooManyHeaders,
    /// What came is no HTTP request.
    MalformedRequest(httparse::Error),
    /// The `Content-Length` header holds no number.
    InvalidContentLength,
    /// The body that came is not as long as `Content-Length` says.
    ContentLengthMismatch,
    /// `Content-Length` is more than `MAX_BODY_SIZE`.
    RequestBodyTooLarge,
    /// Reading from the connection failed; the text says how.
    ConnectionError(String),
}

/// An `Error` without what the verifier cannot look into.
pub ghost enum Failure {
    IncompleteRequest(nat),
    HeadTooLarge,
    TooManyHeaders,
    MalformedRequest,
    InvalidContentLength,
    ContentLengthMismatch,
    RequestBodyTooLarge,
    ConnectionError,
}

impl View for Error {
    type V = Failure;

    open spec fn view(&self) -> Failure {
        match self {
            Error::IncompleteRequest(n) => Failure::IncompleteRequest(*n as nat),
            Error::HeadTooLarge => Failure::HeadTooLarge,
            Error::TooManyHeaders => Failure::TooManyHeaders,
            Error::MalformedRequest(_) => Failure::MalformedRequest,
            Error::InvalidContentLength => Failure::InvalidContentLength,
            Error::ContentLengthMismatch => Failure::ContentLengthMismatch,
            Error::RequestBodyTooLarge => Failure::RequestBodyTooLarge,
            Error::ConnectionError(_) => Failure::ConnectionError,
        }
    }
}

/// An HTTP request. Method, target and header lines are kept as they came.
#[derive(Debug, PartialEq, Eq)]
pub struct Request {
    pub method: Vec<u8>,
    pub target: Vec<u8>,
    pub version: Version,
    pub headers: Vec<Header>,
    pub body: Vec<u8>,
}

/// A request as mathematical data.
pub ghost struct RequestData {
    pub method: Seq<u8>,
    pub target: Seq<u8>,
    pub version: Version,
    pub headers: Seq<HeaderLine>,
    pub body: Seq<u8>,
}

impl View for Request {
    type V = RequestData;

    open spec fn view(&self) -> RequestData {
        RequestData {
            method: self.method@,
            target: self.target@,
            version: self.version,
            headers: header_lines(self.headers@),
            body: self.body@,
        }
    }
}

/// The body is as long as the headers declare: as long as `Content-Length`
/// says, or empty where there is no such header.
pub open spec fn well_framed(request: RequestData) -> bool {
    match declared_length(request.headers) {
        DeclaredLength::Valid(n) => request.body.len() == n,
        DeclaredLength::Absent => request.body.len() == 0,
        DeclaredLength::Invalid => false,
    }
}

/// The request line without its line end: method, target and version with
/// one space between them.
pub open spec fn request_line(request: RequestData) -> Seq<u8> {
    request.method + bytes(" ") + request.target + bytes(" ") + version_bytes(request.version)
}

/// The head of a request on the wire: request line, header lines, empty
/// line.
pub open spec fn request_head_bytes(request: RequestData) -> Seq<u8> {
    request_line(request) + crlf() + header_block(request.headers) + crlf()
}

/// A request on the wire: its head, then its body.
pub open spec fn request_bytes(request: RequestData) -> Seq<u8> {
    request_head_bytes(request) + request.body
}

/// The request line of `request`, such as `GET /index.html HTTP/1.1`.
pub fn format_request_line(request: &Request) -> (line: Vec<u8>)
    ensures
        line@ == request_line(request@),
{
    let mut line: Vec<u8> = Vec::new();
    append_bytes(&mut line, request.method.as_slice());
    append_text(&mut line, " ");
    append_bytes(&mut line, request.target.as_slice());
    append_text(&mut line, " ");
    write_version(request.version, &mut line);
    assert(line@ == request_line(request@));
    line
}

/// Writes `request` to `stream`: request line, headers in their order, an
/// empty line, then the body, each byte once.
pub fn write_to_stream(request: &Request, stream: &mut Vec<u8>)
    ensures
        final(stream)@ == old(stream)@ + request_bytes(request@),
{
    let ghost before = stream@;
    let line = format_request_line(request);
    append_bytes(stream, line.as_slice());
    append_text(stream, "\r\n");
    write_headers(&request.headers, stream);
    append_text(stream, "\r\n");
    assert(stream@ == before + request_head_bytes(request@));
    append_bytes(stream, request.body.as_slice());
    assert(stream@ == before + request_bytes(request@));
}

/// The body length that `request` declares: `Ok(None)` without a
/// `Content-Length` header, `Ok(Some(n))` where the first one holds the
/// number `n`, and `InvalidContentLength` where it holds none.
pub fn get_content_length(request: &Request) -> (r: Result<Option<usize>, Error>)
    ensures
        match declared_length(request@.headers) {
            DeclaredLength::Absent => r == Ok::<Option<usize>, Error>(None),
            DeclaredLength::Valid(n) => r == Ok::<Option<usize>, Error>(Some(n)),
            DeclaredLength::Invalid => r == Err::<Option<usize>, Error>(Error::InvalidContentLength),
        },
{
    match content_length(&request.headers) {
        DeclaredLength::Absent => Ok(None),
        DeclaredLength::Valid(n) => Ok(Some(n)),
        DeclaredLength::Invalid => Err(Error::InvalidContentLength),
    }
}

/// `lines` without those that carry the name `name`.
pub open spec fn without_name(lines: Seq<HeaderLine>, name: Seq<u8>) -> Seq<HeaderLine>
    decreases lines.len(),
{
    if lines.len() == 0 {
        Seq::empty()
    } else if same_name(lines.last().name, name) {
        without_name(lines.drop_last(), name)
    } else {
        without_name(lines.drop_last(), name).push(lines.last())
    }
}

/// The separator of list items in a header value: comma and space.
pub open spec fn list_separator() -> Seq<u8> {
    bytes(", ")
}

/// `lines` after `value` was appended to the header `name`. Without such a
/// header a new last line holds `value`. Otherwise the first line of that
/// name keeps its place and its name and gets `value` behind a comma and a
/// space, and later lines of that name are gone.
pub open spec fn extended_headers(lines: Seq<HeaderLine>, name: Seq<u8>, value: Seq<u8>) -> Seq<
    HeaderLine,
> {
    match header_position(lines, name) {
        None => lines.push(HeaderLine { name, value }),
        Some(i) => lines.take(i).push(
            HeaderLine { name: lines[i].name, value: lines[i].value + list_separator() + value },
        ) + without_name(lines.skip(i + 1), name),
    }
}

/// Appends `extend_value` to the header `name` of `request`, or gives the
/// request that header if it has none. Used to add the client's address to
/// `X-Forwarded-For`.
pub fn extend_header_value(request: &mut Request, name: &[u8], extend_value: &[u8])
    ensures
        final(request)@.headers == extended_headers(old(request)@.headers, name@, extend_value@),
        header_value(final(request)@.headers, name@) == Some(
            match header_value(old(request)@.headers, name@) {
                Some(before) => before + list_separator() + extend_value@,
                None => extend_value@,
            },
        ),
        final(request)@.method == old(request)@.method,
        final(request)@.target == old(request)@.target,
        final(request)@.version == old(request)@.version,
        final(request)@.body == old(request)@.body,
{
    let ghost lines = request@.headers;
    proof {
        lemma_extended_value(lines, name@, extend_value@);
    }
    match find_header(&request.headers, name) {
        None => {
            request.headers.push(Header::new(name, extend_value));
            assert(request@.headers =~= lines.push(HeaderLine { name: name@, value: extend_value@ }));
        },
        Some(i) => {
            let count: usize = request.headers.len();
            let mut out: Vec<Header> = Vec::new();
            let mut j: usize = 0;
            assert(header_lines(out@) =~= lines.take(0));
            while j < i
                invariant
                    j <= i < count,
                    count == request.headers@.len(),
                    lines == header_lines(request.headers@),
                    header_lines(out@) == lines.take(j as int),
                decreases i - j,
            {
                let line = request.headers[j].duplicate();
                proof {
                    lemma_header_lines_push(out@, line);
                    assert(lines.take(j + 1) =~= lines.take(j as int).push(lines[j as int]));
                }
                out.push(line);
                j += 1;
            }
            let mut value: Vec<u8> = Vec::new();
            append_bytes(&mut value, request.headers[i].value.as_slice());
            append_text(&mut value, ", ");
            append_bytes(&mut value, extend_value);
            assert(value@ == lines[i as int].value + list_separator() + extend_value@);
            let line = Header::new(request.headers[i].name.as_slice(), value.as_slice());
            let ghost front = lines.take(i as int).push(
                HeaderLine { name: lines[i as int].name, value: value@ },
            );
            proof {
                lemma_header_lines_push(out@, line);
                assert(line@ == HeaderLine { name: lines[i as int].name, value: value@ });
            }
            out.push(line);
            assert(header_lines(out@) == front);
            j = i + 1;
            let ghost rest = lines.skip(i + 1);
            assert(rest.take(0) =~= Seq::<HeaderLine>::empty());
            assert(front + without_name(rest.take(0), name@) =~= front);
            while j < count
                invariant
                    i < j <= count,
                    count == request.headers@.len(),
                    lines == header_lines(request.headers@),
                    rest == lines.skip(i + 1),
                    header_lines(out@) == front + without_name(rest.take(j - i - 1), name@),
                decreases request.headers@.len() - j,
            {
                let ghost seen = rest.take(j - i - 1);
                let ghost next = rest.take(j - i);
                assert(next.drop_last() == seen);
                assert(next.last() == lines[j as int]);
                assert(lines[j as int] == request.headers@[j as int]@);
                if !names_match(request.headers[j].name.as_slice(), name) {
                    let line = request.headers[j].duplicate();
                    proof {
                        lemma_header_lines_push(out@, line);
                        assert(front + without_name(next, name@) =~= (front + without_name(
                            seen,
                            name@,
                        )).push(line@));
                    }
                    out.push(line);
                }
                j += 1;
            }
            assert(rest.take(j - i - 1) == rest);
            request.headers = out;
        },
    }
}

/// After `value` was appended to the header `name`, the header holds what
/// it held before, then a comma and a space, then `value`; or just `value`
/// where there was no such header.
pub proof fn lemma_extended_value(lines: Seq<HeaderLine>, name: Seq<u8>, value: Seq<u8>)
    ensures
        header_value(extended_headers(lines, name, value), name) == Some(
            match header_value(lines, name) {
                Some(before) => before + list_separator() + value,
                None => value,
            },
        ),
{
    let extended = extended_headers(lines, name, value);
    if has_header(lines, name) {
        let i = lemma_has_first_header(lines, name);
        assert(extended[i].name == lines[i].name);
        assert forall|j: int| 0 <= j < i implies !same_name(#[trigger] extended[j].name, name) by {
            assert(extended[j] == lines[j]);
        }
        lemma_first_header(extended, name, i);
    } else {
        let i = lines.len() as int;
        assert(same_name(name, name));
        assert forall|j: int| 0 <= j < i implies !same_name(#[trigger] extended[j].name, name) by {
            assert(extended[j] == lines[j]);
        }
        lemma_first_header(extended, name, i);
    }
}

/// The request that a complete head stands for: HTTP/1.1, body still empty.
pub open spec fn request_of_head(
    method: Seq<u8>,
    target: Seq<u8>,
    headers: Seq<HeaderLine>,
) -> RequestData {
    RequestData { method, target, version: Version::Http11, headers, body: Seq::empty() }
}

/// Turns what the parser returned into a request without its body, together
/// with the length of its head; `Ok(None)` where the parser wants more
/// bytes, `TooManyHeaders` where it ran out of room for header lines, and
/// `MalformedRequest` with the parser's error where it gave up otherwise.
pub fn request_from_parse(parsed: HeadParse<RequestHead>) -> (r: Result<
    Option<(Request, usize)>,
    Error,
>)
    ensures
        match parsed {
            HeadParse::Complete(head) => r matches Ok(Some((request, len))) && len == head.len
                && request@ == request_of_head(
                head.method@,
                head.target@,
                header_lines(head.headers@),
            ),
            HeadParse::Partial => r matches Ok(None),
            HeadParse::TooManyHeaders => r == Err::<Option<(Request, usize)>, Error>(
                Error::TooManyHeaders,
            ),
            HeadParse::Malformed(error) => r == Err::<Option<(Request, usize)>, Error>(
                Error::MalformedRequest(error),
            ),
        },
{
    match parsed {
        HeadParse::Complete(head) => {
            let request = Request {
                method: head.method,
                target: head.target,
                version: Version::Http11,
                headers: head.headers,
                body: Vec::new(),
            };
            Ok(Some((request, head.len)))
        },
        HeadParse::Partial => Ok(None),
        HeadParse::TooManyHeaders => Err(Error::TooManyHeaders),
        HeadParse::Malformed(error) => Err(Error::MalformedRequest(error)),
    }
}

/// What came of looking for the head of a request in the bytes received.
pub ghost enum HeadFound {
    /// A whole head of `len` bytes, which makes `request`.
    Complete { request: RequestData, len: nat },
    /// What may be the beginning of a head.
    Partial,
    /// No request.
    Failed(Failure),
}

/// What `parsed`, the result of looking for a head, says.
pub open spec fn head_found(parsed: Result<Option<(Request, usize)>, Error>) -> HeadFound {
    match parsed {
        Ok(Some((request, len))) => HeadFound::Complete { request: request@, len: len as nat },
        Ok(None) => HeadFound::Partial,
        Err(error) => HeadFound::Failed(error@),
    }
}

/// What the outcome `parsed` of the parser says.
pub open spec fn head_of_parser(parsed: ParsedRequest) -> HeadFound {
    match parsed {
        ParsedRequest::Complete { method, target, headers, len } => HeadFound::Complete {
            request: request_of_head(method, target, headers),
            len,
        },
        ParsedRequest::Partial => HeadFound::Partial,
        ParsedRequest::TooManyHeaders => HeadFound::Failed(Failure::TooManyHeaders),
        ParsedRequest::Malformed => HeadFound::Failed(Failure::MalformedRequest),
    }
}

/// Looks for the head of a request at the start of `buffer`.
///
/// * `Ok(Some((request, len)))`: the first `len` bytes are a whole head;
///   `request` holds its method, target and headers, and no body yet.
/// * `Ok(None)`: the buffer may be the beginning of a head.
/// * `Err(TooManyHeaders)`: there are more than `MAX_NUM_HEADERS` header
///   lines.
/// * `Err(MalformedRequest(..))`: no request starts like this.
pub fn parse_request(buffer: &[u8]) -> (r: Result<Option<(Request, usize)>, Error>)
    ensures
        match parsed_request_head(buffer@, MAX_NUM_HEADERS as nat) {
            ParsedRequest::Complete { method, target, headers, len } => {
                &&& r matches Ok(Some((request, n)))
                &&& request@ == request_of_head(method, target, headers)
                &&& n == len
                &&& n <= buffer@.len()
                &&& headers.len() <= MAX_NUM_HEADERS
            },
            ParsedRequest::Partial => r matches Ok(None),
            ParsedRequest::TooManyHeaders => r == Err::<Option<(Request, usize)>, Error>(
                Error::TooManyHeaders,
            ),
            ParsedRequest::Malformed => r matches Err(e) && e@ == Failure::MalformedRequest,
        },
        head_found(r) == head_of_parser(parsed_request_head(buffer@, MAX_NUM_HEADERS as nat)),
{
    request_from_parse(httparse_request(buffer, MAX_NUM_HEADERS))
}

/// How far the reading of one request has come.
pub ghost enum Reading {
    /// The head is not complete; `received` holds the bytes that came.
    Head { received: Seq<u8> },
    /// The head is read and the body is shorter than `content_length`.
    Body { request: RequestData, content_length: nat },
}

/// What a piece of the stream leads to.
pub ghost enum Progress {
    /// More bytes are needed.
    Pending(Reading),
    /// The request is complete.
    Complete(RequestData),
    /// No request will come of this.
    Failed(Failure),
}

/// The reading that has seen nothing yet.
pub open spec fn start() -> Reading {
    Reading::Head { received: Seq::empty() }
}

/// States that `read_headers` and `read_body` leave behind: a head that still
/// has room to grow, or a body that is short of the length its headers
/// declare, which is within the limit.
pub open spec fn valid(state: Reading) -> bool {
    match state {
        Reading::Head { received } => received.len() < MAX_HEADERS_SIZE,
        Reading::Body { request, content_length } => {
            &&& request.body.len() < content_length <= MAX_BODY_SIZE
            &&& declared_length(request.headers) == DeclaredLength::Valid(content_length as usize)
        },
    }
}

/// The most bytes that the next piece may hold: the room left for the head,
/// or 512 for the body, less where the whole body is shorter.
pub open spec fn wanted(state: Reading) -> nat {
    match state {
        Reading::Head { received } => (MAX_HEADERS_SIZE - received.len()) as nat,
        Reading::Body { request, content_length } => if content_length < 512 {
            content_length
        } else {
            512
        },
    }
}

/// What becomes of a request whose head is read and whose body holds the
/// bytes that came with the head.
pub open spec fn framed(request: RequestData) -> Progress {
    match declared_length(request.headers) {
        DeclaredLength::Invalid => Progress::Failed(Failure::InvalidContentLength),
        DeclaredLength::Absent => if request.body.len() == 0 {
            Progress::Complete(request)
        } else {
            Progress::Failed(Failure::ContentLengthMismatch)
        },
        DeclaredLength::Valid(n) => if n > MAX_BODY_SIZE {
            Progress::Failed(Failure::RequestBodyTooLarge)
        } else if request.body.len() > n {
            Progress::Failed(Failure::ContentLengthMismatch)
        } else if request.body.len() == n {
            Progress::Complete(request)
        } else {
            Progress::Pending(Reading::Body { request, content_length: n as nat })
        },
    }
}

/// `request` with `chunk` behind its body.
pub open spec fn with_more_body(request: RequestData, chunk: Seq<u8>) -> RequestData {
    RequestData { body: request.body + chunk, ..request }
}

/// What the bytes `received` lead to while the head is being read, when
/// looking for a head in them gave `found`. A whole head makes a request
/// whose body begins with the bytes behind the head. Without a whole head
/// more bytes are awaited, unless `MAX_HEADERS_SIZE` bytes have come: a head
/// that long is too large.
pub open spec fn with_head(received: Seq<u8>, found: HeadFound) -> Progress {
    match found {
        HeadFound::Failed(failure) => Progress::Failed(failure),
        HeadFound::Partial => if received.len() >= MAX_HEADERS_SIZE {
            Progress::Failed(Failure::HeadTooLarge)
        } else {
            Progress::Pending(Reading::Head { received })
        },
        HeadFound::Complete { request, len } => framed(
            with_more_body(request, received.skip(len as int)),
        ),
    }
}

/// What the bytes `received` lead to while the head is being read.
pub open spec fn after_head(received: Seq<u8>) -> Progress {
    with_head(received, head_of_parser(parsed_request_head(received, MAX_NUM_HEADERS as nat)))
}

/// What the end of the stream means in `state`.
pub open spec fn at_end(state: Reading) -> Failure {
    match state {
        Reading::Head { received } => Failure::IncompleteRequest(received.len()),
        Reading::Body { request, content_length } => Failure::ContentLengthMismatch,
    }
}

/// One step of reading: what `chunk`, the next piece of the stream, leads to
/// in `state`. An empty piece is the end of the stream.
pub open spec fn step(state: Reading, chunk: Seq<u8>) -> Progress {
    if chunk.len() == 0 {
        Progress::Failed(at_end(state))
    } else {
        match state {
            Reading::Head { received } => after_head(received + chunk),
            Reading::Body { request, content_length } => if request.body.len() + chunk.len()
                > content_length {
                Progress::Failed(Failure::ContentLengthMismatch)
            } else if request.body.len() + chunk.len() == content_length {
                Progress::Complete(with_more_body(request, chunk))
            } else {
                Progress::Pending(
                    Reading::Body { request: with_more_body(request, chunk), content_length },
                )
            },
        }
    }
}

/// Reads one request off a connection, piece by piece. The caller reads
/// from the connection, at most `want()` bytes at a time, and hands each
/// piece to `feed`.
pub struct RequestReader {
    buffer: Vec<u8>,
    request: Option<Request>,
    content_length: usize,
}

/// What `feed` returns.
pub enum ReadStep {
    /// More bytes are needed: go on with this reader.
    Pending(RequestReader),
    /// The request is complete.
    Complete(Request),
    /// No request will come of this.
    Failed(Error),
}

impl View for RequestReader {
    type V = Reading;

    closed spec fn view(&self) -> Reading {
        match self.request {
            None => Reading::Head { received: self.buffer@ },
            Some(request) => Reading::Body {
                request: request@,
                content_length: self.content_length as nat,
            },
        }
    }
}

impl View for ReadStep {
    type V = Progress;

    open spec fn view(&self) -> Progress {
        match self {
            ReadStep::Pending(reader) => Progress::Pending(reader@),
            ReadStep::Complete(request) => Progress::Complete(request@),
            ReadStep::Failed(error) => Progress::Failed(error@),
        }
    }
}

impl RequestReader {
    #[verifier::type_invariant]
    spec fn well_formed(self) -> bool {
        valid(self@)
    }

    /// A reader that has seen nothing yet.
    pub fn new() -> (reader: RequestReader)
        ensures
            reader@ == start(),
    {
        RequestReader { buffer: Vec::new(), request: None, content_length: 0 }
    }

    /// The most bytes that the next piece may hold; never 0.
    pub fn want(&self) -> (n: usize)
        ensures
            n == wanted(self@),
            n > 0,
            valid(self@),
    {
        proof {
            use_type_invariant(self);
        }
        match &self.request {
            None => MAX_HEADERS_SIZE - self.buffer.len(),
            Some(_) => if self.content_length < 512 {
                self.content_length
            } else {
                512
            },
        }
    }

    /// Takes the next piece of the stream; an empty piece says that the
    /// stream has ended.
    pub fn feed(self, chunk: &[u8]) -> (r: ReadStep)
        requires
            chunk@.len() <= wanted(self@),
        ensures
            r@ == step(self@, chunk@),
            valid(self@),
            r matches ReadStep::Pending(reader) ==> valid(reader@),
    {
        proof {
            use_type_invariant(&self);
        }
        let RequestReader { buffer, request, content_length } = self;
        match request {
            None => read_headers(buffer, chunk),
            Some(request) => read_body(request, content_length, chunk),
        }
    }
}

/// Decides what becomes of `request` once its head is read and its body
/// holds the bytes that came with the head.
fn frame(request: Request) -> (r: ReadStep)
    ensures
        r@ == framed(request@),
        r matches ReadStep::Pending(reader) ==> valid(reader@),
{
    match content_length(&request.headers) {
        DeclaredLength::Invalid => ReadStep::Failed(Error::InvalidContentLength),
        DeclaredLength::Absent => if request.body.len() == 0 {
            ReadStep::Complete(request)
        } else {
            ReadStep::Failed(Error::ContentLengthMismatch)
        },
        DeclaredLength::Valid(n) => if n > MAX_BODY_SIZE {
            ReadStep::Failed(Error::RequestBodyTooLarge)
        } else if request.body.len() > n {
            ReadStep::Failed(Error::ContentLengthMismatch)
        } else if request.body.len() == n {
            ReadStep::Complete(request)
        } else {
            ReadStep::Pending(
                RequestReader { buffer: Vec::new(), request: Some(request), content_length: n },
            )
        },
    }
}

/// Goes on from the result `parsed` of looking for a head in `buffer`, the
/// bytes received: the request is complete, more bytes are needed, or no
/// request will come of this.
pub fn after_parse(buffer: Vec<u8>, parsed: Result<Option<(Request, usize)>, Error>) -> (r:
    ReadStep)
    requires
        parsed matches Ok(Some((_, len))) ==> len <= buffer@.len(),
    ensures
        r@ == with_head(buffer@, head_found(parsed)),
        r matches ReadStep::Pending(reader) ==> valid(reader@),
{
    match parsed {
        Err(error) => ReadStep::Failed(error),
        Ok(None) => if buffer.len() >= MAX_HEADERS_SIZE {
            ReadStep::Failed(Error::HeadTooLarge)
        } else {
            ReadStep::Pending(RequestReader { buffer, request: None, content_length: 0 })
        },
        Ok(Some((request, len))) => {
            let mut request = request;
            let ghost head = request@;
            let rest = vstd::slice::slice_subrange(buffer.as_slice(), len, buffer.len());
            append_bytes(&mut request.body, rest);
            assert(request@ == with_more_body(head, buffer@.skip(len as int)));
            frame(request)
        },
    }
}

/// Reads on at the head of a request: `buffer` holds what came before, and
/// `chunk` is the next piece of the stream. The head may come in any number
/// of pieces. It is complete as soon as the parser finds all of it in
/// what has come; the bytes behind it are the beginning of the body.
fn read_headers(buffer: Vec<u8>, chunk: &[u8]) -> (r: ReadStep)
    requires
        buffer@.len() + chunk@.len() <= MAX_HEADERS_SIZE,
    ensures
        r@ == step(Reading::Head { received: buffer@ }, chunk@),
        r matches ReadStep::Pending(reader) ==> valid(reader@),
{
    let mut buffer = buffer;
    if chunk.len() == 0 {
        return ReadStep::Failed(Error::IncompleteRequest(buffer.len()));
    }
    append_bytes(&mut buffer, chunk);
    let parsed = parse_request(buffer.as_slice());
    after_parse(buffer, parsed)
}

/// Reads on at the body of `request`, which is shorter than
/// `content_length`: `chunk` is the next piece of the stream.
fn read_body(request: Request, content_length: usize, chunk: &[u8]) -> (r: ReadStep)
    requires
        valid(Reading::Body { request: request@, content_length: content_length as nat }),
    ensures
        r@ == step(Reading::Body { request: request@, content_length: content_length as nat }, chunk@),
        r matches ReadStep::Pending(reader) ==> valid(reader@),
{
    let mut request = request;
    let ghost before = request@;
    if chunk.len() == 0 {
        return ReadStep::Failed(Error::ContentLengthMismatch);
    }
    if chunk.len() > content_length - request.body.len() {
        return ReadStep::Failed(Error::ContentLengthMismatch);
    }
    append_bytes(&mut request.body, chunk);
    assert(request@ == with_more_body(before, chunk@));
    if request.body.len() == content_length {
        ReadStep::Complete(request)
    } else {
        ReadStep::Pending(RequestReader { buffer: Vec::new(), request: Some(request), content_length })
    }
}

/// The next piece of `stream` for a reader in `state`: as many bytes as the
/// reader wants, or all of the stream if that is less.
pub open spec fn piece_len(state: Reading, stream: Seq<u8>) -> int {
    if wanted(state) < stream.len() {
        wanted(state) as int
    } else {
        stream.len() as int
    }
}

/// What comes of reading `stream` to its end from `state`, when each read
/// brings as many bytes as the reader wants and the stream still has.
pub open spec fn read_all(state: Reading, stream: Seq<u8>) -> Result<RequestData, Failure>
    decreases stream.len(),
{
    if stream.len() == 0 || wanted(state) == 0 {
        Err(at_end(state))
    } else {
        let n = piece_len(state, stream);
        match step(state, stream.take(n)) {
            Progress::Complete(request) => Ok(request),
            Progress::Failed(failure) => Err(failure),
            Progress::Pending(next) => read_all(next, stream.skip(n)),
        }
    }
}

/// Reads one request from `stream`, which holds every byte that the client
/// sends before it hangs up.
pub fn read_from_stream(stream: &[u8]) -> (r: Result<Request, Error>)
    ensures
        match r {
            Ok(request) => read_all(start(), stream@) == Ok::<RequestData, Failure>(request@),
            Err(error) => read_all(start(), stream@) == Err::<RequestData, Failure>(error@),
        },
{
    let mut reader = RequestReader::new();
    let mut pos: usize = 0;
    assert(stream@.skip(0) == stream@);
    loop
        invariant
            pos <= stream@.len(),
            read_all(start(), stream@) == read_all(reader@, stream@.skip(pos as int)),
        decreases stream@.len() - pos,
    {
        let want: usize = reader.want();
        let left: usize = stream.len() - pos;
        let n: usize = if want < left {
            want
        } else {
            left
        };
        let chunk = vstd::slice::slice_subrange(stream, pos, pos + n);
        let ghost rest = stream@.skip(pos as int);
        assert(chunk@ == rest.take(n as int));
        assert(rest.skip(n as int) == stream@.skip(pos + n));
        match reader.feed(chunk) {
            ReadStep::Pending(next) => {
                reader = next;
                pos = pos + n;
            },
            ReadStep::Complete(request) => {
                return Ok(request);
            },
            ReadStep::Failed(error) => {
                return Err(error);
            },
        }
    }
}

/// A client that hangs up without a byte ends the conversation: the result
/// is `IncompleteRequest(0)` and no other input gives it.
pub proof fn lemma_clean_end(stream: Seq<u8>)
    ensures
        stream.len() == 0 ==> read_all(start(), stream) == Err::<RequestData, Failure>(
            Failure::IncompleteRequest(0),
        ),
        stream.len() > 0 ==> read_all(start(), stream) != Err::<RequestData, Failure>(
            Failure::IncompleteRequest(0),
        ),
{
    if stream.len() > 0 {
        let n = piece_len(start(), stream);
        let piece = stream.take(n);
        assert(Seq::<u8>::empty() + piece == piece);
        match step(start(), piece) {
            Progress::Pending(next) => {
                lemma_never_clean_later(next, stream.skip(n));
            },
            _ => {},
        }
    }
}

/// Once bytes have come, the end of the stream is never a clean end.
proof fn lemma_never_clean_later(state: Reading, stream: Seq<u8>)
    requires
        valid(state),
        state matches Reading::Head { received } ==> received.len() > 0,
    ensures
        read_all(state, stream) != Err::<RequestData, Failure>(Failure::IncompleteRequest(0)),
    decreases stream.len(),
{
    if stream.len() > 0 && wanted(state) > 0 {
        let n = piece_len(state, stream);
        match step(state, stream.take(n)) {
            Progress::Pending(next) => {
                lemma_step_valid(state, stream.take(n));
                lemma_never_clean_later(next, stream.skip(n));
            },
            _ => {},
        }
    }
}

/// A step from a valid state that asks for more leaves a valid state, and
/// a request that it completes is framed as its headers declare, within the
/// limit on bodies.
pub proof fn lemma_step_valid(state: Reading, chunk: Seq<u8>)
    requires
        valid(state),
        chunk.len() <= wanted(state),
    ensures
        step(state, chunk) matches Progress::Pending(next) ==> valid(next) && (next matches Reading::Head {
            received,
        } ==> received.len() > 0),
        step(state, chunk) matches Progress::Complete(request) ==> well_framed(request)
            && request.body.len() <= MAX_BODY_SIZE,
{
}

/// Whatever `read_all` reads is framed as its headers declare: the body is
/// as long as `Content-Length` says, empty without that header, and never
/// longer than `MAX_BODY_SIZE`.
pub proof fn lemma_read_is_framed(state: Reading, stream: Seq<u8>)
    requires
        valid(state),
    ensures
        read_all(state, stream) matches Ok(request) ==> well_framed(request) && request.body.len()
            <= MAX_BODY_SIZE,
    decreases stream.len(),
{
    if stream.len() > 0 && wanted(state) > 0 {
        let n = piece_len(state, stream);
        lemma_step_valid(state, stream.take(n));
        match step(state, stream.take(n)) {
            Progress::Pending(next) => {
                lemma_read_is_framed(next, stream.skip(n));
            },
            _ => {},
        }
    }
}

/// A body that the stream holds to its last byte, and no further, is read.
pub proof fn lemma_body_exact(request: RequestData, content_length: nat, rest: Seq<u8>)
    requires
        valid(Reading::Body { request, content_length }),
        request.body.len() + rest.len() == content_length,
    ensures
        read_all(Reading::Body { request, content_length }, rest) == Ok::<RequestData, Failure>(
            with_more_body(request, rest),
        ),
    decreases rest.len(),
{
    let state = Reading::Body { request, content_length };
    let n = piece_len(state, rest);
    let piece = rest.take(n);
    if n == rest.len() {
        assert(piece == rest);
    } else {
        let more = with_more_body(request, piece);
        lemma_body_exact(more, content_length, rest.skip(n));
        assert(with_more_body(more, rest.skip(n)).body == request.body + rest) by {
            assert(piece + rest.skip(n) == rest);
            assert((request.body + piece) + rest.skip(n) == request.body + (piece + rest.skip(n)));
        }
    }
}

/// A stream that ends before the body is as long as declared gives
/// `ContentLengthMismatch`.
pub proof fn lemma_body_short(request: RequestData, content_length: nat, rest: Seq<u8>)
    requires
        valid(Reading::Body { request, content_length }),
        request.body.len() + rest.len() < content_length,
    ensures
        read_all(Reading::Body { request, content_length }, rest) == Err::<RequestData, Failure>(
            Failure::ContentLengthMismatch,
        ),
    decreases rest.len(),
{
    let state = Reading::Body { request, content_length };
    if rest.len() > 0 {
        let n = piece_len(state, rest);
        let piece = rest.take(n);
        lemma_body_short(with_more_body(request, piece), content_length, rest.skip(n));
    }
}

/// A body that was read is what it held before and the bytes that the
/// reader took off the stream, in their order: `k` of them.
pub proof fn lemma_body_consumed(request: RequestData, content_length: nat, rest: Seq<u8>) -> (k:
    int)
    requires
        read_all(Reading::Body { request, content_length }, rest) is Ok,
    ensures
        0 <= k <= rest.len(),
        read_all(Reading::Body { request, content_length }, rest) == Ok::<RequestData, Failure>(
            with_more_body(request, rest.take(k)),
        ),
    decreases rest.len(),
{
    let state = Reading::Body { request, content_length };
    let n = piece_len(state, rest);
    let piece = rest.take(n);
    match step(state, piece) {
        Progress::Pending(next) => {
            let more = with_more_body(request, piece);
            let k = lemma_body_consumed(more, content_length, rest.skip(n));
            assert(with_more_body(more, rest.skip(n).take(k)).body == request.body + rest.take(
                n + k,
            )) by {
                assert(piece + rest.skip(n).take(k) == rest.take(n + k));
                assert((request.body + piece) + rest.skip(n).take(k) == request.body + (piece
                    + rest.skip(n).take(k)));
            }
            n + k
        },
        _ => n,
    }
}

/// The first piece that is read of `stream`: all of it, or as much as a head
/// may take.
pub open spec fn first_piece(stream: Seq<u8>) -> Seq<u8> {
    stream.take(piece_len(start(), stream))
}

/// The head of `request` stands at the start of `stream` in the very form
/// in which `write_to_stream` writes it, and the parser took exactly those
/// bytes for the head.
pub open spec fn head_as_written(stream: Seq<u8>, request: RequestData) -> bool {
    match parsed_request_head(first_piece(stream), MAX_NUM_HEADERS as nat) {
        ParsedRequest::Complete { len, .. } => len <= first_piece(stream).len() && stream.take(
            len as int,
        ) == request_head_bytes(request),
        _ => false,
    }
}

/// Reading a request and writing it again gives back the bytes that were
/// read: where the head came in the form in which heads are written, the
/// bytes of the request are the beginning of the stream, and all of it
/// where the stream holds this request and nothing else.
pub proof fn lemma_read_then_write(stream: Seq<u8>, request: RequestData)
    requires
        read_all(start(), stream) == Ok::<RequestData, Failure>(request),
        head_as_written(stream, request),
    ensures
        request_bytes(request).is_prefix_of(stream),
        stream.len() == request_bytes(request).len() ==> request_bytes(request) == stream,
{
    let n = piece_len(start(), stream);
    let piece = stream.take(n);
    assert(Seq::<u8>::empty() + piece == piece);
    match parsed_request_head(piece, MAX_NUM_HEADERS as nat) {
        ParsedRequest::Complete { method, target, headers, len } => {
            let first = RequestData {
                method,
                target,
                version: Version::Http11,
                headers,
                body: piece.skip(len as int),
            };
            match framed(first) {
                Progress::Pending(next) => {
                    let content_length = next->content_length;
                    let rest = stream.skip(n);
                    let k = lemma_body_consumed(first, content_length, rest);
                    assert(request == with_more_body(first, rest.take(k)));
                    assert(request_head_bytes(request) == request_head_bytes(first));
                    assert(request.body == stream.subrange(len as int, n + k)) by {
                        assert(piece.skip(len as int) + rest.take(k) == stream.subrange(
                            len as int,
                            n + k,
                        ));
                    }
                    assert(request_bytes(request) == stream.take(n + k)) by {
                        assert(stream.take(len as int) + stream.subrange(len as int, n + k)
                            == stream.take(n + k));
                    }
                },
                _ => {
                    assert(request == first);
                    assert(request_bytes(request) == stream.take(n)) by {
                        assert(stream.take(len as int) + piece.skip(len as int) == stream.take(n));
                    }
                },
            }
        },
        _ => {},
    }
    if stream.len() == request_bytes(request).len() {
        assert(stream.take(stream.len() as int) == stream);
    }
}

/// When a request is owed: the parser finds a whole head of `len` bytes in
/// the first piece, the headers declare a body of no more than
/// `MAX_BODY_SIZE` bytes, or none, and the stream holds the head and that
/// many bytes more. Then the request is read, with the bytes behind the head
/// as its body.
pub proof fn lemma_whole_request_is_read(stream: Seq<u8>)
    requires
        stream.len() > 0,
        match parsed_request_head(first_piece(stream), MAX_NUM_HEADERS as nat) {
            ParsedRequest::Complete { headers, len, .. } => len <= first_piece(stream).len()
                && match declared_length(headers) {
                DeclaredLength::Absent => stream.len() == len,
                DeclaredLength::Valid(n) => n <= MAX_BODY_SIZE && stream.len() == len + n,
                DeclaredLength::Invalid => false,
            },
            _ => false,
        },
    ensures
        match parsed_request_head(first_piece(stream), MAX_NUM_HEADERS as nat) {
            ParsedRequest::Complete { method, target, headers, len } => read_all(start(), stream)
                == Ok::<RequestData, Failure>(
                RequestData {
                    method,
                    target,
                    version: Version::Http11,
                    headers,
                    body: stream.skip(len as int),
                },
            ),
            _ => false,
        },
{
    let n = piece_len(start(), stream);
    let piece = stream.take(n);
    assert(Seq::<u8>::empty() + piece == piece);
    match parsed_request_head(piece, MAX_NUM_HEADERS as nat) {
        ParsedRequest::Complete { method, target, headers, len } => {
            let first = RequestData {
                method,
                target,
                version: Version::Http11,
                headers,
                body: piece.skip(len as int),
            };
            match framed(first) {
                Progress::Pending(next) => {
                    let content_length = next->content_length;
                    let rest = stream.skip(n);
                    lemma_body_exact(first, content_length, rest);
                    assert(piece.skip(len as int) + rest == stream.skip(len as int));
                },
                _ => {
                    assert(piece == stream);
                },
            }
        },
        _ => {},
    }
}

/// A client that declares more body than it sends before it hangs up gets
/// `ContentLengthMismatch`: the parser finds a whole head of `len` bytes in
/// the first piece, the headers declare `n` bytes, no more than
/// `MAX_BODY_SIZE`, and the stream holds fewer than `len + n`.
pub proof fn lemma_short_body_is_refused(stream: Seq<u8>)
    requires
        stream.len() > 0,
        match parsed_request_head(first_piece(stream), MAX_NUM_HEADERS as nat) {
            ParsedRequest::Complete { headers, len, .. } => len <= first_piece(stream).len()
                && match declared_length(headers) {
                DeclaredLength::Valid(n) => n <= MAX_BODY_SIZE && stream.len() < len + n,
                _ => false,
            },
            _ => false,
        },
    ensures
        read_all(start(), stream) == Err::<RequestData, Failure>(Failure::ContentLengthMismatch),
{
    let n = piece_len(start(), stream);
    let piece = stream.take(n);
    assert(Seq::<u8>::empty() + piece == piece);
    match parsed_request_head(piece, MAX_NUM_HEADERS as nat) {
        ParsedRequest::Complete { method, target, headers, len } => {
            let first = RequestData {
                method,
                target,
                version: Version::Http11,
                headers,
                body: piece.skip(len as int),
            };
            match framed(first) {
                Progress::Pending(next) => {
                    let content_length = next->content_length;
                    let rest = stream.skip(n);
                    lemma_body_short(first, content_length, rest);
                },
                _ => {},
            }
        },
        _ => {},
    }
}

/// A head that is not whole after `MAX_HEADERS_SIZE` bytes is too large:
/// the result is `HeadTooLarge`, whatever follows. It is not taken for a
/// request that was cut short, and nothing of it is accepted.
pub proof fn lemma_long_head_is_too_large(stream: Seq<u8>)
    requires
        stream.len() >= MAX_HEADERS_SIZE,
        parsed_request_head(first_piece(stream), MAX_NUM_HEADERS as nat) is Partial,
    ensures
        read_all(start(), stream) == Err::<RequestData, Failure>(Failure::HeadTooLarge),
{
    let piece = first_piece(stream);
    assert(Seq::<u8>::empty() + piece == piece);
}

/// A client that hangs up in the middle of a head that is still within the
/// limit gives `IncompleteRequest` with the number of bytes that came.
pub proof fn lemma_cut_short_head_is_incomplete(stream: Seq<u8>)
    requires
        stream.len() < MAX_HEADERS_SIZE,
        stream.len() == 0 || parsed_request_head(stream, MAX_NUM_HEADERS as nat) is Partial,
    ensures
        read_all(start(), stream) == Err::<RequestData, Failure>(
            Failure::IncompleteRequest(stream.len()),
        ),
{
    if stream.len() > 0 {
        let piece = first_piece(stream);
        assert(piece == stream);
        assert(Seq::<u8>::empty() + piece == piece);
        let next = Reading::Head { received: stream };
        assert(stream.skip(stream.len() as int).len() == 0);
        assert(read_all(next, stream.skip(stream.len() as int)) == Err::<RequestData, Failure>(
            Failure::IncompleteRequest(stream.len()),
        ));
    }
}

/// More header lines than `MAX_NUM_HEADERS` give `TooManyHeaders`, which
/// is neither `MalformedRequest` nor `HeadTooLarge`.
pub proof fn lemma_too_many_headers(stream: Seq<u8>)
    requires
        stream.len() > 0,
        parsed_request_head(first_piece(stream), MAX_NUM_HEADERS as nat) is TooManyHeaders,
    ensures
        read_all(start(), stream) == Err::<RequestData, Failure>(Failure::TooManyHeaders),
{
    let piece = first_piece(stream);
    assert(Seq::<u8>::empty() + piece == piece);
}

} // verus!
