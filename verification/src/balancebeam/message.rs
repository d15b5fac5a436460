//! What requests and responses share: the limits of the codec, header lines,
//! lookup of a header by name, and the byte form of a header block.

use crate::balancebeam::decimal::{parse_decimal, parsed_decimal};
use vstd::prelude::*;
use vstd::string::*;

verus! {

/// Most bytes that the start line and the headers of a message may take.
pub const MAX_HEADERS_SIZE: usize = 8000;

/// Most bytes that the body of a message may take.
pub const MAX_BODY_SIZE: usize = 10000000;

/// Most header lines that a message may carry.
pub const MAX_NUM_HEADERS: usize = 32;

/// The version of HTTP that a message is written in.
#[derive(Clone, Copy, Debug, PartialEq, Eq, Structural)]
pub enum Version {
    Http10,
    Http11,
}

/// One header line, name and value as they came.
#[derive(Debug, PartialEq, Eq)]
pub struct Header {
    pub name: Vec<u8>,
    pub value: Vec<u8>,
}

/// A header line as a pair of byte sequences.
pub ghost struct HeaderLine {
    pub name: Seq<u8>,
    pub value: Seq<u8>,
}

impl View for Header {
    type V = HeaderLine;

    open spec fn view(&self) -> HeaderLine {
        HeaderLine { name: self.name@, value: self.value@ }
    }
}

/// The header lines of `headers`, in order.
pub open spec fn header_lines(headers: Seq<Header>) -> Seq<HeaderLine> {
    Seq::new(headers.len(), |i: int| headers[i]@)
}

/// The lines of a list that got one more header are the lines of the list
/// and the line of that header.
pub proof fn lemma_header_lines_push(headers: Seq<Header>, header: Header)
    ensures
        header_lines(headers.push(header)) == header_lines(headers).push(header@),
{
    assert(header_lines(headers.push(header)) =~= header_lines(headers).push(header@));
}

/// The bytes of the text `s`.
pub open spec fn bytes(s: &str) -> Seq<u8> {
    s.spec_bytes()
}

/// Carriage return and line feed, which end every line of a message head.
pub open spec fn crlf() -> Seq<u8> {
    bytes("\r\n")
}

/// The bytes `HTTP/1.0` or `HTTP/1.1`.
pub open spec fn version_bytes(version: Version) -> Seq<u8> {
    match version {
        Version::Http10 => bytes("HTTP/1.0"),
        Version::Http11 => bytes("HTTP/1.1"),
    }
}

/// One header on the wire: name, colon, space, value, end of line.
pub open spec fn header_line_bytes(line: HeaderLine) -> Seq<u8> {
    line.name + bytes(": ") + line.value + crlf()
}

/// All header lines on the wire, one after the other in their order.
pub open spec fn header_block(lines: Seq<HeaderLine>) -> Seq<u8>
    decreases lines.len(),
{
    if lines.len() == 0 {
        Seq::empty()
    } else {
        header_block(lines.drop_last()) + header_line_bytes(lines.last())
    }
}

/// `b` with an ASCII capital letter turned into its small letter.
pub open spec fn lower(b: u8) -> u8 {
    if 'A' as u8 <= b <= 'Z' as u8 {
        (b + 32) as u8
    } else {
        b
    }
}

/// Two header names are the same name: equal but for the case of ASCII
/// letters.
pub open spec fn same_name(a: Seq<u8>, b: Seq<u8>) -> bool {
    a.len() == b.len() && forall|i: int| 0 <= i < a.len() ==> lower(#[trigger] a[i]) == lower(b[i])
}

/// Some line of `lines` carries the name `name`.
pub open spec fn has_header(lines: Seq<HeaderLine>, name: Seq<u8>) -> bool {
    exists|i: int| 0 <= i < lines.len() && same_name(#[trigger] lines[i].name, name)
}

/// Line `i` is the first of `lines` that carries the name `name`.
pub open spec fn is_first_header(lines: Seq<HeaderLine>, name: Seq<u8>, i: int) -> bool {
    &&& 0 <= i < lines.len()
    &&& same_name(lines[i].name, name)
    &&& forall|j: int| 0 <= j < i ==> !same_name(#[trigger] lines[j].name, name)
}

/// Where the first line named `name` stands, if there is one.
pub open spec fn header_position(lines: Seq<HeaderLine>, name: Seq<u8>) -> Option<int> {
    if has_header(lines, name) {
        Some(choose|i: int| is_first_header(lines, name, i))
    } else {
        None
    }
}

/// The value of the first line named `name`, if there is one.
pub open spec fn header_value(lines: Seq<HeaderLine>, name: Seq<u8>) -> Option<Seq<u8>> {
    match header_position(lines, name) {
        Some(i) => Some(lines[i].value),
        None => None,
    }
}

/// A first line named `name` is the position that `header_position` gives.
pub proof fn lemma_first_header(lines: Seq<HeaderLine>, name: Seq<u8>, i: int)
    requires
        is_first_header(lines, name, i),
    ensures
        has_header(lines, name),
        header_position(lines, name) == Some(i),
{
    assert(same_name(lines[i].name, name));
    let j = choose|j: int| is_first_header(lines, name, j);
    assert(is_first_header(lines, name, j));
    if j < i {
        assert(!same_name(lines[j].name, name));
    }
    if i < j {
        assert(!same_name(lines[i].name, name));
    }
}

/// Where some line carries the name, one line is the first to do so.
pub proof fn lemma_has_first_header(lines: Seq<HeaderLine>, name: Seq<u8>) -> (i: int)
    requires
        has_header(lines, name),
    ensures
        is_first_header(lines, name, i),
        header_position(lines, name) == Some(i),
{
    let k = choose|k: int| 0 <= k < lines.len() && same_name(#[trigger] lines[k].name, name);
    let i = first_header_up_to(lines, name, 0, k);
    lemma_first_header(lines, name, i);
    i
}

/// Finds the first line that carries the name, given that none before `j`
/// does and that line `k` does.
proof fn first_header_up_to(lines: Seq<HeaderLine>, name: Seq<u8>, j: int, k: int) -> (i: int)
    requires
        0 <= j <= k < lines.len(),
        same_name(lines[k].name, name),
        forall|m: int| 0 <= m < j ==> !same_name(#[trigger] lines[m].name, name),
    ensures
        is_first_header(lines, name, i),
    decreases k - j,
{
    if same_name(lines[j].name, name) {
        j
    } else {
        first_header_up_to(lines, name, j + 1, k)
    }
}

/// Appends `bytes` to `out`.
pub fn append_bytes(out: &mut Vec<u8>, bytes: &[u8])
    ensures
        final(out)@ == old(out)@ + bytes@,
{
    let ghost before = out@;
    let mut i: usize = 0;
    while i < bytes.len()
        invariant
            i <= bytes@.len(),
            out@ == before + bytes@.take(i as int),
        decreases bytes@.len() - i,
    {
        out.push(bytes[i]);
        assert(bytes@.take(i + 1) == bytes@.take(i as int).push(bytes@[i as int]));
        i += 1;
    }
    assert(bytes@.take(i as int) == bytes@);
}

/// Appends the bytes of the text `text` to `out`.
pub fn append_text(out: &mut Vec<u8>, text: &str)
    ensures
        final(out)@ == old(out)@ + bytes(text),
{
    append_bytes(out, text.as_bytes());
}

/// A vector that holds the bytes of `bytes`.
pub fn copy_bytes(bytes: &[u8]) -> (r: Vec<u8>)
    ensures
        r@ == bytes@,
{
    let mut r: Vec<u8> = Vec::new();
    append_bytes(&mut r, bytes);
    r
}

impl Header {
    /// A header line with the given name and value.
    pub fn new(name: &[u8], value: &[u8]) -> (r: Header)
        ensures
            r@.name == name@,
            r@.value == value@,
    {
        Header { name: copy_bytes(name), value: copy_bytes(value) }
    }

    /// A line with the same name and value.
    pub fn duplicate(&self) -> (r: Header)
        ensures
            r@ == self@,
    {
        Header { name: copy_bytes(self.name.as_slice()), value: copy_bytes(self.value.as_slice()) }
    }
}

/// Appends the bytes of `version` to `out`.
pub fn write_version(version: Version, out: &mut Vec<u8>)
    ensures
        final(out)@ == old(out)@ + version_bytes(version),
{
    match version {
        Version::Http10 => append_text(out, "HTTP/1.0"),
        Version::Http11 => append_text(out, "HTTP/1.1"),
    }
}

/// Tells whether `a` and `b` hold the same bytes.
pub fn same_bytes(a: &[u8], b: &[u8]) -> (same: bool)
    ensures
        same == (a@ == b@),
{
    if a.len() != b.len() {
        return false;
    }
    let mut i: usize = 0;
    while i < a.len()
        invariant
            a@.len() == b@.len(),
            i <= a@.len(),
            forall|j: int| 0 <= j < i ==> a@[j] == b@[j],
        decreases a@.len() - i,
    {
        if a[i] != b[i] {
            return false;
        }
        i += 1;
    }
    assert(a@ =~= b@);
    true
}

/// Tells whether `a` and `b` are the same header name.
pub fn names_match(a: &[u8], b: &[u8]) -> (r: bool)
    ensures
        r == same_name(a@, b@),
{
    if a.len() != b.len() {
        return false;
    }
    let mut i: usize = 0;
    while i < a.len()
        invariant
            a@.len() == b@.len(),
            i <= a@.len(),
            forall|j: int| 0 <= j < i ==> lower(#[trigger] a@[j]) == lower(b@[j]),
        decreases a@.len() - i,
    {
        let x: u8 = a[i];
        let y: u8 = b[i];
        let lx: u8 = if 'A' as u8 <= x && x <= 'Z' as u8 {
            x + 32
        } else {
            x
        };
        let ly: u8 = if 'A' as u8 <= y && y <= 'Z' as u8 {
            y + 32
        } else {
            y
        };
        if lx != ly {
            assert(lower(a@[i as int]) != lower(b@[i as int]));
            return false;
        }
        i += 1;
    }
    true
}

/// Finds the first header named `name`: its index, or `None` where no line
/// carries that name.
pub fn find_header(headers: &Vec<Header>, name: &[u8]) -> (r: Option<usize>)
    ensures
        match r {
            Some(i) => {
                &&& i < headers@.len()
                &&& is_first_header(header_lines(headers@), name@, i as int)
                &&& header_position(header_lines(headers@), name@) == Some(i as int)
            },
            None => header_position(header_lines(headers@), name@) is None,
        },
{
    let ghost lines = header_lines(headers@);
    let mut i: usize = 0;
    while i < headers.len()
        invariant
            i <= headers@.len(),
            lines == header_lines(headers@),
            forall|j: int| 0 <= j < i ==> !same_name(#[trigger] lines[j].name, name@),
        decreases headers@.len() - i,
    {
        if names_match(headers[i].name.as_slice(), name) {
            proof {
                assert(lines[i as int] == headers@[i as int]@);
                lemma_first_header(lines, name@, i as int);
            }
            return Some(i);
        }
        assert(lines[i as int] == headers@[i as int]@);
        i += 1;
    }
    None
}

/// Appends the header block of `headers` to `out`.
pub fn write_headers(headers: &Vec<Header>, out: &mut Vec<u8>)
    ensures
        final(out)@ == old(out)@ + header_block(header_lines(headers@)),
{
    let ghost before = out@;
    let ghost lines = header_lines(headers@);
    let mut i: usize = 0;
    while i < headers.len()
        invariant
            i <= headers@.len(),
            lines == header_lines(headers@),
            out@ == before + header_block(lines.take(i as int)),
        decreases headers@.len() - i,
    {
        let ghost so_far = out@;
        append_bytes(out, headers[i].name.as_slice());
        append_text(out, ": ");
        append_bytes(out, headers[i].value.as_slice());
        append_text(out, "\r\n");
        proof {
            let next = lines.take(i + 1);
            assert(next.drop_last() == lines.take(i as int));
            assert(next.last() == headers@[i as int]@);
            assert(out@ == so_far + header_line_bytes(next.last()));
        }
        i += 1;
    }
    assert(lines.take(i as int) == lines);
}


/// What the headers of a message say of the length of its body.
#[derive(Clone, Copy, Debug, PartialEq, Eq, Structural)]
pub enum DeclaredLength {
    /// No `Content-Length` header.
    Absent,
    /// The first `Content-Length` header holds this number.
    Valid(usize),
    /// The first `Content-Length` header holds no number that fits in
    /// `usize`.
    Invalid,
}

/// The header name `content-length`.
pub open spec fn content_length_name() -> Seq<u8> {
    bytes("content-length")
}

/// The length that `lines` declare: the number in the first line named
/// `Content-Length`, whatever the case of its letters.
pub open spec fn declared_length(lines: Seq<HeaderLine>) -> DeclaredLength {
    match header_value(lines, content_length_name()) {
        None => DeclaredLength::Absent,
        Some(value) => match parsed_decimal(value) {
            Some(n) => DeclaredLength::Valid(n),
            None => DeclaredLength::Invalid,
        },
    }
}

/// Reads the declared body length off `headers`.
pub fn content_length(headers: &Vec<Header>) -> (r: DeclaredLength)
    ensures
        r == declared_length(header_lines(headers@)),
{
    match find_header(headers, "content-length".as_bytes()) {
        None => DeclaredLength::Absent,
        Some(i) => {
            assert(header_lines(headers@)[i as int] == headers@[i as int]@);
            match parse_decimal(headers[i].value.as_slice()) {
                Some(n) => DeclaredLength::Valid(n),
                None => DeclaredLength::Invalid,
            }
        },
    }
}

} // verus!
