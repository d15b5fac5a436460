//! An open file of a process: its name, its cursor and how it may be
//! accessed, as `/proc` tells them.

use crate::text::{chars_of, index_of, number, parse_number};
use std::collections::hash_map::DefaultHasher;
use std::hash::{BuildHasher, BuildHasherDefault};
use vstd::prelude::*;
use vstd::string::*;

verus! {

/// The flag that says that a file is open for writing only.
pub const O_WRONLY: usize = 1;

/// The flag that says that a file is open for reading and writing.
pub const O_RDWR: usize = 2;

/// The number of colors that names of pipes are shown in.
pub const NUM_COLORS: u64 = 6;

/// How a file may be accessed.
#[derive(Debug, Clone, Copy, PartialEq, Eq, Structural)]
pub enum AccessMode {
    Read,
    Write,
    ReadWrite,
}

impl AccessMode {
    /// The words for this mode: `read`, `write` or `read/write`.
    pub fn to_string(&self) -> (words: String)
        ensures
            words@ == match self {
                AccessMode::Read => "read"@,
                AccessMode::Write => "write"@,
                AccessMode::ReadWrite => "read/write"@,
            },
    {
        match self {
            AccessMode::Read => String::from_str("read"),
            AccessMode::Write => String::from_str("write"),
            AccessMode::ReadWrite => String::from_str("read/write"),
        }
    }
}

/// An open file.
#[derive(Debug, Clone, PartialEq)]
pub struct OpenFile {
    pub name: String,
    pub cursor: usize,
    pub access_mode: AccessMode,
}

/// The name to show for the file at `path`: `<terminal>` for a terminal,
/// whose path starts with `/dev/pts/`; `<pipe #n>` for the pipe with the
/// path `pipe:[n]`, where `n` is what stands between `pipe:[` and the first
/// `]`; the path itself for any other file.
pub open spec fn name_of_path(path: Seq<char>) -> Seq<char> {
    if "/dev/pts/"@.is_prefix_of(path) {
        "<terminal>"@
    } else if "pipe:["@.is_prefix_of(path) && path.last() == ']' {
        "<pipe #"@ + path.subrange("pipe:["@.len() as int, index_of(path, ']', 0)) + ">"@
    } else {
        path
    }
}

/// Tells whether `chars` starts with the characters of `prefix`.
pub fn starts_with(chars: &Vec<char>, prefix: &str) -> (r: bool)
    ensures
        r == prefix@.is_prefix_of(chars@),
{
    let head = chars_of(prefix);
    if head.len() > chars.len() {
        return false;
    }
    let mut i: usize = 0;
    while i < head.len()
        invariant
            i <= head@.len() <= chars@.len(),
            head@ == prefix@,
            forall|j: int| 0 <= j < i ==> head@[j] == chars@[j],
        decreases head@.len() - i,
    {
        if head[i] != chars[i] {
            assert(head@[i as int] != chars@.subrange(0, head@.len() as int)[i as int]);
            return false;
        }
        i += 1;
    }
    assert(head@ =~= chars@.subrange(0, head@.len() as int));
    true
}

/// The access mode that the flags `flags` of an open file stand for:
/// `Write` where `O_WRONLY` is set, else `ReadWrite` where `O_RDWR` is set,
/// else `Read`.
pub open spec fn mode_of_flags(flags: usize) -> AccessMode {
    if flags & O_WRONLY > 0 {
        AccessMode::Write
    } else if flags & O_RDWR > 0 {
        AccessMode::ReadWrite
    } else {
        AccessMode::Read
    }
}

/// What the `regex` crate finds for the first group of `pattern` in
/// `text`: the text that the group took in the leftmost match. There is
/// none where `pattern` does not match, where the group took no part in the
/// match, and where the crate does not take `pattern` for a regular
/// expression.
pub uninterp spec fn first_group(pattern: Seq<char>, text: Seq<char>) -> Option<Seq<char>>;

/// Compiles `pattern` with `regex::Regex::new` and looks in `text` for its
/// leftmost match with `regex::Regex::captures`.
///
/// Believed, not proved: the result is the text named `first_group`.
#[verifier::external_body]
fn regex_first_group(pattern: &str, text: &str) -> (group: Option<String>)
    ensures
        match group {
            Some(found) => first_group(pattern@, text@) == Some(found@),
            None => first_group(pattern@, text@) is None,
        },
{
    let found = regex::Regex::new(pattern).ok()?.captures(text)?.get(1)?;
    Some(found.as_str().to_owned())
}

/// Hashes `text` with the default hasher of the standard library,
/// `std::collections::hash_map::DefaultHasher`, by way of
/// `std::hash::BuildHasher::hash_one`. Nothing is claimed of the hash: the
/// library does not say how it is computed.
#[verifier::external_body]
fn hash_of(text: &str) -> u64 {
    BuildHasherDefault::<DefaultHasher>::default().hash_one(text)
}

/// The escape sequence that turns on color number `k`.
pub open spec fn color_code(k: int) -> Seq<char> {
    if k == 0 {
        "\x1B[38;5;9m"@
    } else if k == 1 {
        "\x1B[38;5;10m"@
    } else if k == 2 {
        "\x1B[38;5;11m"@
    } else if k == 3 {
        "\x1B[38;5;12m"@
    } else if k == 4 {
        "\x1B[38;5;13m"@
    } else {
        "\x1B[38;5;14m"@
    }
}

/// The escape sequence that turns color off.
pub open spec fn clear_color() -> Seq<char> {
    "\x1B[0m"@
}

/// The escape sequence that turns on color number `k`.
pub fn color(k: u64) -> (code: &'static str)
    ensures
        code@ == color_code(k as int),
{
    if k == 0 {
        "\x1B[38;5;9m"
    } else if k == 1 {
        "\x1B[38;5;10m"
    } else if k == 2 {
        "\x1B[38;5;11m"
    } else if k == 3 {
        "\x1B[38;5;12m"
    } else if k == 4 {
        "\x1B[38;5;13m"
    } else {
        "\x1B[38;5;14m"
    }
}

/// The name `name` as it is shown when its hash is `hash`: the name of a
/// pipe, which starts with `<pipe`, in the color that the hash picks, any
/// other name as it is.
pub open spec fn colorized(name: Seq<char>, hash: u64) -> Seq<char> {
    if "<pipe"@.is_prefix_of(name) {
        color_code((hash % NUM_COLORS) as int) + name + clear_color()
    } else {
        name
    }
}

impl OpenFile {
    /// The open file with the given name, cursor and access mode.
    pub fn new(name: String, cursor: usize, access_mode: AccessMode) -> (file: OpenFile)
        ensures
            file.name == name,
            file.cursor == cursor,
            file.access_mode == access_mode,
    {
        OpenFile { name, cursor, access_mode }
    }

    /// The name to show for the file at `path`.
    pub fn path_to_name(path: &str) -> (name: String)
        ensures
            name@ == name_of_path(path@),
    {
        let chars = chars_of(path);
        proof {
            reveal_strlit("pipe:[");
        }
        if starts_with(&chars, "/dev/pts/") {
            String::from_str("<terminal>")
        } else if starts_with(&chars, "pipe:[") && chars.len() > 0 && chars[chars.len() - 1]
            == ']' {
            let mut end: usize = 0;
            while end < chars.len() && chars[end] != ']'
                invariant
                    end <= chars@.len(),
                    index_of(chars@, ']', 0) == index_of(chars@, ']', end as int),
                decreases chars@.len() - end,
            {
                end += 1;
            }
            assert(end == index_of(chars@, ']', 0));
            assert(end >= 6) by {
                assert(forall|j: int| 0 <= j < 6 ==> chars@[j] == "pipe:["@[j]);
                if end < 6 {
                    assert(chars@[end as int] == "pipe:["@[end as int]);
                }
            }
            let number = path.substring_char(6, end);
            let mut name = String::from_str("<pipe #");
            name.append(number);
            name.append(">");
            name
        } else {
            path.to_owned()
        }
    }

    /// The cursor that goes with what was found behind `pos:` in the
    /// description of a descriptor: the decimal number that it is, if it is
    /// one.
    pub fn cursor_from(found: Option<String>) -> (cursor: Option<usize>)
        ensures
            cursor == match found {
                Some(digits) => number(digits@, 10),
                None => None,
            },
    {
        match found {
            Some(digits) => {
                let chars = chars_of(digits.as_str());
                assert(chars@.subrange(0, chars@.len() as int) == chars@);
                parse_number(&chars, 0, chars.len(), 10)
            },
            None => None,
        }
    }

    /// The cursor in `fdinfo`, the description of a descriptor as `/proc`
    /// gives it: the number behind `pos:`.
    pub fn parse_cursor(fdinfo: &str) -> (cursor: Option<usize>)
        ensures
            cursor == match first_group("pos:\\s*(\\d+)"@, fdinfo@) {
                Some(digits) => number(digits, 10),
                None => None,
            },
    {
        OpenFile::cursor_from(regex_first_group("pos:\\s*(\\d+)", fdinfo))
    }

    /// The access mode that goes with what was found behind `flags:` in the
    /// description of a descriptor: the mode of the flags that it denotes in
    /// octal, if it is an octal number.
    pub fn access_mode_from(found: Option<String>) -> (mode: Option<AccessMode>)
        ensures
            mode == match found {
                Some(digits) => match number(digits@, 8) {
                    Some(flags) => Some(mode_of_flags(flags)),
                    None => None,
                },
                None => None,
            },
    {
        match found {
            Some(digits) => {
                let chars = chars_of(digits.as_str());
                assert(chars@.subrange(0, chars@.len() as int) == chars@);
                match parse_number(&chars, 0, chars.len(), 8) {
                    Some(flags) => {
                        if flags & O_WRONLY > 0 {
                            Some(AccessMode::Write)
                        } else if flags & O_RDWR > 0 {
                            Some(AccessMode::ReadWrite)
                        } else {
                            Some(AccessMode::Read)
                        }
                    },
                    None => None,
                }
            },
            None => None,
        }
    }

    /// The access mode in `fdinfo`, the description of a descriptor as
    /// `/proc` gives it: the mode of the flags behind `flags:`.
    pub fn parse_access_mode(fdinfo: &str) -> (mode: Option<AccessMode>)
        ensures
            mode == match first_group("flags:\\s*(\\d+)"@, fdinfo@) {
                Some(digits) => match number(digits, 8) {
                    Some(flags) => Some(mode_of_flags(flags)),
                    None => None,
                },
                None => None,
            },
    {
        OpenFile::access_mode_from(regex_first_group("flags:\\s*(\\d+)", fdinfo))
    }

    /// The name of this file as it is shown when the hash of the name is
    /// `hash`.
    pub fn colorized_with(&self, hash: u64) -> (shown: String)
        ensures
            shown@ == colorized(self.name@, hash),
    {
        let chars = chars_of(self.name.as_str());
        if starts_with(&chars, "<pipe") {
            let mut shown = String::from_str(color(hash % NUM_COLORS));
            shown.append(self.name.as_str());
            shown.append("\x1B[0m");
            shown
        } else {
            self.name.clone()
        }
    }

    /// The name of this file as it is shown: the name of a pipe in a color
    /// that goes by the hash of the name, so that the same pipe has the
    /// same color wherever it shows, any other name as it is.
    pub fn colorized_name(&self) -> (shown: String)
        ensures
            exists|hash: u64| shown@ == colorized(self.name@, hash),
    {
        let hash: u64 = hash_of(self.name.as_str());
        self.colorized_with(hash)
    }
}

} // verus!
