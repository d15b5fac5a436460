//! Counting lines, words and bytes of a text.

use crate::text::{chars_of, is_white, is_whitespace};
use vstd::prelude::*;
use vstd::string::*;
use vstd::utf8::encode_utf8;

verus! {

/// A word starts at place `i` of `s`: `s` holds no white space there, and
/// white space or nothing just before.
pub open spec fn word_starts(s: Seq<char>, i: int) -> bool {
    0 <= i < s.len() && !is_white(s[i]) && (i == 0 || is_white(s[i - 1]))
}

/// The number of words among the first `k` characters of `s`: the runs of
/// characters that are no white space.
pub open spec fn words_before(s: Seq<char>, k: int) -> nat
    decreases k,
{
    if k <= 0 {
        0
    } else if word_starts(s, k - 1) {
        words_before(s, k - 1) + 1
    } else {
        words_before(s, k - 1)
    }
}

/// The number of words in `s`.
pub open spec fn words_in(s: Seq<char>) -> nat {
    words_before(s, s.len() as int)
}

/// There are no more words than characters.
pub proof fn lemma_words_before(s: Seq<char>, k: int)
    requires
        0 <= k,
    ensures
        words_before(s, k) <= k,
    decreases k,
{
    if k > 0 {
        lemma_words_before(s, k - 1);
    }
}

/// Counts the words in `line`.
pub fn count_words(line: &str) -> (words: usize)
    ensures
        words == words_in(line@),
{
    let chars = chars_of(line);
    let mut words: usize = 0;
    let mut after_white: bool = true;
    let mut i: usize = 0;
    while i < chars.len()
        invariant
            i <= chars@.len(),
            words == words_before(chars@, i as int),
            after_white == (i == 0 || is_white(chars@[i - 1])),
        decreases chars@.len() - i,
    {
        let white: bool = is_whitespace(chars[i]);
        proof {
            lemma_words_before(chars@, i as int);
        }
        if !white && after_white {
            words += 1;
        }
        after_white = white;
        i += 1;
    }
    words
}

/// The numbers that are told of a text.
#[derive(Debug, Clone, Copy, PartialEq, Eq, Structural)]
pub struct Counts {
    pub lines: usize,
    pub words: usize,
    pub chars: usize,
}

/// The number of words in the first `k` of `lines`.
pub open spec fn words_of(lines: Seq<String>, k: int) -> nat
    decreases k,
{
    if k <= 0 {
        0
    } else {
        words_of(lines, k - 1) + words_in(lines[k - 1]@)
    }
}

/// The number of bytes in the first `k` of `lines`, one line end for each
/// line counted in.
pub open spec fn bytes_of(lines: Seq<String>, k: int) -> nat
    decreases k,
{
    if k <= 0 {
        0
    } else {
        bytes_of(lines, k - 1) + encode_utf8(lines[k - 1]@).len() + 1
    }
}

/// Counts the lines, the words and the bytes of a text, given line by line
/// without the line ends; each line counts one byte more than it holds,
/// for its line end. Where the number of bytes does not fit in `usize`,
/// there is no count.
pub fn count(lines: &Vec<String>) -> (counts: Option<Counts>)
    ensures
        match counts {
            Some(counts) => {
                &&& counts.lines == lines@.len()
                &&& counts.words == words_of(lines@, lines@.len() as int)
                &&& counts.chars == bytes_of(lines@, lines@.len() as int)
            },
            None => bytes_of(lines@, lines@.len() as int) > usize::MAX,
        },
{
    let mut words: usize = 0;
    let mut chars: usize = 0;
    let mut i: usize = 0;
    while i < lines.len()
        invariant
            i <= lines@.len(),
            words == words_of(lines@, i as int),
            chars == bytes_of(lines@, i as int),
            words <= chars,
        decreases lines@.len() - i,
    {
        let line: &str = lines[i].as_str();
        let length: usize = line.as_bytes().len();
        assert(length == encode_utf8(lines@[i as int]@).len()) by {
            assert(line@ == lines@[i as int]@);
            assert(line.spec_bytes() == encode_utf8(line@));
        }
        if length >= usize::MAX - chars {
            proof {
                lemma_bytes_grow(lines@, i + 1, lines@.len() as int);
            }
            return None;
        }
        let in_line: usize = count_words(line);
        proof {
            lemma_words_before(line@, line@.len() as int);
            lemma_chars_within_bytes(line@);
            assert(in_line <= length);
        }
        words = words + in_line;
        chars = chars + length + 1;
        i += 1;
    }
    Some(Counts { lines: lines.len(), words, chars })
}

/// The bytes of more lines are no fewer.
pub proof fn lemma_bytes_grow(lines: Seq<String>, k: int, n: int)
    requires
        0 <= k <= n,
    ensures
        bytes_of(lines, k) <= bytes_of(lines, n),
    decreases n - k,
{
    if k < n {
        lemma_bytes_grow(lines, k, n - 1);
    }
}

/// A text takes at least one byte for each of its characters.
pub proof fn lemma_chars_within_bytes(s: Seq<char>)
    ensures
        s.len() <= encode_utf8(s).len(),
    decreases s.len(),
{
    reveal_with_fuel(encode_utf8, 2);
    if s.len() > 0 {
        lemma_chars_within_bytes(s.drop_first());
    }
}

} // verus!
