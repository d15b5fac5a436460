//! Text as sequences of characters: white space, scanning, and numbers in
//! a given radix.

use vstd::prelude::*;
use vstd::string::*;

verus! {

/// The characters of `s`.
pub fn chars_of(s: &str) -> (chars: Vec<char>)
    ensures
        chars@ == s@,
{
    let mut chars: Vec<char> = Vec::new();
    for c in iter: s.chars()
        invariant
            chars@ == s@.take(iter.index() as int),
            iter.seq() == s@,
    {
        chars.push(c);
        assert(s@.take(iter.index() + 1) == s@.take(iter.index() as int).push(c));
    }
    assert(s@.take(s@.len() as int) == s@);
    chars
}

/// Tells whether `a` and `b` hold the same characters.
pub fn same_text(a: &str, b: &str) -> (same: bool)
    ensures
        same == (a@ == b@),
{
    a.to_owned() == b.to_owned()
}

/// `c` is white space as Unicode defines it.
pub open spec fn is_white(c: char) -> bool {
    let u = c as u32;
    ||| 0x09 <= u <= 0x0d
    ||| u == 0x20
    ||| u == 0x85
    ||| u == 0xa0
    ||| u == 0x1680
    ||| 0x2000 <= u <= 0x200a
    ||| u == 0x2028
    ||| u == 0x2029
    ||| u == 0x202f
    ||| u == 0x205f
    ||| u == 0x3000
}

/// Tells whether `c` is white space.
pub fn is_whitespace(c: char) -> (white: bool)
    ensures
        white == is_white(c),
{
    let u: u32 = c as u32;
    (0x09 <= u && u <= 0x0d) || u == 0x20 || u == 0x85 || u == 0xa0 || u == 0x1680 || (0x2000 <= u
        && u <= 0x200a) || u == 0x2028 || u == 0x2029 || u == 0x202f || u == 0x205f || u == 0x3000
}

/// The first place at or behind `from` where `s` holds white space, if
/// `white`, or something else, if not; the length of `s` where there is no
/// such place.
pub open spec fn scan(s: Seq<char>, from: int, white: bool) -> int
    decreases s.len() - from,
{
    if from < 0 || from >= s.len() {
        s.len() as int
    } else if is_white(s[from]) == white {
        from
    } else {
        scan(s, from + 1, white)
    }
}

/// `scan` stops in range, at the first place of the kind it looks for.
pub proof fn lemma_scan(s: Seq<char>, from: int, white: bool)
    requires
        0 <= from <= s.len(),
    ensures
        from <= scan(s, from, white) <= s.len(),
        scan(s, from, white) < s.len() ==> is_white(s[scan(s, from, white)]) == white,
        forall|k: int| from <= k < scan(s, from, white) ==> is_white(#[trigger] s[k]) != white,
    decreases s.len() - from,
{
    if from < s.len() && is_white(s[from]) != white {
        lemma_scan(s, from + 1, white);
    }
}

/// Finds the first place at or behind `from` where `chars` holds white
/// space, if `white`, or something else, if not.
pub fn scan_for(chars: &Vec<char>, from: usize, white: bool) -> (at: usize)
    requires
        from <= chars@.len(),
    ensures
        at == scan(chars@, from as int, white),
        from <= at <= chars@.len(),
{
    let mut at: usize = from;
    while at < chars.len() && is_whitespace(chars[at]) != white
        invariant
            from <= at <= chars@.len(),
            scan(chars@, from as int, white) == scan(chars@, at as int, white),
        decreases chars@.len() - at,
    {
        at += 1;
    }
    at
}

/// The first place at or behind `from` where `s` holds `c`; the length of
/// `s` where it does not.
pub open spec fn index_of(s: Seq<char>, c: char, from: int) -> int
    decreases s.len() - from,
{
    if from < 0 || from >= s.len() {
        s.len() as int
    } else if s[from] == c {
        from
    } else {
        index_of(s, c, from + 1)
    }
}

/// Where `s` ends once the white space at its end is taken off, but not
/// before `from`.
pub open spec fn end_of_text(s: Seq<char>, from: int) -> int
    decreases s.len(),
{
    if s.len() <= from || s.len() == 0 {
        from
    } else if is_white(s.last()) {
        end_of_text(s.drop_last(), from)
    } else {
        s.len() as int
    }
}

/// Finds where `chars` ends once the white space at its end is taken off,
/// but not before `from`.
pub fn trim_end_from(chars: &Vec<char>, from: usize) -> (end: usize)
    requires
        from <= chars@.len(),
    ensures
        end == end_of_text(chars@, from as int),
        from <= end <= chars@.len(),
{
    let mut end: usize = chars.len();
    assert(chars@.take(end as int) == chars@);
    while end > from && is_whitespace(chars[end - 1])
        invariant
            from <= end <= chars@.len(),
            end_of_text(chars@, from as int) == end_of_text(chars@.take(end as int), from as int),
        decreases end,
    {
        assert(chars@.take(end as int).drop_last() == chars@.take(end - 1));
        end -= 1;
    }
    end
}

/// The worth of `c` as a digit: 0 to 9 for the digits, 10 to 35 for the
/// letters, small or capital.
pub open spec fn digit_of(c: char) -> Option<nat> {
    let u = c as u32;
    if 48 <= u <= 57 {
        Some((u - 48) as nat)
    } else if 97 <= u <= 122 {
        Some((u - 97 + 10) as nat)
    } else if 65 <= u <= 90 {
        Some((u - 65 + 10) as nat)
    } else {
        None
    }
}

/// Every character of `s` is a digit in the radix `radix`.
pub open spec fn all_digits(s: Seq<char>, radix: nat) -> bool {
    forall|i: int|
        0 <= i < s.len() ==> (digit_of(#[trigger] s[i]) matches Some(d) && d < radix)
}

/// The number that the digits of `s` denote in the radix `radix`, most
/// significant digit first.
pub open spec fn digits_value(s: Seq<char>, radix: nat) -> nat
    decreases s.len(),
{
    if s.len() == 0 {
        0
    } else {
        digits_value(s.drop_last(), radix) * radix + match digit_of(s.last()) {
            Some(d) => d,
            None => 0,
        }
    }
}

/// `s` without a single leading `+`, if it has one.
pub open spec fn unsigned_part(s: Seq<char>) -> Seq<char> {
    if s.len() > 0 && s[0] == '+' {
        s.subrange(1, s.len() as int)
    } else {
        s
    }
}

/// The number that `s` denotes in the radix `radix`, if it is an optional
/// `+` followed by at least one digit and nothing else, and the number fits
/// in `usize`.
pub open spec fn number(s: Seq<char>, radix: nat) -> Option<usize> {
    let digits = unsigned_part(s);
    if digits.len() > 0 && all_digits(digits, radix) && digits_value(digits, radix) <= usize::MAX {
        Some(digits_value(digits, radix) as usize)
    } else {
        None
    }
}

/// A number never gets smaller when more digits follow.
pub proof fn lemma_digits_value_grows(s: Seq<char>, radix: nat, k: int)
    requires
        0 <= k <= s.len(),
        radix >= 1,
    ensures
        digits_value(s.take(k), radix) <= digits_value(s, radix),
    decreases s.len() - k,
{
    if k < s.len() {
        lemma_digits_value_grows(s, radix, k + 1);
        assert(s.take(k + 1).drop_last() == s.take(k));
        let v = digits_value(s.take(k), radix);
        assert(v <= v * radix) by (nonlinear_arith)
            requires
                radix >= 1,
                v >= 0,
        ;
    } else {
        assert(s.take(k) == s);
    }
}

/// The worth of `c` as a digit.
pub fn digit(c: char) -> (d: Option<u32>)
    ensures
        match d {
            Some(d) => digit_of(c) == Some(d as nat),
            None => digit_of(c) is None,
        },
{
    let u: u32 = c as u32;
    if 48 <= u && u <= 57 {
        Some(u - 48)
    } else if 97 <= u && u <= 122 {
        Some(u - 97 + 10)
    } else if 65 <= u && u <= 90 {
        Some(u - 65 + 10)
    } else {
        None
    }
}

/// Reads the number that the characters of `chars` from `from` up to `to`
/// denote in the radix `radix`.
pub fn parse_number(chars: &Vec<char>, from: usize, to: usize, radix: u32) -> (r: Option<usize>)
    requires
        from <= to <= chars@.len(),
        2 <= radix <= 36,
    ensures
        r == number(chars@.subrange(from as int, to as int), radix as nat),
{
    let ghost text = chars@.subrange(from as int, to as int);
    let start: usize = if from < to && chars[from] == '+' {
        from + 1
    } else {
        from
    };
    let ghost digits = unsigned_part(text);
    assert(digits == chars@.subrange(start as int, to as int));
    if start == to {
        return None;
    }
    let mut value: usize = 0;
    let mut i: usize = start;
    while i < to
        invariant
            from <= start <= i <= to <= chars@.len(),
            2 <= radix <= 36,
            text == chars@.subrange(from as int, to as int),
            digits == chars@.subrange(start as int, to as int),
            digits == unsigned_part(text),
            all_digits(digits.take(i - start), radix as nat),
            value == digits_value(digits.take(i - start), radix as nat),
        decreases to - i,
    {
        let c: char = chars[i];
        assert(c == digits[i - start]);
        let d: usize = match digit(c) {
            Some(d) => {
                if d >= radix {
                    assert(!(digit_of(digits[i - start]) matches Some(d) && d < radix));
                    assert(!all_digits(digits, radix as nat));
                    return None;
                }
                d as usize
            },
            None => {
                assert(!(digit_of(digits[i - start]) matches Some(d) && d < radix));
                assert(!all_digits(digits, radix as nat));
                return None;
            },
        };
        let ghost next = digits.take(i - start + 1);
        assert(next.drop_last() == digits.take(i - start));
        assert(next.last() == c);
        assert(all_digits(next, radix as nat)) by {
            assert forall|j: int| 0 <= j < next.len() implies (digit_of(#[trigger] next[j]) matches Some(
                d,
            ) && d < radix) by {
                if j < next.len() - 1 {
                    assert(next[j] == digits.take(i - start)[j]);
                }
            }
        }
        let limit: usize = (usize::MAX - d) / (radix as usize);
        if value > limit {
            proof {
                assert(digits_value(next, radix as nat) == value * radix + d);
                assert(value * radix + d > usize::MAX) by (nonlinear_arith)
                    requires
                        value > (usize::MAX - d) / (radix as int),
                        radix >= 2,
                        d >= 0,
                ;
                lemma_digits_value_grows(digits, radix as nat, i - start + 1);
            }
            return None;
        }
        assert(value * radix + d <= usize::MAX) by (nonlinear_arith)
            requires
                value <= (usize::MAX - d) / (radix as int),
                radix >= 2,
                d <= usize::MAX,
                value >= 0,
        ;
        value = value * (radix as usize) + d;
        i += 1;
    }
    assert(digits.take(i - start) == digits);
    Some(value)
}

} // verus!
