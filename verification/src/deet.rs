//! The commands of a small debugger, and the addresses that they name.

use crate::text::{chars_of, number, parse_number, same_text};
use vstd::prelude::*;
use vstd::string::*;

verus! {

/// A command of the debugger.
#[derive(Debug, PartialEq)]
pub enum DebuggerCommand {
    Quit,
    Run(Vec<String>),
    Continue,
    Backtrace,
    Break(String),
    Print,
}

/// A command as mathematical data.
pub ghost enum Command {
    Quit,
    Run(Seq<Seq<char>>),
    Continue,
    Backtrace,
    Break(Seq<char>),
    Print,
}

/// The texts of `strings`, in order.
pub open spec fn texts(strings: Seq<String>) -> Seq<Seq<char>> {
    Seq::new(strings.len(), |i: int| strings[i]@)
}

/// The texts of `tokens`, in order.
pub open spec fn token_texts(tokens: Seq<&str>) -> Seq<Seq<char>> {
    Seq::new(tokens.len(), |i: int| tokens[i]@)
}

impl View for DebuggerCommand {
    type V = Command;

    open spec fn view(&self) -> Command {
        match self {
            DebuggerCommand::Quit => Command::Quit,
            DebuggerCommand::Run(args) => Command::Run(texts(args@)),
            DebuggerCommand::Continue => Command::Continue,
            DebuggerCommand::Backtrace => Command::Backtrace,
            DebuggerCommand::Break(target) => Command::Break(target@),
            DebuggerCommand::Print => Command::Print,
        }
    }
}

/// The command that a line of the words `tokens` stands for. The first
/// word names the command, in full or in short: `q` or `quit`; `r` or `run`,
/// with the other words as arguments; `c`, `cont` or `continue`; `bt`,
/// `back` or `backtrace`; `b` or `break`, with the second word as target;
/// `p` or `print`. Anything else is no command, and so is a `break` without
/// target.
pub open spec fn command_of(tokens: Seq<Seq<char>>) -> Option<Command> {
    let name = tokens[0];
    if name == "q"@ || name == "quit"@ {
        Some(Command::Quit)
    } else if name == "r"@ || name == "run"@ {
        Some(Command::Run(tokens.skip(1)))
    } else if name == "c"@ || name == "cont"@ || name == "continue"@ {
        Some(Command::Continue)
    } else if name == "bt"@ || name == "back"@ || name == "backtrace"@ {
        Some(Command::Backtrace)
    } else if name == "b"@ || name == "break"@ {
        if tokens.len() < 2 {
            None
        } else {
            Some(Command::Break(tokens[1]))
        }
    } else if name == "p"@ || name == "print"@ {
        Some(Command::Print)
    } else {
        None
    }
}

impl DebuggerCommand {
    /// Reads a command off the words of a line, of which there is at least
    /// one.
    pub fn from_tokens(tokens: &Vec<&str>) -> (command: Option<DebuggerCommand>)
        requires
            tokens@.len() > 0,
        ensures
            match command {
                Some(command) => command_of(token_texts(tokens@)) == Some(command@),
                None => command_of(token_texts(tokens@)) is None,
            },
    {
        let name: &str = tokens[0];
        let ghost words = token_texts(tokens@);
        assert(words[0] == name@);
        if same_text(name, "q") || same_text(name, "quit") {
            Some(DebuggerCommand::Quit)
        } else if same_text(name, "r") || same_text(name, "run") {
            let mut args: Vec<String> = Vec::new();
            let mut i: usize = 1;
            while i < tokens.len()
                invariant
                    1 <= i <= tokens@.len(),
                    words == token_texts(tokens@),
                    texts(args@) == words.subrange(1, i as int),
                decreases tokens@.len() - i,
            {
                let arg: String = tokens[i].to_owned();
                assert(arg@ == words[i as int]);
                proof {
                    assert(texts(args@.push(arg)) =~= texts(args@).push(arg@));
                    assert(words.subrange(1, i as int).push(words[i as int]) =~= words.subrange(
                        1,
                        i + 1,
                    ));
                }
                args.push(arg);
                i += 1;
            }
            assert(words.subrange(1, i as int) == words.skip(1));
            Some(DebuggerCommand::Run(args))
        } else if same_text(name, "c") || same_text(name, "cont") || same_text(name, "continue") {
            Some(DebuggerCommand::Continue)
        } else if same_text(name, "bt") || same_text(name, "back") || same_text(name, "backtrace") {
            Some(DebuggerCommand::Backtrace)
        } else if same_text(name, "b") || same_text(name, "break") {
            if tokens.len() < 2 {
                None
            } else {
                let target: String = tokens[1].to_owned();
                assert(target@ == words[1]);
                Some(DebuggerCommand::Break(target))
            }
        } else if same_text(name, "p") || same_text(name, "print") {
            Some(DebuggerCommand::Print)
        } else {
            None
        }
    }
}

/// `s` starts with `0x` or `0X`.
pub open spec fn has_hex_prefix(s: Seq<char>) -> bool {
    s.len() >= 2 && s[0] == '0' && (s[1] == 'x' || s[1] == 'X')
}

/// The address that `s` denotes: a number in radix 16, with or without
/// `0x` in front.
pub open spec fn address_of(s: Seq<char>) -> Option<usize> {
    if has_hex_prefix(s) {
        number(s.skip(2), 16)
    } else {
        number(s, 16)
    }
}

/// Reads an address in hexadecimal, with or without `0x` in front.
pub fn parse_address(addr: &str) -> (address: Option<usize>)
    ensures
        address == address_of(addr@),
{
    let chars = chars_of(addr);
    let from: usize = if chars.len() >= 2 && chars[0] == '0' && (chars[1] == 'x' || chars[1]
        == 'X') {
        2
    } else {
        0
    };
    assert(chars@.subrange(0, chars@.len() as int) == chars@);
    parse_number(&chars, from, chars.len(), 16)
}

/// The number of bytes in a machine word.
pub open spec fn word_size() -> nat {
    (usize::BITS / 8) as nat
}

/// The address of the word that holds the byte at `addr`: the largest
/// multiple of the word size that is not above `addr`.
pub fn align_addr_to_word(addr: usize) -> (aligned: usize)
    ensures
        aligned == addr - (addr as int) % (word_size() as int),
        (aligned as int) % (word_size() as int) == 0,
        aligned <= addr < aligned + word_size(),
{
    let word: usize = (usize::BITS / 8) as usize;
    assert(word == 4 || word == 8) by {
        assert(usize::BITS == 32 || usize::BITS == 64);
    }
    let aligned: usize = addr - addr % word;
    assert((aligned as int) % (word as int) == 0) by {
        if word == 4 {
            assert((addr - (addr as int) % 4) % 4 == 0);
        } else {
            assert((addr - (addr as int) % 8) % 8 == 0);
        }
    }
    aligned
}

/// What the target of a `break` command names.
#[derive(Debug, PartialEq)]
pub enum BreakpointTarget {
    /// The address behind a `*`.
    Address(usize),
    /// A `*` with no address behind it.
    InvalidAddress,
    /// A line of the source, by its number.
    Line(usize),
    /// A function, by its name.
    Function(String),
}

/// A `BreakpointTarget` as mathematical data.
pub ghost enum Target {
    Address(usize),
    InvalidAddress,
    Line(usize),
    Function(Seq<char>),
}

impl View for BreakpointTarget {
    type V = Target;

    open spec fn view(&self) -> Target {
        match self {
            BreakpointTarget::Address(address) => Target::Address(*address),
            BreakpointTarget::InvalidAddress => Target::InvalidAddress,
            BreakpointTarget::Line(line) => Target::Line(*line),
            BreakpointTarget::Function(name) => Target::Function(name@),
        }
    }
}

/// What the target `s` of a `break` command names: behind a `*` an address
/// in hexadecimal; else a line, where `s` is a number in decimal; else the
/// function of that name.
pub open spec fn target_of(s: Seq<char>) -> Target {
    if s.len() > 0 && s[0] == '*' {
        match address_of(s.skip(1)) {
            Some(address) => Target::Address(address),
            None => Target::InvalidAddress,
        }
    } else {
        match number(s, 10) {
            Some(line) => Target::Line(line),
            None => Target::Function(s),
        }
    }
}

/// Tells what the target of a `break` command names.
pub fn breakpoint_target(target: &str) -> (named: BreakpointTarget)
    ensures
        named@ == target_of(target@),
{
    let chars = chars_of(target);
    assert(chars@.subrange(0, chars@.len() as int) == chars@);
    if chars.len() > 0 && chars[0] == '*' {
        let from: usize = if chars.len() >= 3 && chars[1] == '0' && (chars[2] == 'x' || chars[2]
            == 'X') {
            3
        } else {
            1
        };
        let ghost rest = chars@.skip(1);
        assert(has_hex_prefix(rest) <==> from == 3);
        assert(chars@.subrange(from as int, chars@.len() as int) == if has_hex_prefix(rest) {
            rest.skip(2)
        } else {
            rest
        });
        match parse_number(&chars, from, chars.len(), 16) {
            Some(address) => BreakpointTarget::Address(address),
            None => BreakpointTarget::InvalidAddress,
        }
    } else {
        match parse_number(&chars, 0, chars.len(), 10) {
            Some(line) => BreakpointTarget::Line(line),
            None => BreakpointTarget::Function(target.to_owned()),
        }
    }
}

/// The byte at place `offset` of `word`, the lowest byte at place 0.
pub open spec fn byte_at(word: u64, offset: u64) -> u8 {
    ((word >> (8 * offset)) & 0xff) as u8
}

/// The byte at place `offset` of `word`, the lowest byte at place 0.
pub fn byte_of(word: u64, offset: u64) -> (byte: u8)
    requires
        offset < 8,
    ensures
        byte == byte_at(word, offset),
{
    let shifted: u64 = (word >> (8 * offset)) & 0xff;
    assert(shifted < 256) by (bit_vector)
        requires
            shifted == (word >> (8 * offset)) & 0xff,
    ;
    shifted as u8
}

/// `word` with the byte at place `offset` replaced by `val`: that byte is
/// `val` then, and every other byte is what it was.
pub fn with_byte(word: u64, offset: u64, val: u8) -> (updated: u64)
    requires
        offset < 8,
    ensures
        updated == (word & !(0xffu64 << (8 * offset))) | ((val as u64) << (8 * offset)),
        byte_at(updated, offset) == val,
        forall|other: u64| other < 8 && other != offset ==> byte_at(updated, other) == byte_at(word, other),
{
    let masked: u64 = word & !(0xffu64 << (8 * offset));
    let updated: u64 = masked | ((val as u64) << (8 * offset));
    assert(((updated >> (8 * offset)) & 0xff) as u8 == val) by (bit_vector)
        requires
            offset < 8,
            updated == (word & !(0xffu64 << (8 * offset))) | ((val as u64) << (8 * offset)),
    ;
    assert forall|other: u64| other < 8 && other != offset implies byte_at(updated, other)
        == byte_at(word, other) by {
        assert(((updated >> (8 * other)) & 0xff) as u8 == ((word >> (8 * other)) & 0xff) as u8)
            by (bit_vector)
            requires
                offset < 8,
                other < 8,
                other != offset,
                updated == (word & !(0xffu64 << (8 * offset))) | ((val as u64) << (8 * offset)),
        ;
    }
    updated
}

} // verus!
