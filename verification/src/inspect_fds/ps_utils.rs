//! Reading what `ps` and `pgrep` print.

use crate::inspect_fds::process::Process;
use crate::text::{
    chars_of, end_of_text, index_of, is_white, lemma_scan, number, parse_number, scan, scan_for,
    trim_end_from,
};
use vstd::prelude::*;
use vstd::string::*;

verus! {

/// Why no process could be told.
#[derive(Debug, PartialEq)]
pub enum Error {
    /// `ps` or `pgrep` could not be run; the text says why.
    ExecutableError(String),
    /// What was printed is not of the form that was asked for; the text
    /// says what is wrong.
    OutputFormatError(&'static str),
}

impl Error {
    /// The error in words.
    pub fn to_string(&self) -> (words: String)
        ensures
            words@ == match self {
                Error::ExecutableError(err) => "Error executing ps: "@ + err@,
                Error::OutputFormatError(err) => "ps printed malformed output: "@ + err@,
            },
    {
        match self {
            Error::ExecutableError(err) => {
                let mut words = String::from_str("Error executing ps: ");
                words.append(err.as_str());
                words
            },
            Error::OutputFormatError(err) => {
                let mut words = String::from_str("ps printed malformed output: ");
                words.append(err);
                words
            },
        }
    }
}

/// What a line of `ps` holds, or what is wrong with it.
pub ghost enum PsLine {
    Process { pid: usize, ppid: usize, command: Seq<char> },
    Malformed(Seq<char>),
}

/// What the line `s` of `ps` holds. White space at both ends does not
/// count. The first word is the id of the process and the second that of
/// its parent, both in decimal; the command is what follows the white space
/// behind the second word.
pub open spec fn ps_line(s: Seq<char>) -> PsLine {
    let start = scan(s, 0, false);
    let end = end_of_text(s, start);
    let pid_end = scan(s, start, true);
    if pid_end >= end {
        PsLine::Malformed("Missing second column"@)
    } else {
        match number(s.subrange(start, pid_end), 10) {
            None => PsLine::Malformed("Error parsing integer"@),
            Some(pid) => {
                let ppid_start = scan(s, pid_end, false);
                let ppid_end = scan(s, ppid_start, true);
                if ppid_end >= end {
                    PsLine::Malformed("Missing third column"@)
                } else {
                    match number(s.subrange(ppid_start, ppid_end), 10) {
                        None => PsLine::Malformed("Error parsing integer"@),
                        Some(ppid) => PsLine::Process {
                            pid,
                            ppid,
                            command: s.subrange(scan(s, ppid_end, false), end),
                        },
                    }
                }
            },
        }
    }
}

/// A result of reading a line says what `line` holds.
pub open spec fn tells(r: Result<Process, Error>, line: PsLine) -> bool {
    match r {
        Ok(process) => line == (PsLine::Process {
            pid: process.pid,
            ppid: process.ppid,
            command: process.command@,
        }),
        Err(Error::OutputFormatError(message)) => line == PsLine::Malformed(message@),
        Err(Error::ExecutableError(_)) => false,
    }
}

/// The text never ends before it starts, and where it ends it holds no
/// white space just before.
pub proof fn lemma_end_of_text(s: Seq<char>, from: int)
    requires
        0 <= from <= s.len(),
    ensures
        from <= end_of_text(s, from) <= s.len(),
        end_of_text(s, from) > from ==> !is_white(s[end_of_text(s, from) - 1]),
    decreases s.len(),
{
    if s.len() > from && s.len() > 0 && is_white(s.last()) {
        lemma_end_of_text(s.drop_last(), from);
    }
}

/// Reads a line that `ps` printed for the format `pid= ppid= command=`,
/// such as `  578   577 emacs inode.c`.
pub fn parse_ps_line(line: &str) -> (r: Result<Process, Error>)
    ensures
        tells(r, ps_line(line@)),
{
    let chars = chars_of(line);
    let start: usize = scan_for(&chars, 0, false);
    let end: usize = trim_end_from(&chars, start);
    let pid_end: usize = scan_for(&chars, start, true);
    if pid_end >= end {
        return Err(Error::OutputFormatError("Missing second column"));
    }
    let pid: usize = match parse_number(&chars, start, pid_end, 10) {
        Some(pid) => pid,
        None => {
            return Err(Error::OutputFormatError("Error parsing integer"));
        },
    };
    let ppid_start: usize = scan_for(&chars, pid_end, false);
    let ppid_end: usize = scan_for(&chars, ppid_start, true);
    if ppid_end >= end {
        return Err(Error::OutputFormatError("Missing third column"));
    }
    let ppid: usize = match parse_number(&chars, ppid_start, ppid_end, 10) {
        Some(ppid) => ppid,
        None => {
            return Err(Error::OutputFormatError("Error parsing integer"));
        },
    };
    let command_start: usize = scan_for(&chars, ppid_end, false);
    proof {
        lemma_end_of_text(chars@, start as int);
        lemma_scan(chars@, ppid_end as int, false);
        if command_start > end {
            assert(is_white(chars@[end - 1]));
        }
    }
    let command: String = line.substring_char(command_start, end).to_owned();
    Ok(Process::new(pid, ppid, command))
}

/// What `ps` printed for one process: nothing but white space where there
/// is no such process, its line where there is.
pub open spec fn ps_output(s: Seq<char>) -> Option<PsLine> {
    if scan(s, 0, false) >= s.len() {
        None
    } else {
        Some(ps_line(s))
    }
}

/// Tells the process that `ps` was asked for from `output`, what it
/// printed: `Ok(None)` where it printed nothing, which says that there is
/// no such process.
pub fn get_process(output: &str) -> (r: Result<Option<Process>, Error>)
    ensures
        match r {
            Ok(None) => ps_output(output@) is None,
            Ok(Some(process)) => ps_output(output@) matches Some(line) && tells(Ok(process), line),
            Err(error) => ps_output(output@) matches Some(line) && tells(Err(error), line),
        },
{
    let chars = chars_of(output);
    if scan_for(&chars, 0, false) >= chars.len() {
        Ok(None)
    } else {
        match parse_ps_line(output) {
            Ok(process) => Ok(Some(process)),
            Err(error) => Err(error),
        }
    }
}

/// The first line of `s`, without its line end; none where `s` is empty.
pub open spec fn first_line(s: Seq<char>) -> Option<Seq<char>> {
    if s.len() == 0 {
        None
    } else {
        Some(s.subrange(0, line_end(s, 0)))
    }
}

/// Tells the id of the first process that `pgrep` found from `output`, what
/// it printed: one id to a line. `Ok(None)` where it printed nothing, which
/// says that no process has the name that was asked for.
pub fn get_pid_by_command_name(output: &str) -> (r: Result<Option<usize>, Error>)
    ensures
        match first_line(output@) {
            None => r == Ok::<Option<usize>, Error>(None),
            Some(line) => match number(line, 10) {
                Some(pid) => r == Ok::<Option<usize>, Error>(Some(pid)),
                None => r matches Err(Error::OutputFormatError(message)) && message@
                    == "Error parsing integer"@,
            },
        },
{
    let chars = chars_of(output);
    if chars.len() == 0 {
        return Ok(None);
    }
    let mut feed: usize = 0;
    while feed < chars.len() && chars[feed] != '\n'
        invariant
            feed <= chars@.len(),
            index_of(chars@, '\n', 0)
                == index_of(chars@, '\n', feed as int),
        decreases chars@.len() - feed,
    {
        feed += 1;
    }
    let end: usize = if 0 < feed && feed < chars.len() && chars[feed - 1] == '\r' {
        feed - 1
    } else {
        feed
    };
    match parse_number(&chars, 0, end, 10) {
        Some(pid) => Ok(Some(pid)),
        None => Err(Error::OutputFormatError("Error parsing integer")),
    }
}

/// The id of the process that `query` asks for: the one that `pgrep` found
/// under that name, if it found one, and else the number that `query`
/// itself is, if it is one.
pub fn get_target(query: &str, pid_by_command: Option<usize>) -> (pid: Option<usize>)
    ensures
        pid == match pid_by_command {
            Some(pid) => Some(pid),
            None => number(query@, 10),
        },
{
    match pid_by_command {
        Some(pid) => Some(pid),
        None => {
            let chars = chars_of(query);
            assert(chars@.subrange(0, chars@.len() as int) == chars@);
            parse_number(&chars, 0, chars.len(), 10)
        },
    }
}

/// Where the line that starts at `from` ends, its line end not counted:
/// before the line feed, or before the carriage return that stands just
/// before the line feed.
pub open spec fn line_end(s: Seq<char>, from: int) -> int {
    let feed = index_of(s, '\n', from);
    if from < feed < s.len() && s[feed - 1] == '\r' {
        feed - 1
    } else {
        feed
    }
}

/// The lines of `s` from `from` on, without their line ends. A line ends
/// with a line feed, or with the text.
pub open spec fn lines_from(s: Seq<char>, from: int) -> Seq<Seq<char>>
    decreases s.len() - from,
{
    if from < 0 || from >= s.len() {
        Seq::empty()
    } else {
        let feed = index_of(s, '\n', from);
        if from <= feed < s.len() {
            seq![s.subrange(from, line_end(s, from))] + lines_from(s, feed + 1)
        } else {
            seq![s.subrange(from, line_end(s, from))]
        }
    }
}

/// What the lines `lines` of `ps` hold, in order, up to the first line
/// that is malformed.
pub open spec fn ps_lines(lines: Seq<Seq<char>>) -> Seq<PsLine>
    decreases lines.len(),
{
    if lines.len() == 0 {
        Seq::empty()
    } else {
        match ps_line(lines[0]) {
            PsLine::Malformed(message) => seq![PsLine::Malformed(message)],
            process => seq![process] + ps_lines(lines.skip(1)),
        }
    }
}

/// Tells the processes that `ps` listed from `output`, what it printed,
/// one process to a line: all of them in order, or what is wrong with the
/// first line that is malformed.
pub fn get_child_processes(output: &str) -> (r: Result<Vec<Process>, Error>)
    ensures
        match r {
            Ok(processes) => {
                &&& ps_lines(lines_from(output@, 0)).len() == processes@.len()
                &&& forall|i: int|
                    0 <= i < processes@.len() ==> tells(
                        Ok(#[trigger] processes@[i]),
                        ps_lines(lines_from(output@, 0))[i],
                    )
            },
            Err(error) => ps_lines(lines_from(output@, 0)).len() > 0 && tells(
                Err(error),
                ps_lines(lines_from(output@, 0)).last(),
            ),
        },
{
    let chars = chars_of(output);
    let mut processes: Vec<Process> = Vec::new();
    let mut from: usize = 0;
    let ghost all = ps_lines(lines_from(chars@, 0));
    let ghost mut done: Seq<PsLine> = Seq::empty();
    loop
        invariant
            from <= chars@.len(),
            chars@ == output@,
            all == ps_lines(lines_from(chars@, 0)),
            all == done + ps_lines(lines_from(chars@, from as int)),
            done.len() == processes@.len(),
            forall|i: int| 0 <= i < processes@.len() ==> tells(Ok(#[trigger] processes@[i]), done[i]),
        decreases chars@.len() - from,
    {
        if from >= chars.len() {
            assert(done + Seq::<PsLine>::empty() == done);
            return Ok(processes);
        }
        let mut feed: usize = from;
        while feed < chars.len() && chars[feed] != '\n'
            invariant
                from <= feed <= chars@.len(),
                index_of(chars@, '\n', from as int)
                    == index_of(chars@, '\n', feed as int),
            decreases chars@.len() - feed,
        {
            feed += 1;
        }
        let end: usize = if from < feed && feed < chars.len() && chars[feed - 1] == '\r' {
            feed - 1
        } else {
            feed
        };
        let ghost line = chars@.subrange(from as int, end as int);
        let ghost lines = lines_from(chars@, from as int);
        let ghost rest = if feed < chars@.len() {
            lines_from(chars@, feed + 1)
        } else {
            Seq::<Seq<char>>::empty()
        };
        proof {
            assert(lines == seq![line] + rest);
            assert(lines[0] == line);
            assert(lines.skip(1) == rest);
        }
        let text = output.substring_char(from, end);
        match parse_ps_line(text) {
            Err(error) => {
                proof {
                    assert(ps_lines(lines) == seq![ps_line(line)]);
                    assert(all.last() == ps_line(line));
                }
                return Err(error);
            },
            Ok(process) => {
                proof {
                    assert(ps_lines(lines) == seq![ps_line(line)] + ps_lines(rest));
                    assert(done + (seq![ps_line(line)] + ps_lines(rest)) == done.push(ps_line(line))
                        + ps_lines(rest));
                    done = done.push(ps_line(line));
                }
                processes.push(process);
                if feed < chars.len() {
                    from = feed + 1;
                } else {
                    from = feed;
                }
            },
        }
    }
}

} // verus!
