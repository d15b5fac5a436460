//! The game of hangman: a secret word is guessed letter by letter, and only
//! so many guesses may miss.

use crate::random::{entropy_rng, roll_below};
use crate::text::{chars_of, end_of_text, index_of, scan, scan_for, trim_end_from};
use vstd::string::*;
use vstd::prelude::*;

verus! {

/// The number of guesses that may miss.
pub const NUM_INCORRECT_GUESSES: u32 = 5;

/// The sign that stands for a letter not yet guessed.
pub const HIDDEN: char = '_';

/// Why a line is no guess.
#[derive(Debug, Clone, Copy, PartialEq, Eq, Structural)]
pub enum GuessError {
    /// The line does not hold exactly one character of one byte.
    NotOneCharacter,
    /// The character is no letter.
    NotALetter,
}

/// `c` is one of the letters `a` to `z` or `A` to `Z`.
pub open spec fn is_letter(c: char) -> bool {
    ('a' <= c && c <= 'z') || ('A' <= c && c <= 'Z')
}

/// The small letter that goes with the letter `c`.
pub open spec fn small(c: char) -> char {
    if 'A' <= c && c <= 'Z' {
        ((c as u8) + 32) as char
    } else {
        c
    }
}

/// The guess that the line `line` holds. White space at both ends does not
/// count. What is left has to be one character that takes one byte, and a
/// letter; the guess is that letter as a small letter.
pub open spec fn guess_of(line: Seq<char>) -> Result<char, GuessError> {
    let start = scan(line, 0, false);
    let end = end_of_text(line, start);
    if end - start != 1 || line[start] as u32 >= 128 {
        Err(GuessError::NotOneCharacter)
    } else if !is_letter(line[start]) {
        Err(GuessError::NotALetter)
    } else {
        Ok(small(line[start]))
    }
}

/// Reads a guess off a line that the player typed.
pub fn read_guess(line: &str) -> (guess: Result<char, GuessError>)
    ensures
        guess == guess_of(line@),
{
    let chars = chars_of(line);
    let start: usize = scan_for(&chars, 0, false);
    let end: usize = trim_end_from(&chars, start);
    if end - start != 1 {
        return Err(GuessError::NotOneCharacter);
    }
    let c: char = chars[start];
    if c as u32 >= 128 {
        return Err(GuessError::NotOneCharacter);
    }
    if 'A' <= c && c <= 'Z' {
        Ok(((c as u8) + 32) as char)
    } else if 'a' <= c && c <= 'z' {
        Ok(c)
    } else {
        Err(GuessError::NotALetter)
    }
}

/// A game as mathematical data: the secret word, what is shown of it, the
/// letters guessed so far, and the number of guesses that may still miss.
pub ghost struct GameData {
    pub secret: Seq<char>,
    pub shown: Seq<char>,
    pub guessed: Seq<char>,
    pub guesses_left: nat,
}

/// What is shown has a place for each letter of the secret word, and each
/// place shows the letter or hides it.
pub open spec fn consistent(game: GameData) -> bool {
    &&& game.shown.len() == game.secret.len()
    &&& forall|i: int|
        0 <= i < game.shown.len() ==> (#[trigger] game.shown[i]) == HIDDEN || game.shown[i]
            == game.secret[i]
}

/// The first place at or behind `from` that hides the letter `c`; the
/// length of the word where no place does.
pub open spec fn first_hidden(game: GameData, c: char, from: int) -> int
    decreases game.secret.len() - from,
{
    if from < 0 || from >= game.secret.len() {
        game.secret.len() as int
    } else if game.secret[from] == c && game.shown[from] == HIDDEN {
        from
    } else {
        first_hidden(game, c, from + 1)
    }
}

/// The game after the letter `c` was guessed. The guess is noted. Where a
/// place hides `c`, the first such place shows it; where none does, one
/// guess fewer may miss.
pub open spec fn after_guess(game: GameData, c: char) -> GameData {
    let at = first_hidden(game, c, 0);
    if at < game.secret.len() {
        GameData { shown: game.shown.update(at, c), guessed: game.guessed.push(c), ..game }
    } else {
        GameData {
            guessed: game.guessed.push(c),
            guesses_left: if game.guesses_left > 0 {
                (game.guesses_left - 1) as nat
            } else {
                0
            },
            ..game
        }
    }
}

/// The word is guessed: every letter shows.
pub open spec fn won(game: GameData) -> bool {
    game.shown == game.secret
}

/// A game of hangman.
pub struct Game {
    secret: Vec<char>,
    shown: Vec<char>,
    guessed: Vec<char>,
    guesses_left: u32,
}

impl View for Game {
    type V = GameData;

    closed spec fn view(&self) -> GameData {
        GameData {
            secret: self.secret@,
            shown: self.shown@,
            guessed: self.guessed@,
            guesses_left: self.guesses_left as nat,
        }
    }
}

impl Game {
    #[verifier::type_invariant]
    spec fn well_formed(self) -> bool {
        consistent(self@)
    }

    /// A new game for the word `secret`: every letter is hidden, and
    /// `NUM_INCORRECT_GUESSES` guesses may miss.
    pub fn new(secret: &str) -> (game: Game)
        ensures
            game@.secret == secret@,
            game@.shown == Seq::new(secret@.len(), |i: int| HIDDEN),
            game@.guessed == Seq::<char>::empty(),
            game@.guesses_left == NUM_INCORRECT_GUESSES,
            consistent(game@),
    {
        let secret = chars_of(secret);
        let mut shown: Vec<char> = Vec::new();
        let mut i: usize = 0;
        while i < secret.len()
            invariant
                i <= secret@.len(),
                shown@ == Seq::new(i as nat, |j: int| HIDDEN),
            decreases secret@.len() - i,
        {
            shown.push(HIDDEN);
            assert(shown@ =~= Seq::new((i + 1) as nat, |j: int| HIDDEN));
            i += 1;
        }
        Game { secret, shown, guessed: Vec::new(), guesses_left: NUM_INCORRECT_GUESSES }
    }

    /// What is shown of the word.
    pub fn shown(&self) -> (shown: &Vec<char>)
        ensures
            shown@ == self@.shown,
            consistent(self@),
    {
        proof {
            use_type_invariant(self);
        }
        &self.shown
    }

    /// The letters guessed so far, in the order of the guesses.
    pub fn guessed(&self) -> (guessed: &Vec<char>)
        ensures
            guessed@ == self@.guessed,
    {
        &self.guessed
    }

    /// The number of guesses that may still miss.
    pub fn guesses_left(&self) -> (left: u32)
        ensures
            left == self@.guesses_left,
    {
        self.guesses_left
    }

    /// Tells whether the word is guessed.
    pub fn is_won(&self) -> (r: bool)
        ensures
            r == won(self@),
    {
        proof {
            use_type_invariant(self);
        }
        let mut i: usize = 0;
        while i < self.secret.len()
            invariant
                i <= self.secret@.len(),
                self.shown@.len() == self.secret@.len(),
                forall|j: int| 0 <= j < i ==> self.shown@[j] == self.secret@[j],
            decreases self.secret@.len() - i,
        {
            if self.shown[i] != self.secret[i] {
                return false;
            }
            i += 1;
        }
        assert(self.shown@ =~= self.secret@);
        true
    }

    /// Tells whether the game goes on: the word is not guessed, and a guess
    /// may still miss.
    pub fn goes_on(&self) -> (r: bool)
        ensures
            r == (!won(self@) && self@.guesses_left > 0),
    {
        !self.is_won() && self.guesses_left > 0
    }

    /// Takes the guess `c`, and tells whether it hit.
    pub fn guess(self, c: char) -> (r: (Game, bool))
        ensures
            r.0@ == after_guess(self@, c),
            r.1 == (first_hidden(self@, c, 0) < self@.secret.len()),
            consistent(r.0@),
    {
        proof {
            use_type_invariant(&self);
        }
        let ghost before = self@;
        let Game { secret, shown, guessed, guesses_left } = self;
        let mut shown = shown;
        let mut guessed = guessed;
        guessed.push(c);
        let mut i: usize = 0;
        while i < secret.len()
            invariant
                i <= secret@.len(),
                before == self@,
                secret@ == before.secret,
                shown@ == before.shown,
                guessed@ == before.guessed.push(c),
                guesses_left == before.guesses_left,
                consistent(before),
                first_hidden(before, c, 0) == first_hidden(before, c, i as int),
            decreases secret@.len() - i,
        {
            if secret[i] == c && shown[i] == HIDDEN {
                shown.set(i, c);
                return (Game { secret, shown, guessed, guesses_left }, true);
            }
            i += 1;
        }
        let guesses_left: u32 = if guesses_left > 0 {
            guesses_left - 1
        } else {
            0
        };
        (Game { secret, shown, guessed, guesses_left }, false)
    }
}

/// The pieces of `s` from `from` on that line feeds part; the text behind
/// the last line feed is a piece too, though it be empty.
pub open spec fn pieces_from(s: Seq<char>, from: int) -> Seq<Seq<char>>
    decreases s.len() - from,
{
    let feed = index_of(s, '\n', from);
    if 0 <= from <= feed < s.len() {
        seq![s.subrange(from, feed)] + pieces_from(s, feed + 1)
    } else {
        seq![s.subrange(from, s.len() as int)]
    }
}

/// `s` without the white space at its ends.
pub open spec fn trimmed(s: Seq<char>) -> Seq<char> {
    s.subrange(scan(s, 0, false), end_of_text(s, scan(s, 0, false)))
}

/// The words of a list that holds one word to a line: the lines without
/// the white space at their ends.
pub open spec fn words_of(list: Seq<char>) -> Seq<Seq<char>> {
    pieces_from(list, 0).map_values(|piece: Seq<char>| trimmed(piece))
}

/// Where the pieces of `chars` start and end.
fn pieces(chars: &Vec<char>) -> (ranges: Vec<(usize, usize)>)
    ensures
        ranges@.len() == pieces_from(chars@, 0).len(),
        ranges@.len() > 0,
        forall|k: int|
            0 <= k < ranges@.len() ==> {
                &&& (#[trigger] ranges@[k]).0 <= ranges@[k].1 <= chars@.len()
                &&& chars@.subrange(ranges@[k].0 as int, ranges@[k].1 as int) == pieces_from(
                    chars@,
                    0,
                )[k]
            },
{
    let mut ranges: Vec<(usize, usize)> = Vec::new();
    let mut from: usize = 0;
    let ghost all = pieces_from(chars@, 0);
    let ghost mut done: Seq<Seq<char>> = Seq::empty();
    loop
        invariant
            from <= chars@.len(),
            all == pieces_from(chars@, 0),
            all == done + pieces_from(chars@, from as int),
            done.len() == ranges@.len(),
            forall|k: int|
                0 <= k < ranges@.len() ==> {
                    &&& (#[trigger] ranges@[k]).0 <= ranges@[k].1 <= chars@.len()
                    &&& chars@.subrange(ranges@[k].0 as int, ranges@[k].1 as int) == done[k]
                },
        decreases chars@.len() - from,
    {
        let mut feed: usize = from;
        while feed < chars.len() && chars[feed] != '\n'
            invariant
                from <= feed <= chars@.len(),
                index_of(chars@, '\n', from as int) == index_of(chars@, '\n', feed as int),
            decreases chars@.len() - feed,
        {
            feed += 1;
        }
        let ghost piece = chars@.subrange(from as int, feed as int);
        ranges.push((from, feed));
        if feed >= chars.len() {
            proof {
                assert(pieces_from(chars@, from as int) == seq![piece]);
                assert(all == done.push(piece));
            }
            return ranges;
        }
        proof {
            let rest = pieces_from(chars@, feed + 1);
            assert(pieces_from(chars@, from as int) == seq![piece] + rest);
            assert(done + (seq![piece] + rest) == done.push(piece) + rest);
            done = done.push(piece);
        }
        from = feed + 1;
    }
}

/// The piece of `list` from `from` up to `to`, without the white space at
/// its ends.
fn trimmed_piece(list: &str, chars: &Vec<char>, from: usize, to: usize) -> (word: String)
    requires
        chars@ == list@,
        from <= to <= chars@.len(),
    ensures
        word@ == trimmed(chars@.subrange(from as int, to as int)),
{
    let ghost piece = chars@.subrange(from as int, to as int);
    let mut start: usize = from;
    while start < to && crate::text::is_whitespace(chars[start])
        invariant
            from <= start <= to <= chars@.len(),
            piece == chars@.subrange(from as int, to as int),
            scan(piece, 0, false) == scan(piece, start - from, false),
        decreases to - start,
    {
        assert(piece[start - from] == chars@[start as int]);
        start += 1;
    }
    assert(start - from == scan(piece, 0, false)) by {
        if start < to {
            assert(piece[start - from] == chars@[start as int]);
        }
    }
    let mut end: usize = to;
    assert(piece.take(piece.len() as int) == piece);
    while end > start && crate::text::is_whitespace(chars[end - 1])
        invariant
            from <= start <= end <= to <= chars@.len(),
            piece == chars@.subrange(from as int, to as int),
            end_of_text(piece, start - from) == end_of_text(piece.take(end - from), start - from),
        decreases end,
    {
        assert(piece.take(end - from).last() == chars@[end - 1]);
        assert(piece.take(end - from).drop_last() == piece.take(end - from - 1));
        end -= 1;
    }
    assert(end - from == end_of_text(piece, start - from)) by {
        if end > start {
            assert(piece.take(end - from).last() == chars@[end - 1]);
        }
    }
    assert(chars@.subrange(start as int, end as int) == trimmed(piece)) by {
        assert(chars@.subrange(start as int, end as int) == piece.subrange(
            start - from,
            end - from,
        ));
    }
    list.substring_char(start, end).to_owned()
}

/// The word at place `index` of the list `list`, which holds one word to
/// a line; none where the list has no such place.
pub fn word_at(list: &str, index: usize) -> (word: Option<String>)
    ensures
        match word {
            Some(word) => index < words_of(list@).len() && word@ == words_of(list@)[index as int],
            None => index >= words_of(list@).len(),
        },
{
    let chars = chars_of(list);
    let ranges = pieces(&chars);
    if index >= ranges.len() {
        return None;
    }
    let (from, to) = ranges[index];
    Some(trimmed_piece(list, &chars, from, to))
}

/// Picks at random a word of the list `list`, which holds one word to a
/// line.
pub fn pick_a_random_word(list: &str) -> (word: String)
    ensures
        exists|k: int| 0 <= k < words_of(list@).len() && word@ == words_of(list@)[k],
{
    let chars = chars_of(list);
    let ranges = pieces(&chars);
    let mut rng = entropy_rng();
    let index: usize = roll_below(&mut rng, ranges.len());
    let (from, to) = ranges[index];
    let word = trimmed_piece(list, &chars, from, to);
    assert(word@ == words_of(list@)[index as int]);
    word
}

} // verus!
