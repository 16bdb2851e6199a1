use vstd::prelude::*;
use vstd::string::StrSliceExecFns;
use crate::types::{Tile, COLS, ROWS};

verus! {

/// The row of a row letter: `A`..`I` or `a`..`i` stand for rows 0..8.
pub open spec fn letter_row(c: char) -> Option<u8> {
    if 'A' <= c && c <= 'I' {
        Some((c as u32 - 'A' as u32) as u8)
    } else if 'a' <= c && c <= 'i' {
        Some((c as u32 - 'a' as u32) as u8)
    } else {
        None
    }
}

/// The character is a decimal digit.
pub open spec fn is_digit(c: char) -> bool {
    '0' <= c && c <= '9'
}

/// Every character of `s` is a decimal digit.
pub open spec fn all_digits(s: Seq<char>) -> bool {
    forall|i: int| 0 <= i < s.len() ==> is_digit(#[trigger] s[i])
}

/// The number that the decimal digits `s` write.
pub open spec fn decimal_value(s: Seq<char>) -> int
    decreases s.len(),
{
    if s.len() == 0 {
        0
    } else {
        decimal_value(s.drop_last()) * 10 + (s.last() as u32 - '0' as u32)
    }
}

/// The column of a 1-based column number `1`..`12` written in decimal.
pub open spec fn column_of(s: Seq<char>) -> Option<u8> {
    if s.len() > 0 && all_digits(s) && 1 <= decimal_value(s) <= COLS {
        Some((decimal_value(s) - 1) as u8)
    } else {
        None
    }
}

/// The tile that a cell reference such as `B1` names: a row letter followed by
/// a 1-based column number.
pub open spec fn cell_ref(s: Seq<char>) -> Option<Tile> {
    if s.len() == 0 {
        None
    } else {
        match (letter_row(s[0]), column_of(s.drop_first())) {
            (Some(row), Some(col)) => Some(Tile { row, col }),
            _ => None,
        }
    }
}

/// The letter of a row: rows 0..8 are written `A`..`I`.
pub fn row_to_char(row: u8) -> (r: char)
    requires
        row < ROWS,
    ensures
        letter_row(r) == Some(row),
        'A' <= r <= 'I',
{
    let letters: [char; 9] = ['A', 'B', 'C', 'D', 'E', 'F', 'G', 'H', 'I'];
    assert(letters@ == seq!['A', 'B', 'C', 'D', 'E', 'F', 'G', 'H', 'I']);
    letters[row as usize]
}

/// The row of a row letter, in either case.
pub fn char_to_row(row: char) -> (r: Option<u8>)
    ensures
        r == letter_row(row),
{
    if 'A' <= row && row <= 'I' {
        Some((row as u32 - 'A' as u32) as u8)
    } else if 'a' <= row && row <= 'i' {
        Some((row as u32 - 'a' as u32) as u8)
    } else {
        None
    }
}

/// The column of a 1-based column number written in decimal.
pub fn str_to_col(col_str: &str) -> (r: Option<u8>)
    ensures
        r == column_of(col_str@),
{
    let n = col_str.unicode_len();
    if n == 0 {
        return None;
    }
    // the value, held at no more than 100 once it has passed that
    let mut value: u32 = 0;
    let mut i: usize = 0;
    while i < n
        invariant
            n == col_str@.len(),
            i <= n,
            all_digits(col_str@.subrange(0, i as int)),
            value == if decimal_value(col_str@.subrange(0, i as int)) > 100 {
                100
            } else {
                decimal_value(col_str@.subrange(0, i as int))
            },
            decimal_value(col_str@.subrange(0, i as int)) >= 0,
        decreases n - i,
    {
        let c = col_str.get_char(i);
        let ghost prefix = col_str@.subrange(0, i as int);
        let ghost next = col_str@.subrange(0, i + 1);
        assert(next.drop_last() =~= prefix);
        if !('0' <= c && c <= '9') {
            assert(!all_digits(col_str@)) by {
                assert(!is_digit(col_str@[i as int]));
            }
            return None;
        }
        let d = c as u32 - '0' as u32;
        value = if value * 10 + d > 100 {
            100
        } else {
            value * 10 + d
        };
        assert(all_digits(next)) by {
            assert forall|k: int| 0 <= k < next.len() implies is_digit(#[trigger] next[k]) by {
                if k < i {
                    assert(next[k] == prefix[k]);
                }
            }
        }
        i = i + 1;
    }
    assert(col_str@.subrange(0, n as int) =~= col_str@);
    if value >= 1 && value <= COLS as u32 {
        Some((value - 1) as u8)
    } else {
        None
    }
}

/// The tile that a cell reference such as `B1` names, or `None` when the
/// reference is malformed.
pub fn parse_tile(string: &str) -> (r: Option<Tile>)
    ensures
        r == cell_ref(string@),
        r matches Some(t) ==> t.row < ROWS && t.col < COLS,
{
    let n = string.unicode_len();
    if n == 0 {
        return None;
    }
    let first = string.get_char(0);
    let rest = string.substring_char(1, n);
    assert(rest@ =~= string@.drop_first());
    match (char_to_row(first), str_to_col(rest)) {
        (Some(row), Some(col)) => Some(Tile { row, col }),
        _ => None,
    }
}

/// A console command.
#[derive(Clone, Copy, Debug, PartialEq, Eq, Structural)]
pub enum Command {
    /// Show the current game.
    Dump,
    /// Place a tile for the turn holder.
    Place { tile: Tile },
}

/// Why a console line is not a command.
#[derive(Clone, Copy, Debug, PartialEq, Eq, Structural)]
pub enum CommandError {
    /// The first word names no command.
    UnknownCommand,
    /// `place` came without a cell reference.
    MissingTile,
    /// The cell reference after `place` is malformed.
    BadTile,
}

/// Position of the first space at or after `i`, or the length of `s`.
pub open spec fn space_from(s: Seq<char>, i: int) -> int
    decreases s.len() - i,
{
    if i < 0 || i >= s.len() {
        s.len() as int
    } else if s[i] == ' ' {
        i
    } else {
        space_from(s, i + 1)
    }
}

/// The word that starts at `i`: what stands up to the next space.
pub open spec fn word_at(s: Seq<char>, i: int) -> Seq<char> {
    s.subrange(i, space_from(s, i))
}

/// What a console line asks for: `dump`, or `place` followed by a cell
/// reference, words being separated by single spaces.
pub open spec fn command_of(s: Seq<char>) -> Result<Command, CommandError> {
    let w = word_at(s, 0);
    let e = space_from(s, 0);
    if w == "dump"@ {
        Ok(Command::Dump)
    } else if w == "place"@ {
        if e >= s.len() {
            Err(CommandError::MissingTile)
        } else {
            match cell_ref(word_at(s, e + 1)) {
                Some(tile) => Ok(Command::Place { tile }),
                None => Err(CommandError::BadTile),
            }
        }
    } else {
        Err(CommandError::UnknownCommand)
    }
}

proof fn lemma_space_from_bounds(s: Seq<char>, i: int)
    requires
        0 <= i <= s.len(),
    ensures
        i <= space_from(s, i) <= s.len(),
    decreases s.len() - i,
{
    if i < s.len() && s[i] != ' ' {
        lemma_space_from_bounds(s, i + 1);
    }
}

/// Position of the first space in `s` at or after `from`, or its length.
fn find_space(s: &str, from: usize) -> (r: usize)
    requires
        from <= s@.len(),
    ensures
        r == space_from(s@, from as int),
        from <= r <= s@.len(),
{
    let n = s.unicode_len();
    let mut i = from;
    proof {
        lemma_space_from_bounds(s@, from as int);
    }
    while i < n
        invariant
            n == s@.len(),
            from <= i <= n,
            space_from(s@, from as int) == space_from(s@, i as int),
        decreases n - i,
    {
        if s.get_char(i) == ' ' {
            return i;
        }
        i = i + 1;
    }
    i
}

/// Whether two texts are equal.
fn same_text(a: &str, b: &str) -> (r: bool)
    ensures
        r == (a@ == b@),
{
    let n = a.unicode_len();
    if n != b.unicode_len() {
        return false;
    }
    for i in 0..n
        invariant
            n == a@.len(),
            n == b@.len(),
            forall|k: int| 0 <= k < i ==> a@[k] == b@[k],
    {
        if a.get_char(i) != b.get_char(i) {
            return false;
        }
    }
    assert(a@ =~= b@);
    true
}

/// The command that a console line asks for, or why it asks for none.
pub fn parse_command(string: &str) -> (r: Result<Command, CommandError>)
    ensures
        r == command_of(string@),
{
    let end = find_space(string, 0);
    let word = string.substring_char(0, end);
    if same_text(word, "dump") {
        Ok(Command::Dump)
    } else if same_text(word, "place") {
        parse_place(string, end)
    } else {
        Err(CommandError::UnknownCommand)
    }
}

/// The `place` command whose first word ends at `end`.
fn parse_place(string: &str, end: usize) -> (r: Result<Command, CommandError>)
    requires
        end == space_from(string@, 0),
        end <= string@.len(),
    ensures
        r == (if end >= string@.len() {
            Err(CommandError::MissingTile)
        } else {
            match cell_ref(word_at(string@, end + 1)) {
                Some(tile) => Ok(Command::Place { tile }),
                None => Err(CommandError::BadTile),
            }
        }),
{
    let n = string.unicode_len();
    if end >= n {
        return Err(CommandError::MissingTile);
    }
    let stop = find_space(string, end + 1);
    let tile_str = string.substring_char(end + 1, stop);
    match parse_tile(tile_str) {
        Some(tile) => Ok(Command::Place { tile }),
        None => Err(CommandError::BadTile),
    }
}

} // verus!
