//! Reading the answer of an engine that speaks UCI: the move is the second
//! word of the last line, as in `bestmove e2e4 ponder e7e5`.

use vstd::prelude::*;
use vstd::slice::slice_subrange;
use crate::board::{Move, Position, PositionView};
use crate::oracle::{from_san, san_move_of};
use crate::text::{byte_in, find_byte, find_last_line, last_line, SPACE};

verus! {

/// The second of the words that single spaces part a line into. A line
/// without a space has none.
pub open spec fn second_word(line: Seq<u8>) -> Option<Seq<u8>> {
    let space = byte_in(line, SPACE, 0, line.len() as int);
    if space >= line.len() {
        None
    } else {
        Some(line.subrange(space + 1, byte_in(line, SPACE, space + 1, line.len() as int)))
    }
}

/// Whether a byte is a decimal digit.
pub open spec fn is_digit(byte: u8) -> bool {
    48 <= byte <= 57
}

/// The first place from `from` on where a digit stands.
pub open spec fn digit_from(text: Seq<u8>, from: int) -> Option<int>
    decreases text.len() - from,
{
    if from < 0 || from >= text.len() {
        None
    } else if is_digit(text[from]) {
        Some(from)
    } else {
        digit_from(text, from + 1)
    }
}

/// The last place before `end` where a digit stands.
pub open spec fn digit_before(text: Seq<u8>, end: int) -> Option<int>
    decreases end,
{
    if end <= 0 || end > text.len() {
        None
    } else if is_digit(text[end - 1]) {
        Some(end - 1)
    } else {
        digit_before(text, end - 1)
    }
}

/// The square that is written at place `at`: a file from `a` to `h` and a
/// rank from `1` to `8`.
pub open spec fn square_at(text: Seq<u8>, at: int) -> Option<u8> {
    if 0 <= at && at + 1 < text.len() && 97 <= text[at] <= 104 && 49 <= text[at + 1] <= 56 {
        Some(((text[at + 1] - 49) * 8 + (text[at] - 97)) as u8)
    } else {
        None
    }
}

/// The move that a word names by its squares alone: from the square that
/// ends with the first digit of the word to the square that ends with the
/// last, without a promotion.
pub open spec fn plain_move(word: Seq<u8>) -> Option<Move> {
    match (digit_from(word, 0), digit_before(word, word.len() as int)) {
        (Some(first), Some(last)) => match (square_at(word, first - 1), square_at(word, last - 1)) {
            (Some(source), Some(dest)) => Some(Move { source, dest, promotion: None }),
            _ => None,
        },
        _ => None,
    }
}

/// The move that a word names in a position: the move that the rules make of
/// it, else the move that it names by its squares alone.
pub open spec fn named_move(position: PositionView, word: Seq<u8>) -> Option<Move> {
    match san_move_of(position, word) {
        Some(m) => Some(m),
        None => plain_move(word),
    }
}

/// The move that an engine's answer names.
pub open spec fn answer_of(position: PositionView, output: Seq<u8>) -> Option<Move> {
    match last_line(output) {
        None => None,
        Some(line) => match second_word(line) {
            None => None,
            Some(word) => named_move(position, word),
        },
    }
}

/// The second word of `line`.
pub fn find_second_word(line: &[u8]) -> (word: Option<&[u8]>)
    ensures
        match word {
            Some(found) => second_word(line@) == Some(found@),
            None => second_word(line@) is None,
        },
{
    let space = find_byte(line, SPACE, 0, line.len());
    if space >= line.len() {
        None
    } else {
        let end = find_byte(line, SPACE, space + 1, line.len());
        Some(slice_subrange(line, space + 1, end))
    }
}

/// The square that is written at place `at` of `text`.
pub fn read_square(text: &[u8], at: usize) -> (square: Option<u8>)
    ensures
        square == square_at(text@, at as int),
        square matches Some(s) ==> s < 64,
{
    if at < text.len() && text.len() - at > 1 {
        let file = text[at];
        let rank = text[at + 1];
        if 97 <= file && file <= 104 && 49 <= rank && rank <= 56 {
            return Some((rank - 49) * 8 + (file - 97));
        }
    }
    None
}

/// The move that `word` names by its squares alone.
pub fn read_plain_move(word: &[u8]) -> (m: Option<Move>)
    ensures
        m == plain_move(word@),
{
    let mut first: usize = 0;
    while first < word.len() && !(48 <= word[first] && word[first] <= 57)
        invariant
            first <= word@.len(),
            digit_from(word@, 0) == digit_from(word@, first as int),
        decreases word@.len() - first,
    {
        first += 1;
    }
    if first >= word.len() {
        return None;
    }
    let mut end: usize = word.len();
    while end > 0 && !(48 <= word[end - 1] && word[end - 1] <= 57)
        invariant
            end <= word@.len(),
            digit_before(word@, word@.len() as int) == digit_before(word@, end as int),
        decreases end,
    {
        end -= 1;
    }
    if end == 0 {
        return None;
    }
    let last = end - 1;
    if first == 0 || last == 0 {
        return None;
    }
    match (read_square(word, first - 1), read_square(word, last - 1)) {
        (Some(source), Some(dest)) => Some(Move { source, dest, promotion: None }),
        _ => None,
    }
}

/// The move that `word` names in `position`.
pub fn read_move(position: &Position, word: &[u8]) -> (m: Option<Move>)
    ensures
        m == named_move(position@, word@),
{
    match from_san(position, word) {
        Some(m) => Some(m),
        None => read_plain_move(word),
    }
}

/// The move that an engine's answer names: the second word of the last line
/// of `output`, read as a move of `position`. There is none if the answer is
/// empty, if its last line has no second word, or if that word names no
/// move.
pub fn parse_best(position: &Position, output: &[u8]) -> (best: Option<Move>)
    ensures
        best == answer_of(position@, output@),
{
    match find_last_line(output) {
        None => None,
        Some(line) => match find_second_word(line) {
            None => None,
            Some(word) => read_move(position, word),
        },
    }
}

} // verus!
