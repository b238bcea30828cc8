//! The opening book: one line of text for each position that it knows, with
//! the moves that were played there and how often each was played. A line
//! reads `hash   side   count:move count:move`, the hash in hexadecimal, the
//! side `w` or `b`, and three spaces between the three fields.

use vstd::prelude::*;
use vstd::slice::slice_subrange;
use crate::board::{Color, Move, Position};
use crate::oracle::{from_san, legal_moves_of, san_move_of};
use crate::text::{byte_in, find_byte, COLON, PLUS, SPACE};

verus! {

/// A move of the book: how often it was played, and where in the line its
/// text stands.
#[derive(Clone, Copy, Debug, PartialEq, Eq, Structural)]
pub struct BookMove {
    pub count: usize,
    pub start: usize,
    pub end: usize,
}

/// What a line of the book says.
pub struct BookLine {
    pub hash: u64,
    pub side: Color,
    pub moves: Vec<BookMove>,
    /// How often the position was reached: the sum of the counts.
    pub total: usize,
}

/// What a line of the book says, as plain values.
pub struct LineView {
    pub hash: u64,
    pub side: Color,
    pub moves: Seq<BookMove>,
    pub total: usize,
}

impl View for BookLine {
    type V = LineView;

    open spec fn view(&self) -> LineView {
        LineView { hash: self.hash, side: self.side, moves: self.moves@, total: self.total }
    }
}

/// The value of a digit in a numeral of the given radix.
pub open spec fn digit_value(byte: u8, radix: int) -> Option<int> {
    let value = if 48 <= byte <= 57 {
        byte - 48
    } else if 97 <= byte <= 122 {
        byte - 97 + 10
    } else if 65 <= byte <= 90 {
        byte - 65 + 10
    } else {
        radix
    };
    if value < radix {
        Some(value)
    } else {
        None
    }
}

/// The number that the first `n` digits of a numeral write, if all of them
/// are digits.
pub open spec fn digits_below(text: Seq<u8>, radix: int, n: int) -> Option<int>
    decreases n,
{
    if n <= 0 {
        Some(0)
    } else {
        match (digits_below(text, radix, n - 1), digit_value(text[n - 1], radix)) {
            (Some(high), Some(low)) => Some(high * radix + low),
            _ => None,
        }
    }
}

/// The number that a numeral writes: an optional `+` and one digit at least;
/// none if it writes a number beyond `max`.
pub open spec fn number(text: Seq<u8>, radix: int, max: int) -> Option<int> {
    let digits = if text.len() > 0 && text[0] == PLUS {
        text.subrange(1, text.len() as int)
    } else {
        text
    };
    if digits.len() == 0 {
        None
    } else {
        match digits_below(digits, radix, digits.len() as int) {
            Some(value) if value <= max => Some(value),
            _ => None,
        }
    }
}

/// The first place from `from` on where three spaces stand in a row, or the
/// length of the text if they stand nowhere.
pub open spec fn gap_from(text: Seq<u8>, from: int) -> int
    decreases text.len() - from,
{
    if from < 0 || from + 3 > text.len() {
        text.len() as int
    } else if text[from] == SPACE && text[from + 1] == SPACE && text[from + 2] == SPACE {
        from
    } else {
        gap_from(text, from + 1)
    }
}

/// The move that is written in `from..end`: a count in decimal, a colon, and
/// the text of the move up to the next colon.
pub open spec fn move_in(line: Seq<u8>, from: int, end: int) -> Option<BookMove> {
    let colon = byte_in(line, COLON, from, end);
    if colon >= end {
        None
    } else {
        match number(line.subrange(from, colon), 10, usize::MAX as int) {
            Some(count) => Some(
                BookMove {
                    count: count as usize,
                    start: (colon + 1) as usize,
                    end: byte_in(line, COLON, colon + 1, end) as usize,
                },
            ),
            None => None,
        }
    }
}

/// The moves that are written in `from..end`, one space between each two.
pub open spec fn moves_in(line: Seq<u8>, from: int, end: int) -> Option<Seq<BookMove>>
    decreases end - from,
{
    let space = byte_in(line, SPACE, from, end);
    match move_in(line, from, space) {
        None => None,
        Some(first) => if from <= space < end {
            match moves_in(line, space + 1, end) {
                None => None,
                Some(rest) => Some(seq![first] + rest),
            }
        } else {
            Some(seq![first])
        },
    }
}

/// The sum of the counts of the first `n` moves.
pub open spec fn counts_below(moves: Seq<BookMove>, n: int) -> int
    decreases n,
{
    if n <= 0 {
        0
    } else {
        counts_below(moves, n - 1) + moves[n - 1].count
    }
}

/// What a line says: its three fields are a hash, a side and moves; the
/// total fits in a machine word.
pub open spec fn line_of(line: Seq<u8>) -> Option<LineView> {
    let first = gap_from(line, 0);
    let second = gap_from(line, first + 3);
    if first >= line.len() || second >= line.len() {
        None
    } else {
        let last = gap_from(line, second + 3);
        match (
            number(line.subrange(0, first), 16, u64::MAX as int),
            moves_in(line, second + 3, last),
        ) {
            (Some(hash), Some(moves)) => if counts_below(moves, moves.len() as int) <= usize::MAX {
                Some(
                    LineView {
                        hash: hash as u64,
                        side: if line.subrange(first + 3, second) == seq![119u8] {
                            Color::White
                        } else {
                            Color::Black
                        },
                        moves,
                        total: counts_below(moves, moves.len() as int) as usize,
                    },
                )
            } else {
                None
            },
            _ => None,
        }
    }
}

/// The move that a roll of the dice picks: each move in turn takes its count
/// off the roll, and the move that stands behind the one which brings the
/// roll to zero or below is picked. A roll of zero picks the first move.
pub open spec fn picked_from(moves: Seq<BookMove>, index: int, roll: int) -> Option<int>
    decreases moves.len() - index,
{
    if index < 0 || index >= moves.len() {
        None
    } else if roll <= 0 {
        Some(index)
    } else {
        picked_from(moves, index + 1, roll - moves[index].count)
    }
}

/// The value of a digit.
pub fn read_digit(byte: u8, radix: u8) -> (value: Option<u8>)
    requires
        radix <= 36,
    ensures
        match value {
            Some(v) => digit_value(byte, radix as int) == Some(v as int) && v < radix,
            None => digit_value(byte, radix as int) is None,
        },
{
    let value: u8 = if 48 <= byte && byte <= 57 {
        byte - 48
    } else if 97 <= byte && byte <= 122 {
        byte - 97 + 10
    } else if 65 <= byte && byte <= 90 {
        byte - 65 + 10
    } else {
        radix
    };
    if value < radix {
        Some(value)
    } else {
        None
    }
}

/// The number that digits write never falls as digits are added.
pub proof fn lemma_digits_grow(text: Seq<u8>, radix: int, n: int, m: int)
    requires
        1 <= radix,
        0 <= n <= m,
        digits_below(text, radix, m) is Some,
    ensures
        digits_below(text, radix, n) is Some,
        0 <= digits_below(text, radix, n)->0 <= digits_below(text, radix, m)->0,
    decreases m,
{
    if n < m {
        lemma_digits_grow(text, radix, n, m - 1);
        let high = digits_below(text, radix, m - 1)->0;
        assert(high * radix >= high) by (nonlinear_arith)
            requires
                high >= 0,
                radix >= 1,
        ;
    } else if m > 0 {
        lemma_digits_grow(text, radix, 0, m - 1);
        let high = digits_below(text, radix, m - 1)->0;
        assert(high * radix >= 0) by (nonlinear_arith)
            requires
                high >= 0,
                radix >= 1,
        ;
    }
}

/// Digits that are no numeral at some length are none at any greater length.
pub proof fn lemma_digits_fail(text: Seq<u8>, radix: int, n: int, m: int)
    requires
        0 <= n <= m,
        digits_below(text, radix, n) is None,
    ensures
        digits_below(text, radix, m) is None,
    decreases m,
{
    if n < m {
        lemma_digits_fail(text, radix, n, m - 1);
    }
}

/// The number that `text` writes in the given radix, if it fits in 64 bits.
#[verifier::loop_isolation(false)]
pub fn read_number(text: &[u8], radix: u8) -> (value: Option<u64>)
    requires
        2 <= radix <= 36,
    ensures
        match value {
            Some(v) => number(text@, radix as int, u64::MAX as int) == Some(v as int),
            None => number(text@, radix as int, u64::MAX as int) is None,
        },
{
    let start: usize = if text.len() > 0 && text[0] == PLUS {
        1
    } else {
        0
    };
    let digits = slice_subrange(text, start, text.len());
    assert(text@.subrange(0, text@.len() as int) =~= text@);
    if digits.len() == 0 {
        return None;
    }
    let mut value: u64 = 0;
    let mut i: usize = 0;
    while i < digits.len()
        invariant
            i <= digits@.len(),
            2 <= radix <= 36,
            digits_below(digits@, radix as int, i as int) == Some(value as int),
        decreases digits@.len() - i,
    {
        let digit = match read_digit(digits[i], radix) {
            Some(digit) => digit,
            None => {
                proof {
                    lemma_digits_fail(digits@, radix as int, i + 1, digits@.len() as int);
                }
                return None;
            },
        };
        let next = match value.checked_mul(radix as u64) {
            Some(shifted) => shifted.checked_add(digit as u64),
            None => None,
        };
        match next {
            Some(next) => {
                value = next;
            },
            None => {
                proof {
                    if digits_below(digits@, radix as int, digits@.len() as int) is Some {
                        lemma_digits_grow(digits@, radix as int, i + 1, digits@.len() as int);
                    }
                }
                return None;
            },
        }
        i += 1;
    }
    Some(value)
}

/// The first place from `from` on where three spaces stand in a row.
pub fn find_gap(text: &[u8], from: usize) -> (at: usize)
    requires
        from <= text@.len(),
    ensures
        at == gap_from(text@, from as int),
        from <= at <= text@.len(),
        at < text@.len() ==> at + 3 <= text@.len(),
{
    let len = text.len();
    let mut at = from;
    while len - at >= 3
        invariant
            from <= at <= len,
            len == text@.len(),
            gap_from(text@, from as int) == gap_from(text@, at as int),
        decreases len - at,
    {
        if text[at] == SPACE && text[at + 1] == SPACE && text[at + 2] == SPACE {
            return at;
        }
        at += 1;
    }
    len
}

/// The move that is written in `from..end` of `line`.
pub fn read_book_move(line: &[u8], from: usize, end: usize) -> (m: Option<BookMove>)
    requires
        from <= end <= line@.len(),
    ensures
        m == move_in(line@, from as int, end as int),
        m matches Some(found) ==> from < found.start <= found.end <= end,
{
    let colon = find_byte(line, COLON, from, end);
    if colon >= end {
        return None;
    }
    let count = match read_number(slice_subrange(line, from, colon), 10) {
        Some(count) => count,
        None => {
            return None;
        },
    };
    if count > usize::MAX as u64 {
        return None;
    }
    Some(
        BookMove {
            count: count as usize,
            start: colon + 1,
            end: find_byte(line, COLON, colon + 1, end),
        },
    )
}

/// What a line of the book says, if it is well written.
#[verifier::loop_isolation(false)]
pub fn parse_line(line: &[u8]) -> (parsed: Option<BookLine>)
    ensures
        match parsed {
            Some(found) => line_of(line@) == Some(found@),
            None => line_of(line@) is None,
        },
        parsed matches Some(found) ==> found@.moves.len() > 0 && forall|k: int|
            0 <= k < found@.moves.len() ==> (#[trigger] found@.moves[k]).start
                <= found@.moves[k].end <= line@.len(),
{
    let first = find_gap(line, 0);
    if first >= line.len() {
        return None;
    }
    let second = find_gap(line, first + 3);
    if second >= line.len() {
        return None;
    }
    let last = find_gap(line, second + 3);
    let hash = match read_number(slice_subrange(line, 0, first), 16) {
        Some(hash) => hash,
        None => {
            return None;
        },
    };
    let field = slice_subrange(line, first + 3, second);
    let side = if field.len() == 1 && field[0] == 119 {
        Color::White
    } else {
        Color::Black
    };
    assert((field@ == seq![119u8]) <==> (field@.len() == 1 && field@[0] == 119)) by {
        if field@.len() == 1 && field@[0] == 119 {
            assert(field@ =~= seq![119u8]);
        }
    }
    let mut moves: Vec<BookMove> = Vec::new();
    let mut total: usize = 0;
    let mut from = second + 3;
    loop
        invariant
            second + 3 <= from <= last <= line@.len(),
            total == counts_below(moves@, moves@.len() as int),
            forall|k: int|
                0 <= k < moves@.len() ==> (#[trigger] moves@[k]).start <= moves@[k].end
                    <= line@.len(),
            moves_in(line@, second + 3, last as int) == (match moves_in(
                line@,
                from as int,
                last as int,
            ) {
                Some(rest) => Some(moves@ + rest),
                None => None,
            }),
        decreases last - from,
    {
        let space = find_byte(line, SPACE, from, last);
        let found = match read_book_move(line, from, space) {
            Some(found) => found,
            None => {
                return None;
            },
        };
        let ghost before = moves@;
        moves.push(found);
        let sum = total.checked_add(found.count);
        proof {
            assert(counts_below(moves@, moves@.len() - 1) == counts_below(
                before,
                before.len() as int,
            )) by {
                lemma_counts_prefix(before, moves@, before.len() as int);
            }
        }
        if space >= last {
            proof {
                assert(before + seq![found] =~= moves@);
            }
            return match sum {
                Some(total) => Some(BookLine { hash, side, moves, total }),
                None => None,
            };
        }
        match sum {
            Some(sum) => {
                total = sum;
            },
            None => {
                proof {
                    let rest = moves_in(line@, space + 1, last as int);
                    if rest is Some {
                        let all = moves@ + rest->0;
                        assert(before + (seq![found] + rest->0) =~= all);
                        lemma_counts_prefix(moves@, all, moves@.len() as int);
                        lemma_counts_grow(all, moves@.len() as int, all.len() as int);
                    }
                }
                return None;
            },
        }
        proof {
            let rest = moves_in(line@, space + 1, last as int);
            if rest is Some {
                assert(before + (seq![found] + rest->0) =~= moves@ + rest->0);
            }
        }
        from = space + 1;
    }
}

/// Two lists of moves that agree on their first `n` moves have the same sum
/// of counts there.
pub proof fn lemma_counts_prefix(a: Seq<BookMove>, b: Seq<BookMove>, n: int)
    requires
        n <= a.len(),
        n <= b.len(),
        forall|k: int| 0 <= k < n ==> a[k] == b[k],
    ensures
        counts_below(a, n) == counts_below(b, n),
    decreases n,
{
    if n > 0 {
        lemma_counts_prefix(a, b, n - 1);
    }
}

/// The sum of the counts never falls as moves are added.
pub proof fn lemma_counts_grow(moves: Seq<BookMove>, n: int, m: int)
    requires
        n <= m,
    ensures
        counts_below(moves, n) <= counts_below(moves, m),
    decreases m - n,
{
    if n < m {
        lemma_counts_grow(moves, n, m - 1);
    }
}

/// The move that a roll of the dice picks among `moves`, if it picks one.
pub fn pick(moves: &Vec<BookMove>, roll: usize) -> (index: Option<usize>)
    ensures
        match index {
            Some(i) => picked_from(moves@, 0, roll as int) == Some(i as int) && i < moves@.len(),
            None => picked_from(moves@, 0, roll as int) is None,
        },
{
    let mut rest: i128 = roll as i128;
    let mut index: usize = 0;
    while rest > 0 && index < moves.len()
        invariant
            index <= moves@.len(),
            -(usize::MAX as int) <= rest <= usize::MAX,
            picked_from(moves@, 0, roll as int) == picked_from(moves@, index as int, rest as int),
        decreases moves@.len() - index,
    {
        rest = rest - moves[index].count as i128;
        index += 1;
    }
    if index < moves.len() {
        Some(index)
    } else {
        None
    }
}

/// The move of the book that a roll of the dice picks for `position`, read
/// from the line that holds the position: there is none if the roll picks
/// none, or if the text that it picks names no legal move.
pub fn get_for(position: &Position, line: &[u8], parsed: &BookLine, roll: usize) -> (m: Option<Move>)
    requires
        forall|k: int|
            0 <= k < parsed@.moves.len() ==> (#[trigger] parsed@.moves[k]).start
                <= parsed@.moves[k].end <= line@.len(),
    ensures
        m == (match picked_from(parsed@.moves, 0, roll as int) {
            Some(i) => san_move_of(
                position@,
                line@.subrange(parsed@.moves[i].start as int, parsed@.moves[i].end as int),
            ),
            None => None,
        }),
        m matches Some(found) ==> legal_moves_of(position@).contains(found),
{
    match pick(&parsed.moves, roll) {
        Some(index) => {
            let chosen = parsed.moves[index];
            from_san(position, slice_subrange(line, chosen.start, chosen.end))
        },
        None => None,
    }
}

} // verus!
