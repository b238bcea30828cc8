//! The form in which a position is handed to the network that evaluates it:
//! the player to move and two parallel lists, one of piece codes and one of
//! squares.

use vstd::prelude::*;
use crate::board::{king_from, men_of_below, Color, Man, Piece, Position, PositionView};

verus! {

/// Number of slots in each list.
pub const SLOTS: usize = 33;

/// What the network is given. Slot 0 holds the white king and slot 1 the
/// black king; the other chessmen, thirty at most, follow from slot 2 on, in
/// ascending order of their squares. A slot that is not used holds code 0
/// and square 0.
#[derive(Clone, Copy, Debug)]
pub struct NnueInput {
    /// 0 if white is to move, 1 if black is.
    pub player: i32,
    pub pieces: [i32; 33],
    pub squares: [i32; 33],
}

/// The code of a chessman: king 1, queen 2, rook 3, bishop 4, knight 5, pawn
/// 6 for white, and six more for black.
pub open spec fn piece_code(piece: Piece, color: Color) -> int {
    (6 - piece.index()) + color.index() * 6
}

/// The two lists, and the first slot that is free.
pub struct Listing {
    pub pieces: Seq<i32>,
    pub squares: Seq<i32>,
    pub next: int,
}

/// The lists after the chessmen on the first `n` squares were entered.
pub open spec fn listing_below(squares: Seq<Option<Man>>, n: int) -> Listing
    decreases n,
{
    if n <= 0 {
        Listing {
            pieces: Seq::new(SLOTS as nat, |i: int| 0i32),
            squares: Seq::new(SLOTS as nat, |i: int| 0i32),
            next: 2,
        }
    } else {
        let before = listing_below(squares, n - 1);
        match squares[n - 1] {
            None => before,
            Some(man) => {
                let slot = if man.piece == Piece::King {
                    man.color.index()
                } else {
                    before.next
                };
                Listing {
                    pieces: before.pieces.update(slot, piece_code(man.piece, man.color) as i32),
                    squares: before.squares.update(slot, (n - 1) as i32),
                    next: if man.piece == Piece::King {
                        before.next
                    } else {
                        before.next + 1
                    },
                }
            },
        }
    }
}

/// The first free slot never moves back.
pub proof fn lemma_next_grows(squares: Seq<Option<Man>>, n: int, m: int)
    requires
        n <= m,
    ensures
        2 <= listing_below(squares, n).next <= listing_below(squares, m).next,
    decreases m - n, n,
{
    if n < m {
        lemma_next_grows(squares, n, m - 1);
    } else if n > 0 {
        lemma_next_grows(squares, n - 1, n - 1);
    }
}

/// While the chessmen fit, both lists keep their length.
pub proof fn lemma_listing_len(squares: Seq<Option<Man>>, n: int)
    requires
        listing_below(squares, n).next <= SLOTS,
    ensures
        listing_below(squares, n).pieces.len() == SLOTS,
        listing_below(squares, n).squares.len() == SLOTS,
    decreases n,
{
    if n > 0 {
        lemma_next_grows(squares, n - 1, n);
        lemma_listing_len(squares, n - 1);
    }
}

/// The code of a chessman.
pub fn piece_to_idx(piece: Piece, color: Color) -> (code: u32)
    ensures
        code == piece_code(piece, color),
        1 <= code <= 12,
{
    (6 - piece.to_index() as u32) + (color.to_index() as u32) * 6
}

/// Number of kings of `color` on the first `n` squares.
pub open spec fn kings_of_below(squares: Seq<Option<Man>>, color: Color, n: int) -> nat
    decreases n,
{
    if n <= 0 {
        0
    } else {
        kings_of_below(squares, color, n - 1) + (if squares[n - 1] == Some(
            Man { piece: Piece::King, color },
        ) {
            1nat
        } else {
            0nat
        })
    }
}

/// The slots from 2 on that are taken are as many as there are chessmen
/// other than kings.
pub proof fn lemma_next_counts(squares: Seq<Option<Man>>, n: int)
    ensures
        listing_below(squares, n).next + kings_of_below(squares, Color::White, n) + kings_of_below(
            squares,
            Color::Black,
            n,
        ) == 2 + men_of_below(squares, Color::White, n) + men_of_below(squares, Color::Black, n),
    decreases n,
{
    if n > 0 {
        lemma_next_counts(squares, n - 1);
    }
}

/// A king that stands on the board is counted.
pub proof fn lemma_king_counted(squares: Seq<Option<Man>>, color: Color, from: int, n: int)
    requires
        0 <= from,
        king_from(squares, color, from) is Some,
        n >= 64,
    ensures
        kings_of_below(squares, color, n) >= 1,
    decreases n - from, n,
{
    if n > 64 {
        lemma_king_counted(squares, color, from, n - 1);
    } else if squares[from] == Some(Man { piece: Piece::King, color }) {
        lemma_kings_grow(squares, color, from + 1, n);
    } else {
        lemma_king_counted(squares, color, from + 1, n);
    }
}

/// The number of kings counted never falls.
pub proof fn lemma_kings_grow(squares: Seq<Option<Man>>, color: Color, n: int, m: int)
    requires
        n <= m,
    ensures
        kings_of_below(squares, color, n) <= kings_of_below(squares, color, m),
    decreases m - n,
{
    if n < m {
        lemma_kings_grow(squares, color, n, m - 1);
    }
}

/// The chessmen of an orderly position fit in the lists.
pub proof fn lemma_orderly_fits(position: PositionView)
    requires
        position.orderly(),
    ensures
        listing_below(position.squares, 64).next <= SLOTS - 1,
{
    lemma_next_counts(position.squares, 64);
    lemma_king_counted(position.squares, Color::White, 0, 64);
    lemma_king_counted(position.squares, Color::Black, 0, 64);
}

/// Lists the chessmen of `position` for the network.
pub fn encode(position: &Position) -> (input: NnueInput)
    ensures
        input.player == position@.side.index(),
        input.pieces@ == listing_below(position@.squares, 64).pieces,
        input.squares@ == listing_below(position@.squares, 64).squares,
{
    position.check();
    proof {
        lemma_orderly_fits(position@);
    }
    let mut index: usize = 2;
    let mut pieces = [0i32; 33];
    let mut squares = [0i32; 33];
    assert(pieces@ =~= listing_below(position@.squares, 0).pieces);
    assert(squares@ =~= listing_below(position@.squares, 0).squares);
    let mut square: u8 = 0;
    while square < 64
        invariant
            square <= 64,
            position@.shaped(),
            listing_below(position@.squares, 64).next <= SLOTS,
            index == listing_below(position@.squares, square as int).next,
            pieces@ == listing_below(position@.squares, square as int).pieces,
            squares@ == listing_below(position@.squares, square as int).squares,
        decreases 64 - square,
    {
        proof {
            lemma_next_grows(position@.squares, square as int, square + 1);
            lemma_next_grows(position@.squares, square + 1, 64);
            lemma_listing_len(position@.squares, square as int);
        }
        if let Some(man) = position.man_on(square) {
            let code = piece_to_idx(man.piece, man.color) as i32;
            if man.piece == Piece::King {
                let slot = man.color.to_index();
                pieces[slot] = code;
                squares[slot] = square as i32;
            } else {
                pieces[index] = code;
                squares[index] = square as i32;
                index += 1;
            }
        }
        square += 1;
    }
    let player = position.side_to_move().to_index() as i32;
    NnueInput { player, pieces, squares }
}

} // verus!
