//! Material alone, counted in pawns: what black has less what white has.

use vstd::prelude::*;
use crate::board::{Color, Man, Piece, Position};

verus! {

/// What a piece counts for, in pawns.
pub open spec fn pawns(piece: Piece) -> int {
    match piece {
        Piece::Pawn => 1,
        Piece::Knight => 3,
        Piece::Bishop => 3,
        Piece::Rook => 5,
        Piece::Queen => 9,
        Piece::King => 9999,
    }
}

/// What the chessmen on the first `n` squares count for: those of black
/// less those of white.
pub open spec fn balance_below(squares: Seq<Option<Man>>, n: int) -> int
    decreases n,
{
    if n <= 0 {
        0
    } else {
        balance_below(squares, n - 1) + (match squares[n - 1] {
            Some(man) => match man.color {
                Color::Black => pawns(man.piece),
                Color::White => -pawns(man.piece),
            },
            None => 0,
        })
    }
}

/// What a piece counts for, in pawns.
pub fn pawn_value(piece: Piece) -> (value: isize)
    ensures
        value == pawns(piece),
{
    match piece {
        Piece::Pawn => 1,
        Piece::Knight => 3,
        Piece::Bishop => 3,
        Piece::Rook => 5,
        Piece::Queen => 9,
        Piece::King => 9999,
    }
}

/// The material of black less the material of white.
pub fn eval_board(position: &Position) -> (total: isize)
    ensures
        total == balance_below(position@.squares, 64),
{
    position.check();
    let mut total: isize = 0;
    let mut square: u8 = 0;
    while square < 64
        invariant
            square <= 64,
            position@.shaped(),
            total == balance_below(position@.squares, square as int),
            -9999 * square <= total <= 9999 * square,
        decreases 64 - square,
    {
        if let Some(man) = position.man_on(square) {
            match man.color {
                Color::Black => {
                    total += pawn_value(man.piece);
                },
                Color::White => {
                    total -= pawn_value(man.piece);
                },
            }
        }
        square += 1;
    }
    total
}

} // verus!
