//! A static evaluation that needs no network: material, castle rights, the
//! king's safety and the pair of bishops, for the player to move less the
//! same for the opponent.

use vstd::prelude::*;
use crate::board::{
    file_of, king_from, rank_of, CastleRights, Color, Man, Piece, Position, PositionView,
};
use crate::evaluation::{piece_value, worth};
use crate::oracle::{checkers, checkers_of, mask_has};

verus! {

/// What each castle right counts for.
pub const CASTLE_BONUS: i32 = 8;

/// What being in check costs.
pub const CHECK_PENALTY: i32 = 15;

/// What each own chessman next to the king counts for.
pub const GUARD_BONUS: i32 = 8;

/// What a pair of bishops counts for.
pub const BISHOP_PAIR: i32 = 20;

/// What the chessmen of `player` on the first `n` squares count for.
pub open spec fn material_below(squares: Seq<Option<Man>>, player: Color, n: int) -> int
    decreases n,
{
    if n <= 0 {
        0
    } else {
        material_below(squares, player, n - 1) + (match squares[n - 1] {
            Some(man) if man.color == player => worth(man.piece),
            _ => 0,
        })
    }
}

/// What the castle rights count for: 8 for each side on which the player may
/// still castle.
pub open spec fn castle_value(rights: CastleRights) -> int {
    match rights {
        CastleRights::NoRights => 0,
        CastleRights::KingSide => CASTLE_BONUS as int,
        CastleRights::QueenSide => CASTLE_BONUS as int,
        CastleRights::Both => 2 * CASTLE_BONUS,
    }
}

/// Whether two squares of the board touch, by a side or by a corner.
pub open spec fn adjacent(a: int, b: int) -> bool {
    &&& 0 <= a < 64
    &&& 0 <= b < 64
    &&& a != b
    &&& -1 <= file_of(a) - file_of(b) <= 1
    &&& -1 <= rank_of(a) - rank_of(b) <= 1
}

/// Number of chessmen of `player` on the first `n` squares that touch the
/// square `king`.
pub open spec fn guards_below(squares: Seq<Option<Man>>, player: Color, king: int, n: int) -> int
    decreases n,
{
    if n <= 0 {
        0
    } else {
        guards_below(squares, player, king, n - 1) + (if adjacent(king, n - 1) && (squares[n
            - 1] matches Some(man) && man.color == player) {
            1int
        } else {
            0
        })
    }
}

/// The king's safety: 8 for each own chessman next to the king, less 15 if
/// the player is to move and in check.
pub open spec fn king_value(position: PositionView, player: Color, checkers: u64) -> int {
    (if position.side == player && checkers != 0 {
        -(CHECK_PENALTY as int)
    } else {
        0
    }) + (match king_from(position.squares, player, 0) {
        Some(king) => GUARD_BONUS * guards_below(position.squares, player, king, 64),
        None => 0,
    })
}

/// Number of bishops of `player` on the first `n` squares.
pub open spec fn bishops_below(squares: Seq<Option<Man>>, player: Color, n: int) -> int
    decreases n,
{
    if n <= 0 {
        0
    } else {
        bishops_below(squares, player, n - 1) + (if squares[n - 1] == Some(
            Man { piece: Piece::Bishop, color: player },
        ) {
            1int
        } else {
            0
        })
    }
}

/// 20 for two bishops or more.
pub open spec fn bishop_value(position: PositionView, player: Color) -> int {
    if bishops_below(position.squares, player, 64) > 1 {
        BISHOP_PAIR as int
    } else {
        0
    }
}

/// Everything that counts for `player`.
pub open spec fn all_value(position: PositionView, player: Color, checkers: u64) -> int {
    material_below(position.squares, player, 64) + castle_value(position.castle_rights(player))
        + king_value(position, player, checkers) + bishop_value(position, player)
}

/// The static score of a position, for the player to move, given the
/// chessmen that give check.
pub open spec fn static_score(position: PositionView, checkers: u64) -> int {
    all_value(position, position.side, checkers) - all_value(
        position,
        position.side.other(),
        checkers,
    )
}

/// The static score of `position` for the player to move.
pub fn eval_static(position: &Position) -> (score: i32)
    ensures
        score == static_score(position@, checkers_of(position@)),
{
    let player = position.side_to_move();
    let player_eval = eval_all(position, player);
    let opponent_eval = eval_all(position, player.opponent());
    player_eval - opponent_eval
}

/// Everything that counts for `player`.
pub fn eval_all(position: &Position, player: Color) -> (score: i32)
    ensures
        score == all_value(position@, player, checkers_of(position@)),
        -15 <= score <= 7000000,
{
    eval_material(position, player) + eval_castling(position, player) + eval_king(position, player)
        + eval_bishop(position, player)
}

/// What the chessmen of `player` count for.
pub fn eval_material(position: &Position, player: Color) -> (total: i32)
    ensures
        total == material_below(position@.squares, player, 64),
        0 <= total <= 64 * 99900,
{
    position.check();
    let mut total: i32 = 0;
    let mut square: u8 = 0;
    while square < 64
        invariant
            square <= 64,
            position@.shaped(),
            total == material_below(position@.squares, player, square as int),
            0 <= total <= square * 99900,
        decreases 64 - square,
    {
        if let Some(man) = position.man_on(square) {
            if man.color == player {
                total += piece_value(man.piece);
            }
        }
        square += 1;
    }
    total
}

/// What the castle rights of `player` count for.
pub fn eval_castling(position: &Position, player: Color) -> (score: i32)
    ensures
        score == castle_value(position@.castle_rights(player)),
        0 <= score <= 16,
{
    match position.castle_rights(player) {
        CastleRights::NoRights => 0,
        CastleRights::KingSide => CASTLE_BONUS,
        CastleRights::QueenSide => CASTLE_BONUS,
        CastleRights::Both => CASTLE_BONUS * 2,
    }
}

/// The square of the king of `player`.
pub fn king_square(position: &Position, player: Color) -> (square: u8)
    ensures
        king_from(position@.squares, player, 0) == Some(square as int),
        square < 64,
{
    position.check();
    let mut square: u8 = 0;
    while square < 64
        invariant
            square <= 64,
            position@.shaped(),
            king_from(position@.squares, player, 0) == king_from(
                position@.squares,
                player,
                square as int,
            ),
        decreases 64 - square,
    {
        if let Some(man) = position.man_on(square) {
            if man.piece == Piece::King && man.color == player {
                return square;
            }
        }
        square += 1;
    }
    proof {
        assert(king_from(position@.squares, player, 0) is Some);
    }
    0
}

/// The king's safety.
pub fn eval_king(position: &Position, player: Color) -> (score: i32)
    ensures
        score == king_value(position@, player, checkers_of(position@)),
        -15 <= score <= 512,
{
    position.check();
    let mut score: i32 = 0;
    if position.side_to_move() == player && checkers(position) != 0 {
        score -= CHECK_PENALTY;
    }
    let king = king_square(position, player);
    let around = get_king_adjacent_squares(king);
    let mut guards: i32 = 0;
    let mut square: u8 = 0;
    while square < 64
        invariant
            square <= 64,
            king < 64,
            position@.shaped(),
            forall|s: u8|
                s < 64 ==> (#[trigger] mask_has(around, s) <==> adjacent(king as int, s as int)),
            guards == guards_below(position@.squares, player, king as int, square as int),
            0 <= guards <= square,
        decreases 64 - square,
    {
        let near = (around >> (square as u64)) & 1 == 1;
        assert(near == mask_has(around, square));
        let own = match position.color_on(square) {
            Some(color) => color == player,
            None => false,
        };
        if near && own {
            guards += 1;
        }
        square += 1;
    }
    score += guards * GUARD_BONUS;
    score
}

/// What the bishops of `player` count for.
pub fn eval_bishop(position: &Position, player: Color) -> (score: i32)
    ensures
        score == bishop_value(position@, player),
        0 <= score <= 20,
{
    position.check();
    let mut bishops: u32 = 0;
    let mut square: u8 = 0;
    while square < 64
        invariant
            square <= 64,
            position@.shaped(),
            bishops == bishops_below(position@.squares, player, square as int),
            bishops <= square,
        decreases 64 - square,
    {
        if let Some(man) = position.man_on(square) {
            if man.piece == Piece::Bishop && man.color == player {
                bishops += 1;
            }
        }
        square += 1;
    }
    if bishops > 1 {
        BISHOP_PAIR
    } else {
        0
    }
}

/// The squares, one bit each, that touch `square`.
pub fn get_king_adjacent_squares(square: u8) -> (mask: u64)
    requires
        square < 64,
    ensures
        forall|s: u8| s < 64 ==> (#[trigger] mask_has(mask, s) <==> adjacent(square as int, s as int)),
{
    let file: u8 = square % 8;
    let rank: u8 = square / 8;
    let mut mask: u64 = 0;
    let mut other: u8 = 0;
    assert forall|j: u8| j < 64 implies !mask_has(0u64, j) by {
        let k = j as u64;
        assert(k < 64 ==> (0u64 >> k) & 1 == 0) by (bit_vector);
    }
    while other < 64
        invariant
            other <= 64,
            square < 64,
            file == file_of(square as int),
            rank == rank_of(square as int),
            forall|j: u8|
                j < 64 ==> (#[trigger] mask_has(mask, j) <==> (j < other && adjacent(
                    square as int,
                    j as int,
                ))),
        decreases 64 - other,
    {
        let other_file: u8 = other % 8;
        let other_rank: u8 = other / 8;
        let touches = other != square && other_file + 1 >= file && file + 1 >= other_file
            && other_rank + 1 >= rank && rank + 1 >= other_rank;
        assert(touches == adjacent(square as int, other as int));
        let before = mask;
        if touches {
            mask = mask | (1u64 << (other as u64));
        }
        proof {
            assert forall|j: u8| j < 64 implies (#[trigger] mask_has(mask, j) <==> (j < other + 1
                && adjacent(square as int, j as int))) by {
                let i = other as u64;
                let k = j as u64;
                assert(mask_has(before, j) <==> (j < other && adjacent(square as int, j as int)));
                assert(i < 64 && k < 64 ==> ((before | (1u64 << i)) >> k) & 1 == (if i == k {
                    1u64
                } else {
                    (before >> k) & 1
                })) by (bit_vector);
            }
        }
        other += 1;
    }
    mask
}

} // verus!
