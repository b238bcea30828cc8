//! Cheap judgements: the rank that move ordering gives a move, and the cached
//! static evaluation of a position.

use vstd::prelude::*;
use crate::board::{
    file_of, rank_of, CastleRights, Color, Man, Move, Piece, Position, PositionView,
};
use crate::oracle::{
    checkers, checkers_of, legal_moves_of, make_move, mask_has, position_after, zobrist, zobrist_of,
};
use crate::statistics::{bump, Counters, Stat};
use crate::table::{
    lemma_slot_in_range, lookup, lookup_nnue, slot_of, Entry, NNUEEntry, TableView, TransTable,
};

verus! {

/// Largest history bonus, in either direction, that a rank has room for.
pub const HISTORY_LIMIT: i64 = 2000000000;

/// What a piece counts for when moves are ordered.
pub open spec fn consider(piece: Piece) -> int {
    match piece {
        Piece::Pawn => 20,
        Piece::Knight => 60,
        Piece::Bishop => 60,
        Piece::Rook => 100,
        Piece::Queen => 250,
        Piece::King => 9990,
    }
}

/// What a piece counts for when material is added up.
pub open spec fn worth(piece: Piece) -> int {
    match piece {
        Piece::Pawn => 100,
        Piece::Knight => 300,
        Piece::Bishop => 300,
        Piece::Rook => 500,
        Piece::Queen => 900,
        Piece::King => 99900,
    }
}

/// The rank on which the pawns of `side` start.
pub open spec fn pawn_rank(side: Color) -> int {
    match side {
        Color::White => 1,
        Color::Black => 6,
    }
}

/// The rank on which the pieces of `side` start.
pub open spec fn back_rank(side: Color) -> int {
    match side {
        Color::White => 0,
        Color::Black => 7,
    }
}

/// Number of pawns of the player to move that stand on the first `n` squares
/// of the board and on the rank on which they started.
pub open spec fn home_pawns_below(position: PositionView, n: int) -> nat
    decreases n,
{
    if n <= 0 {
        0
    } else {
        home_pawns_below(position, n - 1) + (if rank_of(n - 1) == pawn_rank(position.side)
            && position.holds_man(n - 1, Man { piece: Piece::Pawn, color: position.side }) {
            1nat
        } else {
            0nat
        })
    }
}

/// Number of pawns of the player to move that have not moved yet.
pub open spec fn undeveloped_pawns(position: PositionView) -> nat {
    home_pawns_below(position, 64)
}

/// Bonus for taking `victim` with `attacker`: the dearer the victim and the
/// cheaper the attacker, the more, and never less than 10.
pub open spec fn capture_bonus(victim: Piece, attacker: Piece) -> int {
    if 2 * consider(victim) - consider(attacker) > 10 {
        2 * consider(victim) - consider(attacker)
    } else {
        10
    }
}

/// Bonus for a move that leads to a position which the table knows: the
/// deeper the search that stored it, the more.
pub open spec fn history_bonus(found: Option<Entry>) -> int {
    match found {
        Some(entry) => 1024 * entry.depth_of_search * entry.depth_of_score,
        None => 0,
    }
}

/// Distance of a file from the e-file.
pub open spec fn off_centre(file: int) -> int {
    if file >= 4 {
        file - 4
    } else {
        4 - file
    }
}

/// Bonus for a promotion: five times what the new piece counts for.
pub open spec fn promotion_bonus(m: Move) -> int {
    match m.promotion {
        Some(piece) => 5 * consider(piece),
        None => 0,
    }
}

/// Bonus for taking what stands on the square reached.
pub open spec fn capture_part(position: PositionView, m: Move) -> int {
    match position.squares[m.dest as int] {
        Some(victim) => capture_bonus(victim.piece, position.squares[m.source as int]->0.piece),
        None => 0,
    }
}

/// What the opening asks of a move by `mover`, with `undeveloped` pawns at
/// home: a bonus for pawn moves, the larger the nearer the e-file, and a
/// malus for moves to the back rank, while at least six pawns are at home; a
/// malus for queen moves while more than six are.
pub open spec fn opening_part(side: Color, undeveloped: nat, mover: Piece, m: Move) -> int {
    (if undeveloped >= 6 && mover == Piece::Pawn {
        (8 - off_centre(file_of(m.source as int))) * 10
    } else {
        0
    }) - (if undeveloped >= 6 && rank_of(m.dest as int) == back_rank(side) {
        35int
    } else {
        0
    }) - (if undeveloped > 6 && mover == Piece::Queen {
        25int
    } else {
        0
    })
}

/// Malus for a king move while the player may still castle.
pub open spec fn king_part(rights: CastleRights, mover: Piece) -> int {
    if mover == Piece::King && rights != CastleRights::NoRights {
        -25
    } else {
        0
    }
}

/// The part of a move's rank that the position before the move decides.
pub open spec fn static_rank(position: PositionView, m: Move) -> int {
    let mover = position.squares[m.source as int]->0.piece;
    promotion_bonus(m) + capture_part(position, m) + opening_part(
        position.side,
        undeveloped_pawns(position),
        mover,
        m,
    ) + king_part(position.castle_rights(position.side), mover)
}

/// The rank of a move: its static part, the history bonus for what the table
/// holds of the position reached, and 50 if the move gives check.
pub open spec fn rank(position: PositionView, m: Move, found: Option<Entry>, checkers: u64) -> int {
    static_rank(position, m) + history_bonus(found) + (if checkers != 0 {
        50int
    } else {
        0
    })
}

/// The rank that move ordering gives `m` in `position` before `table`.
pub open spec fn move_rank(position: PositionView, table: TableView, m: Move) -> int {
    rank(
        position,
        m,
        lookup(table.entries, zobrist_of(position_after(position, m))),
        checkers_of(position_after(position, m)),
    )
}

/// Whether the table holds an entry for the position that `m` leads to.
pub open spec fn known(position: PositionView, table: TableView, m: Move) -> bool {
    lookup(table.entries, zobrist_of(position_after(position, m))) is Some
}

/// Every history bonus that the table can give is within `HISTORY_LIMIT`.
pub open spec fn history_fits(table: TableView) -> bool {
    forall|i: int|
        0 <= i < table.entries.len() ==> -HISTORY_LIMIT <= #[trigger] history_bonus(table.entries[i])
            <= HISTORY_LIMIT
}

pub fn piece_value(piece: Piece) -> (value: i32)
    ensures
        value == worth(piece),
{
    match piece {
        Piece::Pawn => 100,
        Piece::Knight => 300,
        Piece::Bishop => 300,
        Piece::Rook => 500,
        Piece::Queen => 900,
        Piece::King => 99900,
    }
}

pub fn consider_value(piece: Piece) -> (value: i32)
    ensures
        value == consider(piece),
{
    match piece {
        Piece::Pawn => 20,
        Piece::Knight => 60,
        Piece::Bishop => 60,
        Piece::Rook => 100,
        Piece::Queen => 250,
        Piece::King => 9990,
    }
}

/// The rank on which the pieces of the player to move start.
pub fn get_player_back_rank(position: &Position) -> (rank: u8)
    ensures
        rank == back_rank(position@.side),
{
    match position.side_to_move() {
        Color::White => 0,
        Color::Black => 7,
    }
}

/// The squares, one bit each, on which the pawns of the player to move start.
pub fn get_player_pawn_bits(position: &Position) -> (bits: u64)
    ensures
        bits == (match position@.side {
            Color::White => 0xff00u64,
            Color::Black => 0xff000000000000u64,
        }),
        forall|square: u8|
            square < 64 ==> (#[trigger] mask_has(bits, square) <==> rank_of(
                square as int,
            ) == pawn_rank(position@.side)),
{
    let bits: u64 = match position.side_to_move() {
        Color::White => 0xff00,
        Color::Black => 0xff000000000000,
    };
    assert forall|square: u8| square < 64 implies (#[trigger] mask_has(bits, square)
        <==> rank_of(square as int) == pawn_rank(position@.side)) by {
        let s = square as u64;
        assert(s < 64 ==> (((0xff00u64 >> s) & 1 == 1) <==> (8 <= s < 16))) by (bit_vector);
        assert(s < 64 ==> (((0xff000000000000u64 >> s) & 1 == 1) <==> (48 <= s < 56)))
            by (bit_vector);
    }
    bits
}

/// Number of pawns of the player to move that have not moved yet.
pub fn count_undeveloped_pawns(position: &Position) -> (count: u32)
    ensures
        count == undeveloped_pawns(position@),
        count <= 8,
{
    position.check();
    let side = position.side_to_move();
    let home = get_player_pawn_bits(position);
    let ghost base = 8 * pawn_rank(position@.side);
    let mut count: u32 = 0;
    let mut square: u8 = 0;
    while square < 64
        invariant
            square <= 64,
            side == position@.side,
            position@.shaped(),
            base == 8 * pawn_rank(position@.side),
            forall|s: u8|
                s < 64 ==> (#[trigger] mask_has(home, s) <==> rank_of(s as int)
                    == pawn_rank(position@.side)),
            count == home_pawns_below(position@, square as int),
            count <= (if square <= base {
                0
            } else if square >= base + 8 {
                8
            } else {
                square - base
            }),
        decreases 64 - square,
    {
        let on_rank = (home >> (square as u64)) & 1 == 1;
        assert(on_rank == mask_has(home, square));
        let own_pawn = match position.man_on(square) {
            Some(man) => man.piece == Piece::Pawn && man.color == side,
            None => false,
        };
        if on_rank && own_pawn {
            count += 1;
        }
        square += 1;
    }
    count
}

/// Bonus for taking `victim` with `attacker`.
fn capture_value(victim: Piece, attacker: Piece) -> (value: i32)
    ensures
        value == capture_bonus(victim, attacker),
        10 <= value <= 19960,
{
    let gain: i32 = 2 * consider_value(victim) - consider_value(attacker);
    if gain > 10 {
        gain
    } else {
        10
    }
}

/// What the opening asks of a move, `back` being the rank on which the
/// pieces of `side` start.
fn opening_value(side: Color, back: u8, undeveloped: u32, mover: Piece, m: Move) -> (value: i32)
    requires
        back == back_rank(side),
    ensures
        value == opening_part(side, undeveloped as nat, mover, m),
        -60 <= value <= 80,
{
    let mut value: i32 = 0;
    let is_early_game = undeveloped >= 6;
    if is_early_game && mover == Piece::Pawn {
        let file: i32 = (m.source % 8) as i32;
        let distance: i32 = if file >= 4 {
            file - 4
        } else {
            4 - file
        };
        value += (8 - distance) * 10;
    }
    if is_early_game && m.dest / 8 == back {
        value -= 35;
    }
    if undeveloped > 6 && mover == Piece::Queen {
        value -= 25;
    }
    value
}

/// The part of a move's rank that the position before the move decides.
pub fn static_value(position: &Position, m: Move) -> (value: i32)
    requires
        m.source < 64,
        m.dest < 64,
        position@.squares[m.source as int] is Some,
    ensures
        value == static_rank(position@, m),
        -100 <= value <= 70100,
{
    position.check();
    let mover = match position.piece_on(m.source) {
        Some(piece) => piece,
        None => Piece::Pawn,
    };
    let promotion: i32 = match m.promotion {
        Some(promoted) => 5 * consider_value(promoted),
        None => 0,
    };
    let capture: i32 = match position.piece_on(m.dest) {
        Some(captured) => capture_value(captured, mover),
        None => 0,
    };
    let undeveloped = count_undeveloped_pawns(position);
    let opening = opening_value(
        position.side_to_move(),
        get_player_back_rank(position),
        undeveloped,
        mover,
        m,
    );
    let king: i32 = if mover == Piece::King && position.my_castle_rights()
        != CastleRights::NoRights {
        -25
    } else {
        0
    };
    promotion + capture + opening + king
}

/// The history bonus for what the table holds.
fn history_value(found: Option<Entry>) -> (value: i64)
    ensures
        value == history_bonus(found),
{
    match found {
        Some(entry) => {
            let deep: i64 = 1024 * (entry.depth_of_search as i64);
            assert(-0x8000 * 0x2000000 <= deep * entry.depth_of_score <= 0x8000 * 0x2000000)
                by (nonlinear_arith)
                requires
                    -0x2000000 <= deep <= 0x2000000,
                    -0x8000 <= entry.depth_of_score <= 0x8000,
            ;
            assert(deep * entry.depth_of_score == 1024 * entry.depth_of_search
                * entry.depth_of_score) by (nonlinear_arith)
                requires
                    deep == 1024 * entry.depth_of_search,
            ;
            deep * (entry.depth_of_score as i64)
        },
        None => 0,
    }
}

/// The rank of `m` in `position`, given what the table holds of the position
/// that the move leads to and which chessmen give check there.
pub fn rate_move(position: &Position, m: Move, found: Option<Entry>, checkers: u64) -> (value: i32)
    requires
        m.source < 64,
        m.dest < 64,
        position@.squares[m.source as int] is Some,
        -HISTORY_LIMIT <= history_bonus(found) <= HISTORY_LIMIT,
    ensures
        value == rank(position@, m, found, checkers),
{
    let fixed = static_value(position, m);
    let history = history_value(found);
    let check: i64 = if checkers != 0 {
        50
    } else {
        0
    };
    (fixed as i64 + history + check) as i32
}

/// Rates `m` for move ordering: makes the move, asks the table about the
/// position reached, and counts a hit of the table if it knows it.
pub fn eval_move(position: &Position, table: &TransTable, counters: &mut Counters, m: Move) -> (value:
    i32)
    requires
        table.wf(),
        history_fits(table@),
        legal_moves_of(position@).contains(m),
        m.source < 64,
        m.dest < 64,
        position@.squares[m.source as int] is Some,
    ensures
        value == move_rank(position@, table@, m),
        final(counters)@ == (if known(position@, table@, m) {
            bump(old(counters)@, Stat::TableEvalHits)
        } else {
            old(counters)@
        }),
{
    let applied = make_move(position, m);
    let found = table.get(zobrist(&applied));
    if found.is_some() {
        Stat::TableEvalHits.inc(counters);
    }
    proof {
        lemma_slot_in_range(zobrist_of(applied@));
        assert(history_bonus(found) == history_bonus(
            table@.entries[slot_of(zobrist_of(applied@))],
        ) || found is None);
    }
    rate_move(position, m, found, checkers(&applied))
}

/// The static evaluation of `position`, from the cache of `table` if it is
/// there, else from `evaluator`, whose answer is then cached.
pub fn eval_board<F: Fn(&Position) -> i32>(
    position: &Position,
    table: &mut TransTable,
    counters: &mut Counters,
    evaluator: &F,
) -> (score: i32)
    requires
        old(table).wf(),
        forall|p: &Position| call_requires(evaluator, (p,)),
    ensures
        final(table).wf(),
        match lookup_nnue(old(table)@.nnue, zobrist_of(position@)) {
            Some(cached) => {
                &&& score == cached.score
                &&& final(table)@ == old(table)@
                &&& final(counters)@ == bump(old(counters)@, Stat::NNUECacheHits)
            },
            None => {
                &&& call_ensures(evaluator, (position,), score)
                &&& final(table)@ == old(table)@.put_nnue(
                    NNUEEntry { zobrist: zobrist_of(position@), score },
                )
                &&& final(counters)@ == bump(old(counters)@, Stat::NNUECacheMisses)
            },
        },
{
    let hash = zobrist(position);
    match table.get_nnue(hash) {
        Some(cached) => {
            Stat::NNUECacheHits.inc(counters);
            cached.score
        },
        None => {
            Stat::NNUECacheMisses.inc(counters);
            let score = evaluator(position);
            table.put_nnue(NNUEEntry { zobrist: hash, score });
            score
        },
    }
}

} // verus!
