//! The search: negamax with alpha-beta windows, principal-variation scouting,
//! a capture-only extension at the horizon, and a table of what was found.
//!
//! A score is always that of the player to move. A search with window
//! `(alpha, beta)` is fail-hard: it answers `beta` for every score from
//! `beta` on, and `alpha` for every score up to `alpha`.

use vstd::prelude::*;
use crate::board::{Move, Position, PositionView, RatedMove};
use crate::evaluation::{eval_board, history_bonus, history_fits, HISTORY_LIMIT};
use crate::oracle::{
    checkers, checkers_of, legal_moves, legal_moves_of, make_move, position_after, zobrist,
    zobrist_of,
};
use crate::ordering::{
    capture_moves_of, capturing_moves, descending, lemma_moves_of_multiset, lemma_sorted_by_rank,
    moves_of, ordered_captures, ordered_moves, sort_moves, sorted_by_rank, sorted_moves, takes,
    tally_captures, tally_moves,
};
use crate::statistics::{bump, zeroed, Counters, CountersView, Stat};
use crate::table::{
    empty_view, lemma_get_after_put, lemma_slot_in_range, lookup, lookup_nnue, slot_of, Entry,
    NNUEEntry, TableView, TransTable,
};

verus! {

/// Bound of every window and every score.
pub const INF: i32 = 999999999;

/// Base of the scores that stand for a forced mate.
pub const WIN: i32 = 999999;

/// Score of a position in which the player to move has no move and is not in
/// check: half a loss.
pub const STALEMATE: i32 = -499999;

/// The deepest search. Up to this depth the history bonus of an entry fits in
/// a move's rank.
pub const MAX_DEPTH: i16 = 1024;

/// A score, and the table and the counters that a search leaves behind.
pub struct Outcome {
    pub score: int,
    pub table: TableView,
    pub counters: CountersView,
}

/// The outcome seen from the other player.
pub open spec fn flipped(outcome: Outcome) -> Outcome {
    Outcome { score: -outcome.score, ..outcome }
}

/// What a fail-hard search with window `(alpha, beta)` makes of the score
/// `score`.
pub open spec fn fail_hard(score: int, alpha: int, beta: int) -> int {
    if score >= beta {
        beta
    } else if score > alpha {
        score
    } else {
        alpha
    }
}

/// Score of a position without a legal move, `depth` plies above the
/// horizon: a loss if the player to move is in check, the nearer to the root
/// the worse, else a stalemate.
pub open spec fn terminal_score(checkers: u64, depth: int) -> int {
    if checkers != 0 {
        -(WIN + depth * 1000)
    } else {
        STALEMATE as int
    }
}

/// Largest magnitude of a score that a search of total depth `depth` stores.
pub open spec fn band(depth: int) -> int {
    WIN + depth * 1000 + 1
}

/// Whether an entry is one that a search may have stored.
pub open spec fn entry_ok(entry: Entry) -> bool {
    &&& 0 <= entry.depth_of_score <= entry.depth_of_search <= MAX_DEPTH
    &&& -INF <= entry.score <= INF
}

/// Whether a table is well formed and holds only entries that a search may
/// have stored.
pub open spec fn searchable(table: TableView) -> bool {
    &&& table.wf()
    &&& forall|i: int|
        0 <= i < table.entries.len() ==> (#[trigger] table.entries[i] matches Some(e) ==> entry_ok(e))
}

/// Whether every entry has a score within the band of the search that stored
/// it, and was stored by a search of total depth `total_depth` at most.
pub open spec fn banded(table: TableView, total_depth: int) -> bool {
    forall|i: int|
        0 <= i < table.entries.len() ==> (#[trigger] table.entries[i] matches Some(e) ==> -band(
            e.depth_of_search as int,
        ) <= e.score <= band(e.depth_of_search as int) && e.depth_of_search <= total_depth)
}

/// Whether every static evaluation, cached or yet to be made, has a magnitude
/// of `limit` at most.
pub open spec fn evals_within<F: Fn(&Position) -> i32>(
    table: TableView,
    evaluator: &F,
    limit: int,
) -> bool {
    &&& forall|i: int|
        0 <= i < table.nnue.len() ==> (#[trigger] table.nnue[i] matches Some(e) ==> -limit
            <= e.score <= limit)
    &&& forall|p: &Position, s: i32| #[trigger]
        call_ensures(*evaluator, (p,), s) ==> -limit <= s <= limit
}

/// Whether `model` says what `evaluator` answers for every position.
pub open spec fn computes<F: Fn(&Position) -> i32>(
    evaluator: &F,
    model: spec_fn(PositionView) -> int,
) -> bool {
    forall|p: &Position, s: i32| #[trigger] call_ensures(*evaluator, (p,), s) ==> s == model(p@)
}

/// The static evaluation of a position before a table: the cached score if
/// there is one, else the evaluator's, which is then cached. A hit or a miss
/// of the cache is counted.
pub open spec fn stand_pat(
    model: spec_fn(PositionView) -> int,
    position: PositionView,
    table: TableView,
    counters: CountersView,
) -> Outcome {
    match lookup_nnue(table.nnue, zobrist_of(position)) {
        Some(cached) => Outcome {
            score: cached.score as int,
            table,
            counters: bump(counters, Stat::NNUECacheHits),
        },
        None => Outcome {
            score: model(position),
            table: table.put_nnue(
                NNUEEntry { zobrist: zobrist_of(position), score: model(position) as i32 },
            ),
            counters: bump(counters, Stat::NNUECacheMisses),
        },
    }
}

/// The capture search of a position: its static evaluation, bettered by the
/// best capture if there is a better one.
pub open spec fn quiesce(
    model: spec_fn(PositionView) -> int,
    position: PositionView,
    table: TableView,
    counters: CountersView,
    alpha: int,
    beta: int,
) -> Outcome
    decreases position.men(), 1int, 0int,
{
    let stand = stand_pat(model, position, table, counters);
    if stand.score >= beta {
        Outcome { score: beta, ..stand }
    } else {
        quiesce_from(
            model,
            position,
            ordered_captures(position, stand.table),
            0,
            stand.table,
            tally_captures(position, stand.table, stand.counters),
            if stand.score > alpha {
                stand.score
            } else {
                alpha
            },
            beta,
        )
    }
}

/// The capture search of a position from its capture `i` on, with the best
/// score so far as `alpha`. The first capture is searched with the full
/// window; every other with a window of width one, and again with the full
/// window if that shows it to be better, which is counted as a miss of the
/// principal variation. A score from `beta` on cuts the branch.
pub open spec fn quiesce_from(
    model: spec_fn(PositionView) -> int,
    position: PositionView,
    moves: Seq<RatedMove>,
    i: int,
    table: TableView,
    counters: CountersView,
    alpha: int,
    beta: int,
) -> Outcome
    decreases position.men(), 0int, moves.len() - i,
{
    if i < 0 || i >= moves.len() {
        Outcome { score: alpha, table, counters }
    } else {
        let child = position_after(position, moves[i].0);
        if child.men() >= position.men() {
            Outcome { score: alpha, table, counters }
        } else {
            let found = if moves[i].0 == moves[0].0 {
                flipped(quiesce(model, child, table, counters, -beta, -alpha))
            } else {
                let probe = flipped(quiesce(model, child, table, counters, -alpha - 1, -alpha));
                if alpha < probe.score && probe.score < beta {
                    flipped(
                        quiesce(
                            model,
                            child,
                            probe.table,
                            bump(probe.counters, Stat::PVMisses),
                            -beta,
                            -probe.score,
                        ),
                    )
                } else {
                    probe
                }
            };
            if found.score >= beta {
                Outcome {
                    score: beta,
                    table: found.table,
                    counters: bump(found.counters, Stat::BranchesCut),
                }
            } else {
                quiesce_from(
                    model,
                    position,
                    moves,
                    i + 1,
                    found.table,
                    found.counters,
                    if found.score > alpha {
                        found.score
                    } else {
                        alpha
                    },
                    beta,
                )
            }
        }
    }
}

/// The entry that spares a search of `depth` plies the work: one for the
/// same position whose score was computed at least as deep.
pub open spec fn table_hit(table: TableView, hash: u64, depth: int) -> Option<Entry> {
    match lookup(table.entries, hash) {
        Some(entry) if entry.depth_of_score >= depth => Some(entry),
        _ => None,
    }
}

/// What a search above the horizon knows of a position without trying a
/// move: the score of a table hit, else the score of a lost or drawn game if
/// there is no legal move.
pub open spec fn verdict(position: PositionView, table: TableView, depth: int) -> Option<int> {
    match table_hit(table, zobrist_of(position), depth) {
        Some(entry) => Some(entry.score as int),
        None => if ordered_moves(position, table).len() == 0 {
            Some(terminal_score(checkers_of(position), depth))
        } else {
            None
        },
    }
}

/// The counters after a search above the horizon has looked at a position
/// without trying a move: a hit of the table is counted; else a miss, what
/// rating the legal moves counts, and a checkmate if there is no legal move
/// and the player to move is in check.
pub open spec fn looked(
    position: PositionView,
    table: TableView,
    counters: CountersView,
    depth: int,
) -> CountersView {
    if table_hit(table, zobrist_of(position), depth) is Some {
        bump(counters, Stat::TableHits)
    } else {
        let rated = tally_moves(position, table, bump(counters, Stat::TableMisses));
        if ordered_moves(position, table).len() == 0 && checkers_of(position) != 0 {
            bump(rated, Stat::CheckmatesFound)
        } else {
            rated
        }
    }
}

/// How a search of `depth` plies ends before it tries any move, if it does:
/// at the horizon with the capture search, which is counted as a node
/// evaluated; above the horizon with the verdict.
pub open spec fn opening(
    model: spec_fn(PositionView) -> int,
    position: PositionView,
    table: TableView,
    counters: CountersView,
    depth: int,
    alpha: int,
    beta: int,
) -> Option<Outcome> {
    if depth <= 0 {
        Some(
            quiesce(model, position, table, bump(counters, Stat::NodesEvaluated), alpha, beta),
        )
    } else {
        match verdict(position, table, depth) {
            Some(score) => Some(
                Outcome { score, table, counters: looked(position, table, counters, depth) },
            ),
            None => None,
        }
    }
}

/// The entry that a search of `position` stores.
pub open spec fn stored(position: PositionView, score: int, depth: int, total_depth: int) -> Entry {
    Entry {
        zobrist: zobrist_of(position),
        score: score as i32,
        depth_of_score: depth as i16,
        depth_of_search: total_depth as i16,
    }
}

/// The search of a position to `depth` plies with window `(alpha, beta)`, in
/// a search of `total_depth` plies in all.
pub open spec fn search(
    model: spec_fn(PositionView) -> int,
    position: PositionView,
    table: TableView,
    counters: CountersView,
    depth: int,
    total_depth: int,
    alpha: int,
    beta: int,
) -> Outcome
    decreases depth, 1int, 0int,
{
    match opening(model, position, table, counters, depth, alpha, beta) {
        Some(outcome) => outcome,
        None => search_from(
            model,
            position,
            ordered_moves(position, table),
            0,
            table,
            looked(position, table, counters, depth),
            depth,
            total_depth,
            alpha,
            beta,
        ),
    }
}

/// The search of a position from its move `i` on, with the best score so far
/// as `alpha`. The first move is searched with the full window; every other
/// is scouted, and searched with the full window if the scout found it
/// better, which is counted as a miss of the principal variation. A score
/// from `beta` on cuts the branch: it is stored and `beta` is the answer.
/// Else the best score is stored and is the answer.
pub open spec fn search_from(
    model: spec_fn(PositionView) -> int,
    position: PositionView,
    moves: Seq<RatedMove>,
    i: int,
    table: TableView,
    counters: CountersView,
    depth: int,
    total_depth: int,
    alpha: int,
    beta: int,
) -> Outcome
    decreases depth, 0int, moves.len() - i,
{
    if i < 0 || i >= moves.len() {
        Outcome {
            score: alpha,
            table: table.put(stored(position, alpha, depth, total_depth)),
            counters,
        }
    } else if depth <= 0 {
        Outcome { score: alpha, table, counters }
    } else {
        let child = position_after(position, moves[i].0);
        let found = if moves[i].0 == moves[0].0 {
            flipped(search(model, child, table, counters, depth - 1, total_depth, -beta, -alpha))
        } else {
            let probe = flipped(scout(model, child, table, counters, depth - 1, -alpha));
            if alpha < probe.score && probe.score < beta {
                flipped(
                    search(
                        model,
                        child,
                        probe.table,
                        bump(probe.counters, Stat::PVMisses),
                        depth - 1,
                        total_depth,
                        -beta,
                        -probe.score,
                    ),
                )
            } else {
                probe
            }
        };
        if found.score >= beta {
            Outcome {
                score: beta,
                table: found.table.put(stored(position, found.score, depth, total_depth)),
                counters: bump(found.counters, Stat::BranchesCut),
            }
        } else {
            search_from(
                model,
                position,
                moves,
                i + 1,
                found.table,
                found.counters,
                depth,
                total_depth,
                if found.score > alpha {
                    found.score
                } else {
                    alpha
                },
                beta,
            )
        }
    }
}

/// The scout of a position: a search with the window `(beta - 1, beta)` that
/// only tells whether some move reaches `beta`, and stores nothing.
pub open spec fn scout(
    model: spec_fn(PositionView) -> int,
    position: PositionView,
    table: TableView,
    counters: CountersView,
    depth: int,
    beta: int,
) -> Outcome
    decreases depth, 1int, 0int,
{
    match opening(model, position, table, counters, depth, beta - 1, beta) {
        Some(outcome) => outcome,
        None => scout_from(
            model,
            position,
            ordered_moves(position, table),
            0,
            table,
            looked(position, table, counters, depth),
            depth,
            beta,
        ),
    }
}

/// The scout of a position from its move `i` on.
pub open spec fn scout_from(
    model: spec_fn(PositionView) -> int,
    position: PositionView,
    moves: Seq<RatedMove>,
    i: int,
    table: TableView,
    counters: CountersView,
    depth: int,
    beta: int,
) -> Outcome
    decreases depth, 0int, moves.len() - i,
{
    if i < 0 || i >= moves.len() {
        Outcome { score: beta - 1, table, counters }
    } else if depth <= 0 {
        Outcome { score: beta - 1, table, counters }
    } else {
        let child = position_after(position, moves[i].0);
        let found = flipped(scout(model, child, table, counters, depth - 1, 1 - beta));
        if found.score >= beta {
            Outcome { score: beta, ..found }
        } else {
            scout_from(model, position, moves, i + 1, found.table, found.counters, depth, beta)
        }
    }
}

/// Whether every search entry has a score of magnitude `limit` at most.
pub open spec fn scores_within(table: TableView, limit: int) -> bool {
    forall|i: int|
        0 <= i < table.entries.len() ==> (#[trigger] table.entries[i] matches Some(e) ==> -limit
            <= e.score <= limit)
}

/// Whether a search of total depth `total_depth` starts from a table and an
/// evaluator that keep within its band, with a window that does not force a
/// score out of it.
pub open spec fn in_band<F: Fn(&Position) -> i32>(
    table: TableView,
    evaluator: &F,
    total_depth: int,
    alpha: int,
    beta: int,
) -> bool {
    &&& banded(table, total_depth)
    &&& evals_within(table, evaluator, band(total_depth))
    &&& alpha <= band(total_depth)
    &&& beta >= -band(total_depth)
}

/// How a search starts: with its score, or with the moves to try.
pub enum Start {
    /// The search is over.
    Done(i32),
    /// The hash of the position, and its legal moves in search order.
    Moves(u64, Vec<RatedMove>),
}

/// Whether `score` and `after` are the static evaluation of a position and
/// the table that asking for it leaves behind: the cached score and the same
/// table, or an answer of the evaluator and the table with that answer
/// cached.
pub open spec fn stood_by<F: Fn(&Position) -> i32>(
    evaluator: &F,
    position: &Position,
    before: TableView,
    score: i32,
    after: TableView,
) -> bool {
    match lookup_nnue(before.nnue, zobrist_of(position@)) {
        Some(cached) => score == cached.score && after == before,
        None => call_ensures(*evaluator, (position,), score) && after == before.put_nnue(
            NNUEEntry { zobrist: zobrist_of(position@), score },
        ),
    }
}

/// Whether a move that a search of width one found better than `alpha` must
/// be searched again with the full window: its score lies strictly inside.
pub fn needs_full_search(alpha: i32, score: i32, beta: i32) -> (again: bool)
    ensures
        again == (alpha < score && score < beta),
{
    alpha < score && score < beta
}

/// Searches the captures of `position` beyond the horizon.
///
/// The score lies in the window. The search entries of the table stay as they
/// are; the evaluation cache learns what was evaluated. Where the static
/// evaluation reaches `beta`, or no capture is possible, the score is the
/// fail-hard score of the static evaluation. Where `model` says
/// what the evaluator answers, the score, the table and the counters are
/// those of `quiesce`. Where every static evaluation has a magnitude of
/// `limit` at most, so has the score, unless the window forces it further
/// out. The search ends: every capture leaves fewer chessmen on the board.
pub fn explore_captures<F: Fn(&Position) -> i32>(
    position: &Position,
    table: &mut TransTable,
    counters: &mut Counters,
    evaluator: &F,
    alpha: i32,
    beta: i32,
) -> (score: i32)
    requires
        searchable(old(table)@),
        -INF <= alpha < beta <= INF,
        forall|p: &Position| call_requires(*evaluator, (p,)),
    ensures
        searchable(final(table)@),
        final(table)@.entries == old(table)@.entries,
        alpha <= score <= beta,
        exists|stand: i32, stood: TableView| #[trigger]
            stood_by(evaluator, position, old(table)@, stand, stood) && (stand >= beta
                || capture_moves_of(position@).len() == 0 ==> score == fail_hard(
                stand as int,
                alpha as int,
                beta as int,
            ) && final(table)@ == stood),
        forall|model: spec_fn(PositionView) -> int| #[trigger]
            computes(evaluator, model) ==> (Outcome {
                score: score as int,
                table: final(table)@,
                counters: final(counters)@,
            }) == quiesce(
                model,
                position@,
                old(table)@,
                old(counters)@,
                alpha as int,
                beta as int,
            ),
        forall|limit: int| #[trigger]
            evals_within(old(table)@, evaluator, limit) ==> evals_within(
                final(table)@,
                evaluator,
                limit,
            ) && (if beta < -limit {
                beta as int
            } else {
                -limit
            }) <= score <= (if alpha > limit {
                alpha as int
            } else {
                limit
            }),
    decreases position@.men(),
{
    proof {
        lemma_searchable_fits(table@);
    }
    let stand = eval_board(position, table, counters, evaluator);
    let ghost stood = table@;
    proof {
        lemma_slot_in_range(zobrist_of(position@));
        assert forall|model: spec_fn(PositionView) -> int| #[trigger]
            computes(evaluator, model) implies (Outcome {
            score: stand as int,
            table: stood,
            counters: counters@,
        }) == stand_pat(model, position@, old(table)@, old(counters)@) by {}
        assert forall|limit: int| #[trigger]
            evals_within(old(table)@, evaluator, limit) implies evals_within(
            stood,
            evaluator,
            limit,
        ) && -limit <= stand <= limit by {
            lemma_slot_cached(old(table)@, zobrist_of(position@));
        }
    }
    assert(stood_by(evaluator, position, old(table)@, stand, stood));
    if stand >= beta {
        return beta;
    }
    let mut best = alpha;
    if stand > best {
        best = stand;
    }
    let moves = capturing_moves(position, table, counters);
    let mut i: usize = 0;
    while i < moves.len()
        invariant
            i <= moves@.len(),
            moves@ == ordered_captures(position@, stood),
            moves@.len() == capture_moves_of(position@).len(),
            stood_by(evaluator, position, old(table)@, stand, stood),
            stand < beta,
            i == 0 ==> table@ == stood && best == (if stand > alpha {
                stand
            } else {
                alpha
            }),
            forall|k: int|
                0 <= k < moves@.len() ==> legal_moves_of(position@).contains(
                    (#[trigger] moves@[k]).0,
                ) && takes(position@, moves@[k].0),
            searchable(table@),
            table@.entries == stood.entries,
            stood.entries == old(table)@.entries,
            -INF <= alpha <= best < beta <= INF,
            forall|p: &Position| call_requires(*evaluator, (p,)),
            forall|model: spec_fn(PositionView) -> int| #[trigger]
                computes(evaluator, model) ==> quiesce_from(
                    model,
                    position@,
                    moves@,
                    i as int,
                    table@,
                    counters@,
                    best as int,
                    beta as int,
                ) == quiesce(
                    model,
                    position@,
                    old(table)@,
                    old(counters)@,
                    alpha as int,
                    beta as int,
                ),
            forall|limit: int| #[trigger]
                evals_within(old(table)@, evaluator, limit) ==> evals_within(
                    table@,
                    evaluator,
                    limit,
                ) && -limit <= best <= (if alpha > limit {
                    alpha as int
                } else {
                    limit
                }),
        decreases moves@.len() - i,
    {
        let m = moves[i].0;
        let child = make_move(position, m);
        let ghost before = table@;
        let ghost counted = counters@;
        let first = m.same(&moves[0].0);
        let found = if first {
            -explore_captures(&child, table, counters, evaluator, -beta, -best)
        } else {
            let probe = -explore_captures(&child, table, counters, evaluator, -best - 1, -best);
            if needs_full_search(best, probe, beta) {
                Stat::PVMisses.inc(counters);
                -explore_captures(&child, table, counters, evaluator, -beta, -probe)
            } else {
                probe
            }
        };
        let ghost searched = counters@;
        proof {
            assert forall|model: spec_fn(PositionView) -> int| #[trigger]
                computes(evaluator, model) implies (if found >= beta {
                Outcome {
                    score: beta as int,
                    table: table@,
                    counters: bump(searched, Stat::BranchesCut),
                }
            } else {
                quiesce_from(
                    model,
                    position@,
                    moves@,
                    i + 1,
                    table@,
                    searched,
                    if found > best {
                        found as int
                    } else {
                        best as int
                    },
                    beta as int,
                )
            }) == quiesce_from(
                model,
                position@,
                moves@,
                i as int,
                before,
                counted,
                best as int,
                beta as int,
            ) by {
                assert(child@ == position_after(position@, moves@[i as int].0));
            }
            assert forall|limit: int| #[trigger]
                evals_within(old(table)@, evaluator, limit) implies evals_within(
                table@,
                evaluator,
                limit,
            ) && found <= (if best > limit {
                best as int
            } else {
                limit
            }) by {
                assert(evals_within(before, evaluator, limit));
            }
        }
        if found >= beta {
            Stat::BranchesCut.inc(counters);
            return beta;
        }
        if found > best {
            best = found;
        }
        i += 1;
    }
    best
}

/// Score of a position without a legal move.
pub fn terminal(checkers: u64, depth: i16) -> (score: i32)
    requires
        0 <= depth,
    ensures
        score == terminal_score(checkers, depth as int),
        -(WIN + depth * 1000) <= score <= STALEMATE,
{
    if checkers != 0 {
        -(WIN + (depth as i32) * 1000)
    } else {
        STALEMATE
    }
}

/// Starts the search of a position: at the horizon the capture search gives
/// the score; above it a table hit does, or the end of the game; else the
/// moves to try are handed out. No search entry is written.
pub fn init_search<F: Fn(&Position) -> i32>(
    position: &Position,
    table: &mut TransTable,
    counters: &mut Counters,
    evaluator: &F,
    depth: i16,
    alpha: i32,
    beta: i32,
) -> (start: Start)
    requires
        searchable(old(table)@),
        0 <= depth <= MAX_DEPTH,
        -INF <= alpha < beta <= INF,
        forall|p: &Position| call_requires(*evaluator, (p,)),
    ensures
        searchable(final(table)@),
        final(table)@.entries == old(table)@.entries,
        depth > 0 ==> final(table)@ == old(table)@ && final(counters)@ == looked(
            position@,
            old(table)@,
            old(counters)@,
            depth as int,
        ),
        match start {
            Start::Done(score) => {
                &&& -INF <= score <= INF
                &&& depth == 0 ==> alpha <= score <= beta
                &&& depth > 0 ==> verdict(position@, old(table)@, depth as int) == Some(score as int)
                &&& forall|model: spec_fn(PositionView) -> int| #[trigger]
                    computes(evaluator, model) ==> opening(
                        model,
                        position@,
                        old(table)@,
                        old(counters)@,
                        depth as int,
                        alpha as int,
                        beta as int,
                    ) == Some(
                        Outcome {
                            score: score as int,
                            table: final(table)@,
                            counters: final(counters)@,
                        },
                    )
                &&& forall|limit: int| #[trigger]
                    evals_within(old(table)@, evaluator, limit) && scores_within(
                        old(table)@,
                        limit,
                    ) && limit >= WIN + depth * 1000 ==> (if beta < -limit {
                        beta as int
                    } else {
                        -limit
                    }) <= score <= (if alpha > limit {
                        alpha as int
                    } else {
                        limit
                    })
            },
            Start::Moves(hash, moves) => {
                &&& depth > 0
                &&& hash == zobrist_of(position@)
                &&& verdict(position@, old(table)@, depth as int) is None
                &&& moves@ == ordered_moves(position@, old(table)@)
                &&& moves@.len() > 0
                &&& forall|k: int|
                    0 <= k < moves@.len() ==> legal_moves_of(position@).contains(
                        (#[trigger] moves@[k]).0,
                    )
            },
        },
        forall|limit: int| #[trigger]
            evals_within(old(table)@, evaluator, limit) ==> evals_within(
                final(table)@,
                evaluator,
                limit,
            ),
{
    if depth == 0 {
        Stat::NodesEvaluated.inc(counters);
        return Start::Done(explore_captures(position, table, counters, evaluator, alpha, beta));
    }
    let hash = zobrist(position);
    proof {
        lemma_slot_in_range(hash);
        lemma_searchable_fits(table@);
    }
    match table.get(hash) {
        Some(entry) => {
            if entry.depth_of_score >= depth {
                Stat::TableHits.inc(counters);
                return Start::Done(entry.score);
            } else {
                Stat::TableMisses.inc(counters);
            }
        },
        None => {
            Stat::TableMisses.inc(counters);
        },
    }
    let moves = sorted_moves(position, table, counters);
    if moves.len() == 0 {
        let attackers = checkers(position);
        if attackers != 0 {
            Stat::CheckmatesFound.inc(counters);
        }
        Start::Done(terminal(attackers, depth))
    } else {
        Start::Moves(hash, moves)
    }
}

/// Tells whether some move of `position` reaches `beta`: the answer is `beta`
/// if one does, else `beta - 1`, unless a table hit or the end of the game
/// gives the score before any move is tried. No search entry is written.
/// Where `model` says what the evaluator answers, the score, the table and
/// the counters are those of `scout`.
pub fn scout_search<F: Fn(&Position) -> i32>(
    position: &Position,
    table: &mut TransTable,
    counters: &mut Counters,
    evaluator: &F,
    depth: i16,
    beta: i32,
) -> (score: i32)
    requires
        searchable(old(table)@),
        0 <= depth <= MAX_DEPTH,
        -INF < beta <= INF,
        forall|p: &Position| call_requires(*evaluator, (p,)),
    ensures
        searchable(final(table)@),
        final(table)@.entries == old(table)@.entries,
        -INF <= score <= INF,
        depth == 0 ==> beta - 1 <= score <= beta,
        depth > 0 ==> (match verdict(position@, old(table)@, depth as int) {
            Some(known) => score == known && final(table)@ == old(table)@,
            None => score == beta || score == beta - 1,
        }),
        forall|model: spec_fn(PositionView) -> int| #[trigger]
            computes(evaluator, model) ==> (Outcome {
                score: score as int,
                table: final(table)@,
                counters: final(counters)@,
            }) == scout(
                model,
                position@,
                old(table)@,
                old(counters)@,
                depth as int,
                beta as int,
            ),
        forall|limit: int| #[trigger]
            evals_within(old(table)@, evaluator, limit) ==> evals_within(
                final(table)@,
                evaluator,
                limit,
            ) && (scores_within(old(table)@, limit) && limit >= WIN + depth * 1000 && -limit
                <= beta <= limit + 1 ==> -limit <= score <= limit),
    decreases depth,
{
    let moves = match init_search(position, table, counters, evaluator, depth, beta - 1, beta) {
        Start::Done(score) => {
            return score;
        },
        Start::Moves(_, moves) => moves,
    };
    let mut i: usize = 0;
    while i < moves.len()
        invariant
            i <= moves@.len(),
            moves@.len() > 0,
            moves@ == ordered_moves(position@, old(table)@),
            forall|k: int|
                0 <= k < moves@.len() ==> legal_moves_of(position@).contains(
                    (#[trigger] moves@[k]).0,
                ),
            verdict(position@, old(table)@, depth as int) is None,
            searchable(table@),
            table@.entries == old(table)@.entries,
            0 < depth <= MAX_DEPTH,
            -INF < beta <= INF,
            forall|p: &Position| call_requires(*evaluator, (p,)),
            forall|model: spec_fn(PositionView) -> int| #[trigger]
                computes(evaluator, model) ==> scout_from(
                    model,
                    position@,
                    moves@,
                    i as int,
                    table@,
                    counters@,
                    depth as int,
                    beta as int,
                ) == scout(
                    model,
                    position@,
                    old(table)@,
                    old(counters)@,
                    depth as int,
                    beta as int,
                ),
            forall|limit: int| #[trigger]
                evals_within(old(table)@, evaluator, limit) ==> evals_within(
                    table@,
                    evaluator,
                    limit,
                ) && (scores_within(old(table)@, limit) && limit >= WIN + depth * 1000 && -limit
                    <= beta <= limit + 1 && i > 0 ==> beta > -limit),
        decreases moves@.len() - i,
    {
        let child = make_move(position, moves[i].0);
        let ghost before = table@;
        let ghost counted = counters@;
        let found = -scout_search(&child, table, counters, evaluator, depth - 1, 1 - beta);
        proof {
            assert forall|model: spec_fn(PositionView) -> int| #[trigger]
                computes(evaluator, model) implies (if found >= beta {
                Outcome { score: beta as int, table: table@, counters: counters@ }
            } else {
                scout_from(
                    model,
                    position@,
                    moves@,
                    i + 1,
                    table@,
                    counters@,
                    depth as int,
                    beta as int,
                )
            }) == scout_from(
                model,
                position@,
                moves@,
                i as int,
                before,
                counted,
                depth as int,
                beta as int,
            ) by {
                assert(child@ == position_after(position@, moves@[i as int].0));
            }
            assert forall|limit: int| #[trigger]
                evals_within(old(table)@, evaluator, limit) implies evals_within(
                table@,
                evaluator,
                limit,
            ) && (scores_within(old(table)@, limit) && limit >= WIN + depth * 1000 && -limit
                <= beta <= limit + 1 ==> -limit <= found <= limit) by {
                assert(evals_within(before, evaluator, limit));
                assert(scores_within(old(table)@, limit) ==> scores_within(before, limit));
            }
        }
        if found >= beta {
            return beta;
        }
        i += 1;
    }
    beta - 1
}

/// Searches `position` to `depth` plies with the window `(alpha, beta)`, in
/// a search of `total_depth` plies in all.
///
/// At the horizon the score is that of the capture search. Above it, a table
/// hit or the end of the game gives the score and leaves the table as it is;
/// else the score lies in the window, and the table holds for the position
/// what was found: the score itself, or after a cutoff, with `beta` as the
/// answer, the score that caused it.
///
/// Where `model` says what the evaluator answers, the score, the table and
/// the counters are those of `search`. A table that a search may have made
/// stays one. Where the table, the evaluator and the window keep within the
/// band of `total_depth`, so do the score and every entry of the table
/// afterwards.
pub fn minimax<F: Fn(&Position) -> i32>(
    position: &Position,
    table: &mut TransTable,
    counters: &mut Counters,
    evaluator: &F,
    depth: i16,
    total_depth: i16,
    alpha: i32,
    beta: i32,
) -> (score: i32)
    requires
        searchable(old(table)@),
        0 <= depth <= total_depth <= MAX_DEPTH,
        -INF <= alpha < beta <= INF,
        forall|p: &Position| call_requires(*evaluator, (p,)),
    ensures
        searchable(final(table)@),
        -INF <= score <= INF,
        depth == 0 ==> alpha <= score <= beta && final(table)@.entries == old(table)@.entries,
        depth > 0 ==> (match verdict(position@, old(table)@, depth as int) {
            Some(known) => score == known && final(table)@ == old(table)@,
            None => {
                &&& alpha <= score <= beta
                &&& lookup(final(table)@.entries, zobrist_of(position@)) matches Some(entry)
                &&& entry.depth_of_score == depth
                &&& entry.depth_of_search == total_depth
                &&& if score == beta {
                    entry.score >= beta
                } else {
                    entry.score == score
                }
            },
        }),
        forall|model: spec_fn(PositionView) -> int| #[trigger]
            computes(evaluator, model) ==> (Outcome {
                score: score as int,
                table: final(table)@,
                counters: final(counters)@,
            }) == search(
                model,
                position@,
                old(table)@,
                old(counters)@,
                depth as int,
                total_depth as int,
                alpha as int,
                beta as int,
            ),
        in_band(old(table)@, evaluator, total_depth as int, alpha as int, beta as int) ==> in_band(
            final(table)@,
            evaluator,
            total_depth as int,
            score as int,
            score as int,
        ),
        forall|limit: int| #[trigger]
            evals_within(old(table)@, evaluator, limit) ==> evals_within(
                final(table)@,
                evaluator,
                limit,
            ),
    decreases depth,
{
    let ghost ready = in_band(old(table)@, evaluator, total_depth as int, alpha as int, beta as int);
    let ghost limit = band(total_depth as int);
    proof {
        lemma_band_covers(old(table)@, total_depth as int);
    }
    let (hash, moves) = match init_search(position, table, counters, evaluator, depth, alpha, beta) {
        Start::Done(score) => {
            proof {
                if ready {
                    assert(evals_within(old(table)@, evaluator, limit));
                }
            }
            return score;
        },
        Start::Moves(hash, moves) => (hash, moves),
    };
    let mut best = alpha;
    let mut i: usize = 0;
    while i < moves.len()
        invariant
            i <= moves@.len(),
            moves@.len() > 0,
            moves@ == ordered_moves(position@, old(table)@),
            forall|k: int|
                0 <= k < moves@.len() ==> legal_moves_of(position@).contains(
                    (#[trigger] moves@[k]).0,
                ),
            hash == zobrist_of(position@),
            verdict(position@, old(table)@, depth as int) is None,
            searchable(table@),
            0 < depth <= total_depth <= MAX_DEPTH,
            -INF <= alpha <= best < beta <= INF,
            limit == band(total_depth as int),
            ready == in_band(old(table)@, evaluator, total_depth as int, alpha as int, beta as int),
            forall|p: &Position| call_requires(*evaluator, (p,)),
            forall|model: spec_fn(PositionView) -> int| #[trigger]
                computes(evaluator, model) ==> search_from(
                    model,
                    position@,
                    moves@,
                    i as int,
                    table@,
                    counters@,
                    depth as int,
                    total_depth as int,
                    best as int,
                    beta as int,
                ) == search(
                    model,
                    position@,
                    old(table)@,
                    old(counters)@,
                    depth as int,
                    total_depth as int,
                    alpha as int,
                    beta as int,
                ),
            ready ==> banded(table@, total_depth as int) && evals_within(table@, evaluator, limit)
                && best <= limit && (i > 0 ==> best >= -limit),
            forall|any: int| #[trigger]
                evals_within(old(table)@, evaluator, any) ==> evals_within(table@, evaluator, any),
        decreases moves@.len() - i,
    {
        let m = moves[i].0;
        let child = make_move(position, m);
        let ghost before = table@;
        let ghost counted = counters@;
        let first = m.same(&moves[0].0);
        proof {
            lemma_band_covers(before, total_depth as int);
        }
        let found = if first {
            -minimax(&child, table, counters, evaluator, depth - 1, total_depth, -beta, -best)
        } else {
            let probe = -scout_search(&child, table, counters, evaluator, depth - 1, -best);
            let ghost probed = table@;
            proof {
                lemma_band_covers(probed, total_depth as int);
                if ready {
                    assert(evals_within(before, evaluator, limit));
                    assert(banded(probed, total_depth as int));
                }
            }
            if needs_full_search(best, probe, beta) {
                Stat::PVMisses.inc(counters);
                -minimax(&child, table, counters, evaluator, depth - 1, total_depth, -beta, -probe)
            } else {
                probe
            }
        };
        let ghost searched = counters@;
        proof {
            assert forall|model: spec_fn(PositionView) -> int| #[trigger]
                computes(evaluator, model) implies (if found >= beta {
                Outcome {
                    score: beta as int,
                    table: table@.put(
                        stored(position@, found as int, depth as int, total_depth as int),
                    ),
                    counters: bump(searched, Stat::BranchesCut),
                }
            } else {
                search_from(
                    model,
                    position@,
                    moves@,
                    i + 1,
                    table@,
                    searched,
                    depth as int,
                    total_depth as int,
                    if found > best {
                        found as int
                    } else {
                        best as int
                    },
                    beta as int,
                )
            }) == search_from(
                model,
                position@,
                moves@,
                i as int,
                before,
                counted,
                depth as int,
                total_depth as int,
                best as int,
                beta as int,
            ) by {
                assert(child@ == position_after(position@, moves@[i as int].0));
            }
            assert forall|any: int| #[trigger]
                evals_within(old(table)@, evaluator, any) implies evals_within(
                table@,
                evaluator,
                any,
            ) by {
                assert(evals_within(before, evaluator, any));
            }
        }
        if found >= beta {
            let entry = Entry {
                zobrist: hash,
                score: found,
                depth_of_score: depth,
                depth_of_search: total_depth,
            };
            proof {
                lemma_slot_in_range(hash);
                lemma_get_after_put(table@, entry, hash);
            }
            table.put(entry);
            Stat::BranchesCut.inc(counters);
            return beta;
        }
        if found > best {
            best = found;
        }
        i += 1;
    }
    let entry = Entry { zobrist: hash, score: best, depth_of_score: depth, depth_of_search: total_depth };
    proof {
        lemma_slot_in_range(hash);
        lemma_get_after_put(table@, entry, hash);
    }
    table.put(entry);
    best
}

/// In a table whose entries keep within their bands and come from searches
/// of `total_depth` plies at most, every score keeps within the band of
/// `total_depth`.
pub proof fn lemma_band_covers(table: TableView, total_depth: int)
    ensures
        banded(table, total_depth) ==> scores_within(table, band(total_depth)),
{
    if banded(table, total_depth) {
        assert forall|i: int| 0 <= i < table.entries.len() implies (
        #[trigger] table.entries[i] matches Some(e) ==> -band(total_depth) <= e.score <= band(
            total_depth,
        )) by {
            if let Some(e) = table.entries[i] {
                assert(band(e.depth_of_search as int) <= band(total_depth));
            }
        }
    }
}

/// A list of rated moves, and the table and the counters that a round of
/// searching leaves behind.
pub struct Round {
    pub moves: Seq<RatedMove>,
    pub table: TableView,
    pub counters: CountersView,
}

/// How many of `len` root moves a search of `depth` plies keeps: all of them
/// below depth 4; from there on the better half, but five at least.
pub open spec fn kept(len: int, depth: int) -> int {
    if depth < 4 || len <= 5 {
        len
    } else if len / 2 > 5 {
        len / 2
    } else {
        5
    }
}

/// The root moves from move `i` on with new scores: each gets what the
/// opponent's best answer leaves, found by a search of `depth - 1` plies with
/// the widest window.
pub open spec fn rescore(
    model: spec_fn(PositionView) -> int,
    position: PositionView,
    moves: Seq<RatedMove>,
    i: int,
    table: TableView,
    counters: CountersView,
    depth: int,
) -> Round
    decreases moves.len() - i,
{
    if i < 0 || i >= moves.len() {
        Round { moves, table, counters }
    } else {
        let found = flipped(
            search(
                model,
                position_after(position, moves[i].0),
                table,
                counters,
                depth - 1,
                depth,
                -(INF as int),
                INF as int,
            ),
        );
        rescore(
            model,
            position,
            moves.update(i, (moves[i].0, found.score as i32)),
            i + 1,
            found.table,
            found.counters,
            depth,
        )
    }
}

/// One round of deepening: the root moves that are kept, with their new
/// scores, best first.
pub open spec fn deepen(
    model: spec_fn(PositionView) -> int,
    position: PositionView,
    moves: Seq<RatedMove>,
    table: TableView,
    counters: CountersView,
    depth: int,
) -> Round {
    let round = rescore(
        model,
        position,
        moves.take(kept(moves.len() as int, depth)),
        0,
        table,
        counters,
        depth,
    );
    Round { moves: sorted_by_rank(round.moves), ..round }
}

/// The move that a search of `depth` plies from an empty table plays: the
/// best of the first round.
pub open spec fn best_move(
    model: spec_fn(PositionView) -> int,
    position: PositionView,
    depth: int,
) -> Move {
    deepen(
        model,
        position,
        ordered_moves(position, empty_view()),
        empty_view(),
        tally_moves(position, empty_view(), zeroed()),
        depth,
    ).moves[0].0
}

/// How many of `len` root moves a search of `depth` plies keeps.
pub fn kept_len(len: usize, depth: i16) -> (keep: usize)
    ensures
        keep == kept(len as int, depth as int),
        keep <= len,
        len > 0 ==> keep > 0,
{
    if depth < 4 || len <= 5 {
        len
    } else if len / 2 > 5 {
        len / 2
    } else {
        5
    }
}

/// One round of deepening: keeps the better root moves, gives each the score
/// that a search of `depth - 1` plies finds for the opponent, negated, and
/// sorts them, best first.
///
/// The moves that are kept stay the same moves. Where `model` says what the
/// evaluator answers, the round is that of `deepen`. Where the table and the
/// evaluator keep within the band of `depth`, so do the new scores and every
/// entry of the table afterwards.
pub fn calc_depth<F: Fn(&Position) -> i32>(
    position: &Position,
    table: &mut TransTable,
    counters: &mut Counters,
    evaluator: &F,
    depth: i16,
    moves: &mut Vec<RatedMove>,
)
    requires
        searchable(old(table)@),
        1 <= depth <= MAX_DEPTH,
        forall|k: int|
            0 <= k < old(moves)@.len() ==> legal_moves_of(position@).contains(
                (#[trigger] old(moves)@[k]).0,
            ),
        forall|p: &Position| call_requires(*evaluator, (p,)),
    ensures
        searchable(final(table)@),
        final(moves)@.len() == kept(old(moves)@.len() as int, depth as int),
        moves_of(final(moves)@).to_multiset() == moves_of(
            old(moves)@.take(kept(old(moves)@.len() as int, depth as int)),
        ).to_multiset(),
        descending(final(moves)@),
        forall|k: int|
            0 <= k < final(moves)@.len() ==> -INF <= (#[trigger] final(moves)@[k]).1 <= INF
                && legal_moves_of(position@).contains(final(moves)@[k].0),
        forall|model: spec_fn(PositionView) -> int| #[trigger]
            computes(evaluator, model) ==> (Round {
                moves: final(moves)@,
                table: final(table)@,
                counters: final(counters)@,
            }) == deepen(
                model,
                position@,
                old(moves)@,
                old(table)@,
                old(counters)@,
                depth as int,
            ),
        in_band(old(table)@, evaluator, depth as int, -INF as int, INF as int) ==> banded(
            final(table)@,
            depth as int,
        ) && evals_within(final(table)@, evaluator, band(depth as int)) && forall|k: int|
            0 <= k < final(moves)@.len() ==> -band(depth as int) <= (#[trigger] final(moves)@[k]).1
                <= band(depth as int),
{
    let keep = kept_len(moves.len(), depth);
    moves.truncate(keep);
    let ghost start = moves@;
    let ghost ready = in_band(old(table)@, evaluator, depth as int, -INF as int, INF as int);
    let ghost limit = band(depth as int);
    assert(start =~= old(moves)@.take(keep as int));
    let mut i: usize = 0;
    while i < moves.len()
        invariant
            i <= moves@.len(),
            moves@.len() == start.len(),
            moves_of(moves@) == moves_of(start),
            forall|k: int|
                0 <= k < start.len() ==> legal_moves_of(position@).contains((#[trigger] start[k]).0),
            forall|k: int| 0 <= k < i ==> -INF <= (#[trigger] moves@[k]).1 <= INF,
            searchable(table@),
            1 <= depth <= MAX_DEPTH,
            limit == band(depth as int),
            forall|p: &Position| call_requires(*evaluator, (p,)),
            forall|model: spec_fn(PositionView) -> int| #[trigger]
                computes(evaluator, model) ==> rescore(
                    model,
                    position@,
                    moves@,
                    i as int,
                    table@,
                    counters@,
                    depth as int,
                ) == rescore(model, position@, start, 0, old(table)@, old(counters)@, depth as int),
            ready ==> banded(table@, depth as int) && evals_within(table@, evaluator, limit)
                && forall|k: int| 0 <= k < i ==> -limit <= (#[trigger] moves@[k]).1 <= limit,
        decreases moves@.len() - i,
    {
        let m = moves[i].0;
        assert(m == moves_of(moves@)[i as int]);
        assert(m == start[i as int].0);
        let child = make_move(position, m);
        let ghost before = table@;
        let ghost counted = counters@;
        let ghost rated = moves@;
        let score = -minimax(&child, table, counters, evaluator, depth - 1, depth, -INF, INF);
        moves.set(i, (m, score));
        proof {
            assert(moves_of(moves@) =~= moves_of(start));
            assert forall|model: spec_fn(PositionView) -> int| #[trigger]
                computes(evaluator, model) implies rescore(
                model,
                position@,
                moves@,
                i + 1,
                table@,
                counters@,
                depth as int,
            ) == rescore(model, position@, rated, i as int, before, counted, depth as int) by {
                assert(child@ == position_after(position@, rated[i as int].0));
            }
            assert forall|k: int| 0 <= k < i + 1 implies -INF <= (#[trigger] moves@[k]).1 <= INF by {
                if k < i {
                    assert(moves@[k] == rated[k]);
                }
            }
            if ready {
                assert forall|k: int| 0 <= k < i + 1 implies -limit <= (#[trigger] moves@[k]).1
                    <= limit by {
                    if k < i {
                        assert(moves@[k] == rated[k]);
                    }
                }
            }
        }
        i += 1;
    }
    let ghost scored = moves@;
    proof {
        lemma_sorted_by_rank(scored);
    }
    sort_moves(moves);
    proof {
        lemma_moves_of_multiset(moves@, scored);
        assert forall|k: int| 0 <= k < moves@.len() implies -INF <= (#[trigger] moves@[k]).1 <= INF
            && legal_moves_of(position@).contains(moves@[k].0) && (ready ==> -limit <= moves@[k].1
            <= limit) by {
            assert(scored.contains(moves@[k]));
            let j = choose|j: int| 0 <= j < scored.len() && scored[j] == moves@[k];
            assert(scored[j].0 == moves_of(scored)[j]);
            assert(moves_of(start)[j] == start[j].0);
        }
    }
}

/// Whether the player to move has a legal move.
pub fn has_legal_move(position: &Position) -> (any: bool)
    ensures
        any == (legal_moves_of(position@).len() > 0),
{
    legal_moves(position).len() > 0
}

/// The move that a search of `depth` plies plays in `position`, starting
/// from an empty table: a legal move. Where `model` says what the evaluator
/// answers, it is the move that `best_move` names: the same position, depth
/// and evaluation always give the same move.
pub fn calculate_move_until_depth<F: Fn(&Position) -> i32>(
    position: &Position,
    depth: i16,
    evaluator: &F,
) -> (m: Move)
    requires
        legal_moves_of(position@).len() > 0,
        1 <= depth <= MAX_DEPTH,
        forall|p: &Position| call_requires(*evaluator, (p,)),
    ensures
        legal_moves_of(position@).contains(m),
        forall|model: spec_fn(PositionView) -> int| #[trigger]
            computes(evaluator, model) ==> m == best_move(model, position@, depth as int),
{
    let mut table = TransTable::new();
    let mut counters = Counters::new();
    proof {
        lemma_empty_searchable();
    }
    let mut moves = sorted_moves(position, &table, &mut counters);
    calc_depth(position, &mut table, &mut counters, evaluator, depth, &mut moves);
    moves[0].0
}

/// The move that a search of `depth` plies plays in `position`, if there is a
/// legal move and the depth is one that can be searched.
pub fn best_move_until_depth<F: Fn(&Position) -> i32>(
    position: &Position,
    depth: i16,
    evaluator: &F,
) -> (found: Option<Move>)
    requires
        forall|p: &Position| call_requires(*evaluator, (p,)),
    ensures
        found is Some <==> legal_moves_of(position@).len() > 0 && 1 <= depth <= MAX_DEPTH,
        found matches Some(m) ==> legal_moves_of(position@).contains(m) && forall|
            model: spec_fn(PositionView) -> int,
        | #[trigger]
            computes(evaluator, model) ==> m == best_move(model, position@, depth as int),
{
    if depth < 1 || depth > MAX_DEPTH || !has_legal_move(position) {
        None
    } else {
        Some(calculate_move_until_depth(position, depth, evaluator))
    }
}

/// Every entry of a table that keeps within its bands has a score whose
/// magnitude is at most `WIN`, a thousand for each ply of the search that
/// stored it, and one.
pub proof fn lemma_banded_entry(table: TableView, total_depth: int, i: int)
    requires
        banded(table, total_depth),
        0 <= i < table.entries.len(),
        table.entries[i] is Some,
    ensures
        -(WIN + table.entries[i]->0.depth_of_search * 1000 + 1) <= table.entries[i]->0.score <= WIN
            + table.entries[i]->0.depth_of_search * 1000 + 1,
{
}

/// A search from an empty table keeps within the band of its depth if the
/// evaluator does.
pub proof fn lemma_fresh_in_band<F: Fn(&Position) -> i32>(evaluator: &F, depth: int)
    requires
        0 <= depth,
        forall|p: &Position, s: i32| #[trigger]
            call_ensures(*evaluator, (p,), s) ==> -band(depth) <= s <= band(depth),
    ensures
        in_band(empty_view(), evaluator, depth, -INF as int, INF as int),
{
}

/// The move that a search plays is a function of the position, the depth and
/// what the evaluator answers: two searches that agree in these play the
/// same move, however often they are run.
pub proof fn lemma_same_search_same_move<F: Fn(&Position) -> i32, G: Fn(&Position) -> i32>(
    first: &F,
    second: &G,
    model: spec_fn(PositionView) -> int,
    position: PositionView,
    depth: int,
    played: Move,
    replayed: Move,
)
    requires
        computes(first, model),
        computes(second, model),
        computes(first, model) ==> played == best_move(model, position, depth),
        computes(second, model) ==> replayed == best_move(model, position, depth),
    ensures
        played == replayed,
{
}

/// The empty table is one that a search may start from, and keeps within
/// every band.
pub proof fn lemma_empty_searchable()
    ensures
        searchable(empty_view()),
        forall|depth: int| banded(empty_view(), depth),
{
}

/// Seen from the other player, and then from the first again, an outcome is
/// what it was.
pub proof fn lemma_flipped_twice(outcome: Outcome)
    ensures
        flipped(flipped(outcome)) == outcome,
{
}

/// Negamax symmetry of a fail-hard window: what one player's search makes of
/// a score is the negative of what the other's makes of the negated score in
/// the negated window.
pub proof fn lemma_fail_hard_negated(score: int, alpha: int, beta: int)
    requires
        alpha < beta,
    ensures
        fail_hard(-score, -beta, -alpha) == -fail_hard(score, alpha, beta),
        alpha <= fail_hard(score, alpha, beta) <= beta,
{
}

/// The capture search of a position without a capture is the fail-hard
/// score of its static evaluation. So for two such positions whose
/// evaluations are each other's negatives, the scores in negated windows are
/// each other's negatives.
pub proof fn lemma_quiet_symmetry(
    model: spec_fn(PositionView) -> int,
    position: PositionView,
    other: PositionView,
    table: TableView,
    counters: CountersView,
    alpha: int,
    beta: int,
)
    requires
        alpha < beta,
        ordered_captures(position, stand_pat(model, position, table, counters).table).len() == 0,
        ordered_captures(other, stand_pat(model, other, table, counters).table).len() == 0,
        stand_pat(model, other, table, counters).score == -stand_pat(
            model,
            position,
            table,
            counters,
        ).score,
    ensures
        quiesce(model, position, table, counters, alpha, beta).score == fail_hard(
            stand_pat(model, position, table, counters).score,
            alpha,
            beta,
        ),
        quiesce(model, other, table, counters, -beta, -alpha).score == -quiesce(
            model,
            position,
            table,
            counters,
            alpha,
            beta,
        ).score,
{
}

/// A table that a search may have made gives no history bonus beyond the
/// limit.
pub proof fn lemma_searchable_fits(table: TableView)
    requires
        searchable(table),
    ensures
        history_fits(table),
{
    assert forall|i: int| 0 <= i < table.entries.len() implies -HISTORY_LIMIT
        <= #[trigger] history_bonus(table.entries[i]) <= HISTORY_LIMIT by {
        if let Some(e) = table.entries[i] {
            assert(entry_ok(e));
            let a = e.depth_of_search as int;
            let b = e.depth_of_score as int;
            assert(0 <= a * b <= 1024 * 1024) by (nonlinear_arith)
                requires
                    0 <= b <= a <= 1024,
            ;
            assert(1024 * a * b == 1024 * (a * b)) by (nonlinear_arith);
        }
    }
}

/// What the evaluation cache holds for a hash stands in the hash's slot.
pub proof fn lemma_slot_cached(table: TableView, hash: u64)
    requires
        table.wf(),
    ensures
        lookup_nnue(table.nnue, hash) matches Some(e) ==> table.nnue[slot_of(hash)]
            == Some(e),
        0 <= slot_of(hash) < table.nnue.len(),
{
    lemma_slot_in_range(hash);
}

} // verus!
