//! Iterative deepening as a machine that the caller drives: each step
//! searches the root one ply deeper and publishes the best move; a controller
//! latches what is published until its time is up.

use vstd::prelude::*;
use crate::board::{Move, Position, PositionView, RatedMove};
use crate::oracle::legal_moves_of;
use crate::ordering::{ordered_moves, sorted_moves, tally_moves};
use crate::search::{
    band, banded, calc_depth, computes, deepen, evals_within, in_band, lemma_empty_searchable,
    searchable, INF, MAX_DEPTH,
};
use crate::statistics::{full_report, rolled, texts, zeroed, Counters, CountersView, Stat};
use crate::table::{empty_view, TableView, TransTable};

verus! {

/// The depth of the first round.
pub const FIRST_DEPTH: i16 = 2;

/// A search in progress: the root, the table, the counters, the root moves
/// with the scores of the last round, and the depth of the next round.
pub struct Deepening {
    position: Position,
    table: TransTable,
    counters: Counters,
    moves: Vec<RatedMove>,
    depth: i16,
}

impl Deepening {
    /// The position that is searched.
    pub closed spec fn root(&self) -> PositionView {
        self.position@
    }

    /// The table of the search.
    pub closed spec fn table(&self) -> TableView {
        self.table@
    }

    /// The root moves, best first.
    pub closed spec fn moves(&self) -> Seq<RatedMove> {
        self.moves@
    }

    /// The depth of the next round.
    pub closed spec fn next_depth(&self) -> int {
        self.depth as int
    }

    /// The counters of the search.
    pub closed spec fn counters(&self) -> CountersView {
        self.counters@
    }

    /// Whether every score in the table keeps within the band of the search
    /// that stored it, and every static evaluation within the band of the
    /// next round.
    pub open spec fn tame<F: Fn(&Position) -> i32>(&self, evaluator: &F) -> bool {
        in_band(self.table(), evaluator, self.next_depth(), -INF as int, INF as int)
    }

    /// The table can be searched, the next depth is at least the first and at
    /// most one beyond the deepest, and the root moves are legal moves of the
    /// root, one at least if there is one.
    pub closed spec fn wf(&self) -> bool {
        &&& searchable(self.table@)
        &&& FIRST_DEPTH <= self.depth <= MAX_DEPTH + 1
        &&& forall|k: int|
            0 <= k < self.moves@.len() ==> legal_moves_of(self.position@).contains(
                (#[trigger] self.moves@[k]).0,
            )
        &&& legal_moves_of(self.position@).len() > 0 ==> self.moves@.len() > 0
    }

    /// Starts a search of `position`: an empty table, the legal moves in the
    /// order of their ranks, and the first depth ahead.
    pub fn new(position: Position) -> (search: Deepening)
        ensures
            search.wf(),
            search.root() == position@,
            search.table() == empty_view(),
            search.moves() == ordered_moves(position@, empty_view()),
            search.counters() == tally_moves(position@, empty_view(), zeroed()),
            search.next_depth() == FIRST_DEPTH,
    {
        let table = TransTable::new();
        let mut counters = Counters::new();
        proof {
            lemma_empty_searchable();
        }
        let moves = sorted_moves(&position, &table, &mut counters);
        Deepening { position, table, counters, moves, depth: FIRST_DEPTH }
    }

    /// Searches one round and publishes its best move, if the root has a
    /// move and the next depth can be searched; else leaves the search as it
    /// is. The move published is a legal move of the root; where `model` says
    /// what the evaluator answers, the round is that of `deepen`.
    pub fn advance<F: Fn(&Position) -> i32>(&mut self, evaluator: &F) -> (published: Option<Move>)
        requires
            old(self).wf(),
            forall|p: &Position| call_requires(*evaluator, (p,)),
        ensures
            final(self).wf(),
            final(self).root() == old(self).root(),
            published is Some <==> old(self).moves().len() > 0 && old(self).next_depth()
                <= MAX_DEPTH,
            published matches Some(m) ==> {
                &&& legal_moves_of(old(self).root()).contains(m)
                &&& m == final(self).moves()[0].0
                &&& final(self).next_depth() == old(self).next_depth() + 1
                &&& forall|model: spec_fn(PositionView) -> int| #[trigger]
                    computes(evaluator, model) ==> {
                        let round = deepen(
                            model,
                            old(self).root(),
                            old(self).moves(),
                            old(self).table(),
                            old(self).counters(),
                            old(self).next_depth(),
                        );
                        &&& final(self).moves() == round.moves
                        &&& final(self).table() == round.table
                        &&& final(self).counters() == rolled(round.counters)
                    }
            },
            old(self).tame(evaluator) ==> final(self).tame(evaluator),
            published is None ==> final(self).moves() == old(self).moves() && final(self).table()
                == old(self).table() && final(self).next_depth() == old(self).next_depth()
                && final(self).counters() == old(self).counters(),
    {
        if self.moves.len() == 0 || self.depth > MAX_DEPTH {
            return None;
        }
        calc_depth(
            &self.position,
            &mut self.table,
            &mut self.counters,
            evaluator,
            self.depth,
            &mut self.moves,
        );
        proof {
            if old(self).tame(evaluator) {
                lemma_band_grows(self.table@, evaluator, self.depth as int);
            }
        }
        self.depth = self.depth + 1;
        Stat::next_depth(&mut self.counters);
        Some(self.moves[0].0)
    }

    /// The depth of the next round.
    pub fn depth(&self) -> (depth: i16)
        ensures
            depth == self.next_depth(),
    {
        self.depth
    }

    /// The number of root moves that are still searched.
    pub fn width(&self) -> (width: usize)
        ensures
            width == self.moves().len(),
    {
        self.moves.len()
    }

    /// Ends the search: the lines that describe it, after which the counters
    /// start again at zero.
    pub fn finish(&mut self) -> (lines: Vec<String>)
        ensures
            texts(lines@) == full_report(old(self).counters()),
            final(self).counters() == zeroed(),
            final(self).root() == old(self).root(),
            final(self).table() == old(self).table(),
            final(self).moves() == old(self).moves(),
            final(self).next_depth() == old(self).next_depth(),
            old(self).wf() ==> final(self).wf(),
    {
        let lines = Stat::log(&self.counters);
        self.counters.clear();
        lines
    }
}

/// A table and an evaluator that keep within the band of one depth keep
/// within the band of the next.
pub proof fn lemma_band_grows<F: Fn(&Position) -> i32>(table: TableView, evaluator: &F, depth: int)
    requires
        0 <= depth,
        banded(table, depth),
        evals_within(table, evaluator, band(depth)),
    ensures
        in_band(table, evaluator, depth + 1, -INF as int, INF as int),
{
    assert(banded(table, depth + 1)) by {
        assert forall|i: int| 0 <= i < table.entries.len() implies (
        #[trigger] table.entries[i] matches Some(e) ==> -band(e.depth_of_search as int)
            <= e.score <= band(e.depth_of_search as int) && e.depth_of_search <= depth + 1) by {}
    }
    assert(evals_within(table, evaluator, band(depth + 1))) by {
        assert forall|i: int| 0 <= i < table.nnue.len() implies (
        #[trigger] table.nnue[i] matches Some(e) ==> -band(depth + 1) <= e.score <= band(
            depth + 1,
        )) by {}
        assert forall|p: &Position, s: i32| #[trigger]
            call_ensures(*evaluator, (p,), s) implies -band(depth + 1) <= s <= band(depth + 1) by {}
    }
}

/// The best move that was published so far; before any was, the move that no
/// game contains.
pub struct Controller {
    pub best: Move,
}

impl Controller {
    /// A controller that has heard of no move.
    pub fn new() -> (controller: Controller)
        ensures
            controller.best == Move::null_move(),
    {
        Controller { best: Move::null() }
    }

    /// One poll. While the time is not up, a move that was published is
    /// latched, and the search goes on. Once it is up, nothing is read any
    /// more, and the move latched last is the answer.
    pub fn poll(&mut self, expired: bool, message: Option<Move>) -> (answer: Option<Move>)
        ensures
            answer == (if expired {
                Some(old(self).best)
            } else {
                None
            }),
            final(self).best == (if expired {
                old(self).best
            } else {
                match message {
                    Some(m) => m,
                    None => old(self).best,
                }
            }),
    {
        if expired {
            Some(self.best)
        } else {
            if let Some(m) = message {
                self.best = m;
            }
            None
        }
    }
}

} // verus!
