//! Move ordering: the legal moves of a position, or those among them that
//! take something, each with its rank, best first. Moves of equal rank keep
//! the order in which the move generator yields them.

use rayon::slice::ParallelSliceMut;
use vstd::prelude::*;
use crate::board::{Move, Position, PositionView, RatedMove};
use crate::evaluation::{eval_move, history_fits, known, move_rank};
use crate::oracle::{legal_moves, legal_moves_masked, legal_moves_of, mask_has, well_placed};
use crate::statistics::{bump, Counters, CountersView, Stat};
use crate::table::{TableView, TransTable};

verus! {

/// `sorted` with `x` put behind the last move whose rank is at least that of
/// `x`.
pub open spec fn insert_by_rank(sorted: Seq<RatedMove>, x: RatedMove) -> Seq<RatedMove>
    decreases sorted.len(),
{
    if sorted.len() == 0 {
        seq![x]
    } else if sorted.last().1 >= x.1 {
        sorted.push(x)
    } else {
        insert_by_rank(sorted.drop_last(), x).push(sorted.last())
    }
}

/// `moves` in descending order of rank, moves of equal rank in the order that
/// they have in `moves`.
pub open spec fn sorted_by_rank(moves: Seq<RatedMove>) -> Seq<RatedMove>
    decreases moves.len(),
{
    if moves.len() == 0 {
        moves
    } else {
        insert_by_rank(sorted_by_rank(moves.drop_last()), moves.last())
    }
}

/// Whether the ranks of `moves` never rise.
pub open spec fn descending(moves: Seq<RatedMove>) -> bool {
    forall|i: int, j: int| 0 <= i <= j < moves.len() ==> moves[i].1 >= moves[j].1
}

/// The moves of a rated list, without their ranks.
pub open spec fn moves_of(rated: Seq<RatedMove>) -> Seq<Move> {
    Seq::new(rated.len(), |i: int| rated[i].0)
}

/// Each of `moves` with the rank that it has in `position` before `table`.
pub open spec fn rate_all(position: PositionView, table: TableView, moves: Seq<Move>) -> Seq<
    RatedMove,
> {
    Seq::new(moves.len(), |i: int| (moves[i], move_rank(position, table, moves[i]) as i32))
}

/// The counters after the first `n` of `moves` were rated: a hit of the table
/// is counted for each that leads to a position which the table knows.
pub open spec fn tally(
    position: PositionView,
    table: TableView,
    moves: Seq<Move>,
    n: int,
    counters: CountersView,
) -> CountersView
    decreases n,
{
    if n <= 0 {
        counters
    } else {
        let before = tally(position, table, moves, n - 1, counters);
        if known(position, table, moves[n - 1]) {
            bump(before, Stat::TableEvalHits)
        } else {
            before
        }
    }
}

/// The counters after all legal moves of a position were rated.
pub open spec fn tally_moves(position: PositionView, table: TableView, counters: CountersView) -> CountersView {
    tally(
        position,
        table,
        legal_moves_of(position),
        legal_moves_of(position).len() as int,
        counters,
    )
}

/// The counters after all capturing moves of a position were rated.
pub open spec fn tally_captures(
    position: PositionView,
    table: TableView,
    counters: CountersView,
) -> CountersView {
    tally(
        position,
        table,
        capture_moves_of(position),
        capture_moves_of(position).len() as int,
        counters,
    )
}

/// Whether a move reaches a square on which a chessman of the opponent of the
/// player to move stands.
pub open spec fn takes(position: PositionView, m: Move) -> bool {
    m.dest < 64 && position.holds(m.dest as int, position.side.other())
}

/// The legal moves that take something, in the order of the move generator.
pub open spec fn capture_moves_of(position: PositionView) -> Seq<Move> {
    legal_moves_of(position).filter(|m: Move| takes(position, m))
}

/// The legal moves of a position with their ranks, best first: the order in
/// which a search tries them.
pub open spec fn ordered_moves(position: PositionView, table: TableView) -> Seq<RatedMove> {
    sorted_by_rank(rate_all(position, table, legal_moves_of(position)))
}

/// The capturing moves of a position with their ranks, best first.
pub open spec fn ordered_captures(position: PositionView, table: TableView) -> Seq<RatedMove> {
    sorted_by_rank(rate_all(position, table, capture_moves_of(position)))
}

/// Whether the bits of `mask` are the squares on which the chessmen of the
/// opponent of the player to move stand.
pub open spec fn is_target_mask(position: PositionView, mask: u64) -> bool {
    forall|square: u8|
        square < 64 ==> (#[trigger] mask_has(mask, square) <==> position.holds(
            square as int,
            position.side.other(),
        ))
}

/// Putting a move into a sorted list adds that move and no other, and keeps
/// the list sorted.
pub proof fn lemma_insert_by_rank(sorted: Seq<RatedMove>, x: RatedMove)
    ensures
        insert_by_rank(sorted, x).len() == sorted.len() + 1,
        insert_by_rank(sorted, x).to_multiset() == sorted.to_multiset().insert(x),
        descending(sorted) ==> descending(insert_by_rank(sorted, x)),
        forall|i: int|
            0 <= i < insert_by_rank(sorted, x).len() ==> #[trigger] insert_by_rank(sorted, x)[i]
                == x || sorted.contains(insert_by_rank(sorted, x)[i]),
    decreases sorted.len(),
{
    broadcast use vstd::seq_lib::group_to_multiset_ensures;

    let out = insert_by_rank(sorted, x);
    if sorted.len() == 0 {
        assert(out =~= Seq::<RatedMove>::empty().push(x));
        assert(sorted =~= Seq::<RatedMove>::empty());
    } else if sorted.last().1 >= x.1 {
        assert forall|i: int| 0 <= i < out.len() implies #[trigger] out[i] == x || sorted.contains(
            out[i],
        ) by {
            if i < sorted.len() {
                assert(sorted[i] == out[i]);
            }
        }
    } else {
        let front = sorted.drop_last();
        let inner = insert_by_rank(front, x);
        lemma_insert_by_rank(front, x);
        assert(sorted =~= front.push(sorted.last()));
        assert(sorted.to_multiset() =~= front.to_multiset().insert(sorted.last()));
        assert(out.to_multiset() =~= inner.to_multiset().insert(sorted.last()));
        assert(out.to_multiset() =~= sorted.to_multiset().insert(x));
        assert forall|i: int| 0 <= i < out.len() implies #[trigger] out[i] == x || sorted.contains(
            out[i],
        ) by {
            if i < inner.len() {
                assert(out[i] == inner[i]);
                if inner[i] != x {
                    assert(front.contains(inner[i]));
                    let k = choose|k: int| 0 <= k < front.len() && front[k] == inner[i];
                    assert(sorted[k] == inner[i]);
                }
            } else {
                assert(out[i] == sorted[sorted.len() - 1]);
            }
        }
        if descending(sorted) {
            assert(descending(front)) by {
                assert forall|i: int, j: int| 0 <= i <= j < front.len() implies front[i].1
                    >= front[j].1 by {
                    assert(front[i] == sorted[i] && front[j] == sorted[j]);
                }
            }
            assert(descending(out)) by {
                assert forall|i: int, j: int| 0 <= i <= j < out.len() implies out[i].1
                    >= out[j].1 by {
                    if j < inner.len() {
                        assert(out[i] == inner[i] && out[j] == inner[j]);
                    } else if i < inner.len() {
                        assert(out[i] == inner[i]);
                        if inner[i] != x {
                            assert(front.contains(inner[i]));
                            let k = choose|k: int| 0 <= k < front.len() && front[k] == inner[i];
                            assert(sorted[k].1 >= sorted[sorted.len() - 1].1);
                        }
                    }
                }
            }
        }
    }
}

/// A sorted list holds the moves that it was made of, each as often as it was
/// there, in descending order of rank.
pub proof fn lemma_sorted_by_rank(moves: Seq<RatedMove>)
    ensures
        sorted_by_rank(moves).len() == moves.len(),
        sorted_by_rank(moves).to_multiset() == moves.to_multiset(),
        descending(sorted_by_rank(moves)),
        forall|i: int|
            0 <= i < moves.len() ==> moves.contains(#[trigger] sorted_by_rank(moves)[i]),
    decreases moves.len(),
{
    broadcast use vstd::seq_lib::group_to_multiset_ensures;

    if moves.len() == 0 {
    } else {
        let front = moves.drop_last();
        lemma_sorted_by_rank(front);
        lemma_insert_by_rank(sorted_by_rank(front), moves.last());
        assert(moves =~= front.push(moves.last()));
        assert(moves.to_multiset() =~= front.to_multiset().insert(moves.last()));
        let out = sorted_by_rank(moves);
        assert forall|i: int| 0 <= i < moves.len() implies moves.contains(#[trigger] out[i]) by {
            if out[i] == moves.last() {
                assert(moves[moves.len() - 1] == out[i]);
            } else {
                assert(sorted_by_rank(front).contains(out[i]));
                let k = choose|k: int|
                    0 <= k < sorted_by_rank(front).len() && sorted_by_rank(front)[k] == out[i];
                assert(front.contains(sorted_by_rank(front)[k]));
                let l = choose|l: int| 0 <= l < front.len() && front[l] == out[i];
                assert(moves[l] == out[i]);
            }
        }
    }
}

/// The key by which rayon sorts: the lower, the earlier.
pub fn order_key(rated: &RatedMove) -> (key: i64)
    ensures
        key == -(rated.1 as int),
{
    -(rated.1 as i64)
}

/// `rayon`'s `par_sort_by_key` with `order_key`: a stable sort, so the moves
/// come out in descending order of rank, and moves of equal rank stay in the
/// order in which they came.
#[verifier::external_body]
fn sort_by_rank(moves: &mut Vec<RatedMove>)
    ensures
        final(moves)@ == sorted_by_rank(old(moves)@),
{
    moves.par_sort_by_key(|rated| order_key(rated));
}

/// Sorts `moves` by rank, best first; moves of equal rank keep their order.
pub fn sort_moves(moves: &mut Vec<RatedMove>)
    ensures
        final(moves)@ == sorted_by_rank(old(moves)@),
        final(moves)@.len() == old(moves)@.len(),
        final(moves)@.to_multiset() == old(moves)@.to_multiset(),
        descending(final(moves)@),
{
    proof {
        lemma_sorted_by_rank(moves@);
    }
    sort_by_rank(moves);
}

/// The squares, one bit each, on which the chessmen of the opponent of the
/// player to move stand.
pub fn opponent_mask(position: &Position) -> (mask: u64)
    ensures
        is_target_mask(position@, mask),
{
    position.check();
    let side = position.side_to_move();
    let mut mask: u64 = 0;
    let mut square: u8 = 0;
    assert forall|j: u8| j < 64 implies !mask_has(0u64, j) by {
        let k = j as u64;
        assert(k < 64 ==> (0u64 >> k) & 1 == 0) by (bit_vector);
    }
    while square < 64
        invariant
            square <= 64,
            side == position@.side,
            position@.shaped(),
            forall|j: u8|
                j < 64 ==> (#[trigger] mask_has(mask, j) <==> (j < square && position@.holds(
                    j as int,
                    position@.side.other(),
                ))),
        decreases 64 - square,
    {
        let theirs = match position.color_on(square) {
            Some(color) => color != side,
            None => false,
        };
        let before = mask;
        if theirs {
            mask = mask | (1u64 << (square as u64));
        }
        proof {
            assert forall|j: u8| j < 64 implies (#[trigger] mask_has(mask, j) <==> (j < square + 1
                && position@.holds(j as int, position@.side.other()))) by {
                let i = square as u64;
                let k = j as u64;
                assert(mask_has(before, j) <==> (j < square && position@.holds(
                    j as int,
                    position@.side.other(),
                )));
                assert(i < 64 && k < 64 ==> ((before | (1u64 << i)) >> k) & 1 == (if i == k {
                    1u64
                } else {
                    (before >> k) & 1
                })) by (bit_vector);
            }
        }
        square += 1;
    }
    mask
}

/// Rates every move of `moves` in turn.
fn rate_moves(position: &Position, table: &TransTable, counters: &mut Counters, moves: &Vec<Move>) -> (rated:
    Vec<RatedMove>)
    requires
        table.wf(),
        history_fits(table@),
        forall|i: int|
            0 <= i < moves@.len() ==> well_placed(position@, #[trigger] moves@[i])
                && legal_moves_of(position@).contains(moves@[i]),
    ensures
        rated@ == rate_all(position@, table@, moves@),
        final(counters)@ == tally(position@, table@, moves@, moves@.len() as int, old(counters)@),
{
    let mut rated: Vec<RatedMove> = Vec::new();
    let mut i: usize = 0;
    while i < moves.len()
        invariant
            i <= moves@.len(),
            table.wf(),
            history_fits(table@),
            forall|k: int|
                0 <= k < moves@.len() ==> well_placed(position@, #[trigger] moves@[k])
                    && legal_moves_of(position@).contains(moves@[k]),
            rated@ == rate_all(position@, table@, moves@.take(i as int)),
            counters@ == tally(position@, table@, moves@, i as int, old(counters)@),
        decreases moves@.len() - i,
    {
        let m = moves[i];
        let value = eval_move(position, table, counters, m);
        rated.push((m, value));
        assert(rated@ =~= rate_all(position@, table@, moves@.take(i + 1)));
        i += 1;
    }
    assert(moves@.take(i as int) =~= moves@);
    rated
}

/// All legal moves of `position`, each with its rank, best first.
pub fn sorted_moves(position: &Position, table: &TransTable, counters: &mut Counters) -> (moves: Vec<
    RatedMove,
>)
    requires
        table.wf(),
        history_fits(table@),
    ensures
        moves@ == ordered_moves(position@, table@),
        moves@.len() == legal_moves_of(position@).len(),
        moves_of(moves@).to_multiset() == legal_moves_of(position@).to_multiset(),
        descending(moves@),
        forall|i: int|
            0 <= i < moves@.len() ==> legal_moves_of(position@).contains((#[trigger] moves@[i]).0)
                && well_placed(position@, moves@[i].0),
        final(counters)@ == tally_moves(position@, table@, old(counters)@),
{
    let legal = legal_moves(position);
    let mut moves = rate_moves(position, table, counters, &legal);
    proof {
        lemma_sorted_moves(position@, table@, legal@);
    }
    sort_moves(&mut moves);
    moves
}

/// The legal moves of `position` that take something, each with its rank,
/// best first.
pub fn capturing_moves(position: &Position, table: &TransTable, counters: &mut Counters) -> (moves:
    Vec<RatedMove>)
    requires
        table.wf(),
        history_fits(table@),
    ensures
        moves@ == ordered_captures(position@, table@),
        moves@.len() == capture_moves_of(position@).len(),
        moves_of(moves@).to_multiset() == capture_moves_of(position@).to_multiset(),
        descending(moves@),
        forall|i: int|
            0 <= i < moves@.len() ==> legal_moves_of(position@).contains((#[trigger] moves@[i]).0)
                && well_placed(position@, moves@[i].0) && takes(position@, moves@[i].0),
        final(counters)@ == tally_captures(position@, table@, old(counters)@),
{
    let mask = opponent_mask(position);
    let captures = legal_moves_masked(position, mask);
    proof {
        let by_mask = |m: Move| mask_has(mask, m.dest);
        let by_board = |m: Move| takes(position@, m);
        assert(by_mask =~= by_board);
        assert(captures@ == capture_moves_of(position@));
        assert forall|i: int| 0 <= i < captures@.len() implies legal_moves_of(position@).contains(
            #[trigger] captures@[i],
        ) && takes(position@, captures@[i]) by {
            legal_moves_of(position@).lemma_filter_pred(by_board, i);
            assert(captures@.contains(captures@[i]));
            legal_moves_of(position@).lemma_filter_contains_rev(by_board, captures@[i]);
        }
    }
    let mut moves = rate_moves(position, table, counters, &captures);
    proof {
        lemma_sorted_moves(position@, table@, captures@);
    }
    sort_moves(&mut moves);
    moves
}

/// Rating and sorting a list of moves gives the same moves, each as often as
/// it was there, and each with the rank that it has.
pub proof fn lemma_sorted_moves(position: PositionView, table: TableView, moves: Seq<Move>)
    ensures
        sorted_by_rank(rate_all(position, table, moves)).len() == moves.len(),
        moves_of(sorted_by_rank(rate_all(position, table, moves))).to_multiset()
            == moves.to_multiset(),
        descending(sorted_by_rank(rate_all(position, table, moves))),
        forall|i: int|
            0 <= i < moves.len() ==> moves.contains(
                (#[trigger] sorted_by_rank(rate_all(position, table, moves))[i]).0,
            ) && sorted_by_rank(rate_all(position, table, moves))[i].1 == move_rank(
                position,
                table,
                sorted_by_rank(rate_all(position, table, moves))[i].0,
            ) as i32,
{
    let rated = rate_all(position, table, moves);
    let sorted = sorted_by_rank(rated);
    lemma_sorted_by_rank(rated);
    assert forall|i: int| 0 <= i < moves.len() implies moves.contains((#[trigger] sorted[i]).0)
        && sorted[i].1 == move_rank(position, table, sorted[i].0) as i32 by {
        assert(rated.contains(sorted[i]));
        let k = choose|k: int| 0 <= k < rated.len() && rated[k] == sorted[i];
        assert(moves[k] == sorted[i].0);
    }
    lemma_moves_of_multiset(rated, sorted);
    assert(moves_of(rated) =~= moves);
}

/// Every capturing move that a search tries is among the moves that it tries
/// when it searches all, and reaches a square on which a chessman of the
/// opponent stands.
pub proof fn lemma_captures_among_moves(position: PositionView, table: TableView)
    ensures
        forall|i: int|
            0 <= i < ordered_captures(position, table).len() ==> moves_of(
                ordered_moves(position, table),
            ).contains((#[trigger] ordered_captures(position, table)[i]).0) && takes(
                position,
                ordered_captures(position, table)[i].0,
            ),
{
    broadcast use vstd::seq_lib::group_to_multiset_ensures;

    let legal = legal_moves_of(position);
    let captures = capture_moves_of(position);
    let by_board = |m: Move| takes(position, m);
    lemma_sorted_moves(position, table, legal);
    lemma_sorted_moves(position, table, captures);
    assert forall|i: int| 0 <= i < ordered_captures(position, table).len() implies moves_of(
        ordered_moves(position, table),
    ).contains((#[trigger] ordered_captures(position, table)[i]).0) && takes(
        position,
        ordered_captures(position, table)[i].0,
    ) by {
        let m = ordered_captures(position, table)[i].0;
        assert(captures.contains(m));
        let k = choose|k: int| 0 <= k < captures.len() && captures[k] == m;
        legal.lemma_filter_pred(by_board, k);
        legal.lemma_filter_contains_rev(by_board, m);
        assert(legal.to_multiset().count(m) > 0);
        assert(moves_of(ordered_moves(position, table)).to_multiset().count(m) > 0);
    }
}

/// Two rated lists with the same rated moves hold the same moves.
pub proof fn lemma_moves_of_multiset(a: Seq<RatedMove>, b: Seq<RatedMove>)
    requires
        a.to_multiset() == b.to_multiset(),
    ensures
        moves_of(a).to_multiset() == moves_of(b).to_multiset(),
    decreases a.len(),
{
    broadcast use vstd::seq_lib::group_to_multiset_ensures;

    if a.len() == 0 {
        assert(a.to_multiset().len() == a.len());
        assert(b.to_multiset().len() == b.len());
        assert(moves_of(a) =~= moves_of(b));
    } else {
        let x = a.last();
        assert(a.to_multiset().count(x) > 0) by {
            assert(a.contains(x));
        }
        assert(b.contains(x));
        let k = choose|k: int| 0 <= k < b.len() && b[k] == x;
        let a1 = a.drop_last();
        let b1 = b.remove(k);
        assert(a =~= a1.push(x));
        assert(a.to_multiset() =~= a1.to_multiset().insert(x));
        vstd::seq_lib::to_multiset_remove(b, k);
        assert(b1.to_multiset() =~= b.to_multiset().remove(x));
        assert(a1.to_multiset() =~= b1.to_multiset());
        lemma_moves_of_multiset(a1, b1);
        assert(moves_of(a) =~= moves_of(a1).push(x.0));
        assert(moves_of(a).to_multiset() =~= moves_of(a1).to_multiset().insert(x.0));
        assert(moves_of(b1) =~= moves_of(b).remove(k));
        vstd::seq_lib::to_multiset_remove(moves_of(b), k);
        assert(moves_of(b).to_multiset() =~= moves_of(b1).to_multiset().insert(x.0));
    }
}

} // verus!
