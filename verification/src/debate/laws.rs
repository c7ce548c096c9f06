//! What holds of the record of every debate in which the sides take turns.

use vstd::prelude::*;

use crate::debate::state::{self, RowView, Side, TurnView};
use crate::text;

verus! {

/// The sides have taken turns with A opening, and every turn carries its own
/// position and round.
pub open spec fn well_paced(turns: Seq<TurnView>) -> bool {
    forall|i: int|
        0 <= i < turns.len() ==> {
            &&& (#[trigger] turns[i]).index == i
            &&& turns[i].round == state::round_at(i)
            &&& turns[i].side == state::speaker(i)
        }
}

/// Where a side speaks in a round.
pub open spec fn place_of(round: int, side: Side) -> int {
    match side {
        Side::A => 2 * (round - 1),
        Side::B => 2 * (round - 1) + 1,
    }
}

/// The confidence a side stated in a round, if it spoke in it and stated one.
pub open spec fn stated(turns: Seq<TurnView>, round: int, side: Side) -> Option<int> {
    let i = place_of(round, side);
    if 0 <= i < turns.len() {
        turns[i].analysis.credence
    } else {
        None
    }
}

/// Recording the next side's turn keeps a debate well paced.
pub proof fn law_recording_keeps_the_pace(turns: Seq<TurnView>, turn: TurnView)
    requires
        well_paced(turns),
        turn.index == turns.len(),
        turn.round == state::round_at(turns.len() as int),
        turn.side == state::speaker(turns.len() as int),
    ensures
        well_paced(turns.push(turn)),
{
    let more = turns.push(turn);
    assert forall|i: int| 0 <= i < more.len() implies {
        &&& (#[trigger] more[i]).index == i
        &&& more[i].round == state::round_at(i)
        &&& more[i].side == state::speaker(i)
    } by {
        if i < turns.len() {
            assert(more[i] == turns[i]);
        }
    }
}

/// Dropping the last turn keeps a debate well paced.
proof fn lemma_pace_of_prefix(turns: Seq<TurnView>)
    requires
        well_paced(turns),
        turns.len() > 0,
    ensures
        well_paced(turns.drop_last()),
{
    let less = turns.drop_last();
    assert forall|i: int| 0 <= i < less.len() implies {
        &&& (#[trigger] less[i]).index == i
        &&& less[i].round == state::round_at(i)
        &&& less[i].side == state::speaker(i)
    } by {
        assert(less[i] == turns[i]);
    }
}

/// What looking up a round finds.
pub proof fn lemma_row_index(rows: Seq<RowView>, round: int)
    ensures
        match state::row_index(rows, round) {
            Some(i) => 0 <= i < rows.len() && rows[i].round == round,
            None => forall|i: int| 0 <= i < rows.len() ==> (#[trigger] rows[i]).round != round,
        },
    decreases rows.len(),
{
    if rows.len() > 0 {
        let less = rows.drop_last();
        lemma_row_index(less, round);
        match state::row_index(less, round) {
            Some(i) => {
                assert(less[i] == rows[i]);
            },
            None => {
                assert forall|i: int| 0 <= i < rows.len() && rows.last().round != round implies (
                #[trigger] rows[i]).round != round by {
                    if i < less.len() {
                        assert(less[i] == rows[i]);
                    }
                }
            },
        }
    }
}

/// A row of the table is true to the debate: its round was reached, and it
/// holds what each side stated in that round, which is something.
pub open spec fn row_is_true(turns: Seq<TurnView>, row: RowView) -> bool {
    &&& 1 <= row.round
    &&& 2 * (row.round - 1) < turns.len()
    &&& row.a == stated(turns, row.round, Side::A)
    &&& row.b == stated(turns, row.round, Side::B)
    &&& row.a is Some || row.b is Some
}

/// The convergence table of a well-paced debate stands in round order, every
/// row holds exactly what the two sides stated in its round, and every round
/// in which either side stated a confidence has its row. A round where neither
/// side did has none, so a reading is never shown under another round.
pub proof fn law_the_table_is_true_to_its_rounds(turns: Seq<TurnView>)
    requires
        well_paced(turns),
    ensures
        ({
            let rows = state::rounds_of(turns);
            &&& forall|i: int, j: int|
                0 <= i < j < rows.len() ==> (#[trigger] rows[i]).round < (#[trigger] rows[j]).round
            &&& forall|i: int| 0 <= i < rows.len() ==> row_is_true(turns, #[trigger] rows[i])
            &&& forall|k: int|
                0 <= k < turns.len() && (#[trigger] turns[k]).analysis.credence is Some
                    ==> state::row_index(rows, state::round_at(k)) is Some
        }),
    decreases turns.len(),
{
    if turns.len() > 0 {
        let less = turns.drop_last();
        lemma_pace_of_prefix(turns);
        law_the_table_is_true_to_its_rounds(less);
        let n = turns.len() - 1;
        let turn = turns.last();
        assert(turn == turns[n]);
        let before = state::rounds_of(less);
        let rows = state::rounds_of(turns);
        let round = state::round_at(n);
        lemma_row_index(before, round);
        assert forall|r: int, s: Side| place_of(r, s) != n implies stated(turns, r, s) == stated(
            less,
            r,
            s,
        ) by {
            let i = place_of(r, s);
            if 0 <= i < less.len() {
                assert(less[i] == turns[i]);
            }
        }
        assert(place_of(round, turn.side) == n);
        assert(stated(less, round, turn.side) is None);
        assert(stated(turns, round, turn.side) == turn.analysis.credence);
        match turn.analysis.credence {
            None => {
                assert forall|i: int| 0 <= i < rows.len() implies row_is_true(
                    turns,
                    #[trigger] rows[i],
                ) by {
                    assert(row_is_true(less, before[i]));
                }
            },
            Some(value) => {
                match state::row_index(before, round) {
                    Some(at) => {
                        let entered = state::with_reading(before[at], turn.side, value);
                        assert(rows == before.update(at, entered));
                        assert forall|i: int, j: int| 0 <= i < j < rows.len() implies (
                        #[trigger] rows[i]).round < (#[trigger] rows[j]).round by {
                            assert(before[i].round < before[j].round);
                        }
                        assert forall|i: int| 0 <= i < rows.len() implies row_is_true(
                            turns,
                            #[trigger] rows[i],
                        ) by {
                            assert(row_is_true(less, before[i]));
                            if i != at {
                                assert(before[i].round != before[at].round);
                            }
                        }
                    },
                    None => {
                        assert forall|i: int, j: int| 0 <= i < j < rows.len() implies (
                        #[trigger] rows[i]).round < (#[trigger] rows[j]).round by {
                            assert(row_is_true(less, before[i]));
                            if j < before.len() {
                                assert(before[i].round < before[j].round);
                            } else {
                                assert(before[i].round != round);
                            }
                        }
                        assert forall|i: int| 0 <= i < rows.len() implies row_is_true(
                            turns,
                            #[trigger] rows[i],
                        ) by {
                            if i < before.len() {
                                assert(row_is_true(less, before[i]));
                                assert(before[i].round != round);
                            } else {
                                let elsewhere = match turn.side {
                                    Side::A => Side::B,
                                    Side::B => Side::A,
                                };
                                let p = place_of(round, elsewhere);
                                if stated(turns, round, elsewhere) is Some {
                                    assert(0 <= p < less.len());
                                    assert(less[p] == turns[p]);
                                    assert(state::round_at(p) == round);
                                    assert(less[p].analysis.credence is Some);
                                    assert(false);
                                }
                            }
                        }
                    },
                }
            },
        }
        assert forall|k: int|
            0 <= k < turns.len() && (
            #[trigger] turns[k]).analysis.credence is Some implies state::row_index(
            rows,
            state::round_at(k),
        ) is Some by {
            lemma_row_index(rows, state::round_at(k));
            if k < n {
                assert(less[k] == turns[k]);
                let r = state::round_at(k);
                lemma_row_index(before, r);
                let i = state::row_index(before, r)->0;
                assert(rows[i].round == r);
            } else {
                match state::row_index(before, round) {
                    Some(at) => {
                        assert(rows[at].round == round);
                    },
                    None => {
                        assert(rows[before.len() as int].round == round);
                    },
                }
            }
        }
    }
}

/// Every reading in a side's series comes from the round it is labelled with,
/// and the rounds stand in order.
pub proof fn law_a_reading_carries_its_round(turns: Seq<TurnView>, side: Side)
    requires
        well_paced(turns),
    ensures
        ({
            let series = state::series_of(turns, side);
            &&& forall|i: int|
                0 <= i < series.len() ==> {
                    let reading = #[trigger] series[i];
                    &&& 0 <= place_of(reading.0, side) < turns.len()
                    &&& stated(turns, reading.0, side) == Some(reading.1)
                }
            &&& forall|i: int, j: int|
                0 <= i < j < series.len() ==> (#[trigger] series[i]).0 < (#[trigger] series[j]).0
        }),
    decreases turns.len(),
{
    if turns.len() > 0 {
        let less = turns.drop_last();
        lemma_pace_of_prefix(turns);
        law_a_reading_carries_its_round(less, side);
        let n = turns.len() - 1;
        let turn = turns.last();
        assert(turn == turns[n]);
        let before = state::series_of(less, side);
        let series = state::series_of(turns, side);
        assert forall|i: int| 0 <= i < series.len() implies {
            let reading = #[trigger] series[i];
            &&& 0 <= place_of(reading.0, side) < turns.len()
            &&& stated(turns, reading.0, side) == Some(reading.1)
        } by {
            if i < before.len() {
                assert(series[i] == before[i]);
                let p = place_of(before[i].0, side);
                assert(less[p] == turns[p]);
            }
        }
        assert forall|i: int, j: int| 0 <= i < j < series.len() implies (#[trigger] series[i]).0 < (
        #[trigger] series[j]).0 by {
            assert(series[i] == before[i]);
            assert(0 <= place_of(before[i].0, side) < less.len());
            if j < before.len() {
                assert(series[j] == before[j]);
            }
        }
    }
}

/// The halves account for the whole: counting each side's turns apart drops
/// none and counts none twice.
pub proof fn law_usage_splits_by_side(turns: Seq<TurnView>)
    ensures
        ({
            let a = state::usage_of(state::of_side(turns, Side::A));
            let b = state::usage_of(state::of_side(turns, Side::B));
            let all = state::usage_of(turns);
            &&& a.turns + b.turns == all.turns
            &&& a.input + b.input == all.input
            &&& a.output + b.output == all.output
            &&& a.reasoning + b.reasoning == all.reasoning
            &&& a.costs.to_multiset().add(b.costs.to_multiset()) =~= all.costs.to_multiset()
        }),
    decreases turns.len(),
{
    broadcast use vstd::seq_lib::group_to_multiset_ensures;

    let a = state::of_side(turns, Side::A);
    let b = state::of_side(turns, Side::B);
    if turns.len() == 0 {
        reveal(Seq::filter);
        assert(a =~= turns && b =~= turns);
    } else {
        let less = turns.drop_last();
        let turn = turns.last();
        law_usage_splits_by_side(less);
        state::lemma_filter_one_more(less, turn, |t: TurnView| t.side == Side::A);
        state::lemma_filter_one_more(less, turn, |t: TurnView| t.side == Side::B);
        assert(less.push(turn) =~= turns);
        let a0 = state::of_side(less, Side::A);
        let b0 = state::of_side(less, Side::B);
        assert(state::usage_of(turns).costs =~= state::usage_of(less).costs.push(turn.cost));
        match turn.side {
            Side::A => {
                assert(a == a0.push(turn) && b == b0);
                assert(a.drop_last() =~= a0);
                assert(state::usage_of(a).costs =~= state::usage_of(a0).costs.push(turn.cost));
            },
            Side::B => {
                assert(b == b0.push(turn) && a == a0);
                assert(b.drop_last() =~= b0);
                assert(state::usage_of(b).costs =~= state::usage_of(b0).costs.push(turn.cost));
            },
        }
    }
}

/// A turn states a claim that its side's case depends on.
pub open spec fn states_a_claim(turn: TurnView, side: Side) -> bool {
    turn.side == side && turn.analysis.key_claim is Some && !text::is_blank(
        turn.analysis.key_claim->0,
    )
}

/// A side has no key claim exactly when it never stated one, and otherwise it is
/// the one it stated last: a turn that leaves it out or blank takes nothing
/// back.
pub proof fn law_the_key_claim_is_the_last_one_stated(turns: Seq<TurnView>, side: Side)
    ensures
        state::key_claim_of(turns, side) is None <==> forall|i: int|
            0 <= i < turns.len() ==> !states_a_claim(#[trigger] turns[i], side),
        forall|i: int|
            0 <= i < turns.len() && states_a_claim(#[trigger] turns[i], side) && (forall|j: int|
                i < j < turns.len() ==> !states_a_claim(#[trigger] turns[j], side))
                ==> state::key_claim_of(turns, side) == Some(
                text::trimmed(turns[i].analysis.key_claim->0),
            ),
    decreases turns.len(),
{
    if turns.len() > 0 {
        let less = turns.drop_last();
        let n = less.len() as int;
        law_the_key_claim_is_the_last_one_stated(less, side);
        assert(turns.last() == turns[n]);
        assert forall|i: int| 0 <= i < n implies #[trigger] turns[i] == less[i] by {}
        if !states_a_claim(turns[n], side) {
            assert(state::last_claim(turns, side) == state::last_claim(less, side));
            assert forall|i: int| 0 <= i < n implies #[trigger] less[i] == turns[i] by {}
        }
    }
}

} // verus!
