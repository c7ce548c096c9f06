//! What is read off the record of a debate: whose turn came last, what each side
//! stated, conceded and spent. Each is settled by what a single turn
//! contributes and by how two stretches of a debate go together, so nothing
//! depends on how long a debate is or where in it a turn stands.

use vstd::prelude::*;

use crate::debate::laws;
use crate::debate::state::{
    self, ConcessionView, ParseView, Side, TurnView, UsageView,
};
use crate::text;

verus! {

/// The last turn of a side is one of its turns, and no later turn is its own;
/// there is none exactly when the side took no turn.
pub proof fn law_the_last_turn_of_a_side(turns: Seq<TurnView>, side: Side)
    ensures
        match state::last_index(turns, side) {
            Some(i) => {
                &&& 0 <= i < turns.len()
                &&& turns[i].side == side
                &&& forall|j: int| i < j < turns.len() ==> (#[trigger] turns[j]).side != side
            },
            None => forall|j: int| 0 <= j < turns.len() ==> (#[trigger] turns[j]).side != side,
        },
    decreases turns.len(),
{
    if turns.len() > 0 && turns.last().side != side {
        let less = turns.drop_last();
        law_the_last_turn_of_a_side(less, side);
        assert forall|j: int|
            0 <= j < turns.len() && (j < less.len() ==> less[j].side != side) implies (
        #[trigger] turns[j]).side != side by {
            if j < less.len() {
                assert(less[j] == turns[j]);
            }
        }
        match state::last_index(less, side) {
            Some(i) => {
                assert(turns[i] == less[i]);
                assert forall|j: int| i < j < turns.len() implies (#[trigger] turns[j]).side
                    != side by {
                    if j < less.len() {
                        assert(less[j] == turns[j]);
                    }
                }
            },
            None => {},
        }
    }
}

/// What a turn contributes to a side's series: its confidence with its round,
/// where it is that side's and states one. A series of two stretches is that of
/// the first followed by that of the second.
pub proof fn law_a_series_follows_the_turns(
    a: Seq<TurnView>,
    b: Seq<TurnView>,
    turn: TurnView,
    side: Side,
)
    ensures
        state::series_of(Seq::empty(), side) == Seq::<(int, int)>::empty(),
        turn.side == side && turn.analysis.credence is Some ==> state::series_of(seq![turn], side)
            == seq![(turn.round, turn.analysis.credence->0)],
        turn.side != side || turn.analysis.credence is None ==> state::series_of(
            seq![turn],
            side,
        ).len() == 0,
        state::series_of(a + b, side) == state::series_of(a, side) + state::series_of(b, side),
    decreases b.len(),
{
    assert(seq![turn].drop_last() =~= Seq::<TurnView>::empty());
    assert(seq![turn].last() == turn);
    assert(state::series_of(Seq::<TurnView>::empty(), side) =~= Seq::<(int, int)>::empty());
    assert(Seq::<(int, int)>::empty().push((turn.round, turn.analysis.credence->0)) =~= seq![
        (turn.round, turn.analysis.credence->0),
    ]);
    if b.len() == 0 {
        assert(a + b =~= a);
        assert(state::series_of(a, side) + state::series_of(b, side) =~= state::series_of(a, side));
    } else {
        law_a_series_follows_the_turns(a, b.drop_last(), turn, side);
        assert((a + b).drop_last() =~= a + b.drop_last());
        assert((a + b).last() == b.last());
        assert(state::series_of(a + b, side) =~= state::series_of(a, side) + state::series_of(
            b,
            side,
        ));
    }
}

/// A turn in which a side states a confidence.
pub open spec fn states_confidence(turn: TurnView, side: Side) -> bool {
    turn.side == side && turn.analysis.credence is Some
}

/// A side's latest confidence is that of the last turn in which it stated one,
/// and there is none exactly when it never did.
pub proof fn law_the_latest_confidence_is_the_last_stated(turns: Seq<TurnView>, side: Side)
    ensures
        state::latest_of(turns, side) is None <==> forall|i: int|
            0 <= i < turns.len() ==> !states_confidence(#[trigger] turns[i], side),
        forall|i: int|
            0 <= i < turns.len() && states_confidence(#[trigger] turns[i], side) && (forall|j: int|
                i < j < turns.len() ==> !states_confidence(#[trigger] turns[j], side))
                ==> state::latest_of(turns, side) == turns[i].analysis.credence,
    decreases turns.len(),
{
    if turns.len() > 0 {
        let less = turns.drop_last();
        let n = less.len() as int;
        law_the_latest_confidence_is_the_last_stated(less, side);
        assert(turns.last() == turns[n]);
        assert forall|i: int| 0 <= i < n implies #[trigger] turns[i] == less[i] by {}
        if states_confidence(turns[n], side) {
            let series = state::series_of(turns, side);
            assert(series.last() == (turns[n].round, turns[n].analysis.credence->0));
        } else {
            assert(state::series_of(turns, side) == state::series_of(less, side));
            assert forall|i: int| 0 <= i < n implies #[trigger] less[i] == turns[i] by {}
        }
    }
}

/// Looking up a round finds its row, and no two rows of a table share a round.
proof fn lemma_rounds_are_distinct(turns: Seq<TurnView>)
    ensures
        forall|i: int, j: int|
            0 <= i < j < state::rounds_of(turns).len() ==> (#[trigger] state::rounds_of(
                turns,
            )[i]).round != (#[trigger] state::rounds_of(turns)[j]).round,
    decreases turns.len(),
{
    if turns.len() > 0 {
        let before = state::rounds_of(turns.drop_last());
        let rows = state::rounds_of(turns);
        let round = turns.last().round;
        lemma_rounds_are_distinct(turns.drop_last());
        laws::lemma_row_index(before, round);
        assert forall|i: int, j: int| 0 <= i < j < rows.len() implies (#[trigger] rows[i]).round != (
        #[trigger] rows[j]).round by {
            assert(rows[i].round == before[i].round);
            if j < before.len() {
                assert(rows[j].round == before[j].round);
                assert(before[i].round != before[j].round);
            }
        }
    }
}

/// What one more turn does to the convergence table. One that states no
/// confidence leaves it alone. One that does is entered in its round's row, on
/// its own side, and touches nothing else; a round without a row gets one at the
/// end.
pub proof fn law_a_reading_enters_its_own_row(turns: Seq<TurnView>, turn: TurnView)
    ensures
        ({
            let before = state::rounds_of(turns);
            let after = state::rounds_of(turns.push(turn));
            match turn.analysis.credence {
                None => after == before,
                Some(value) => {
                    &&& before.len() <= after.len() <= before.len() + 1
                    &&& after.len() == before.len() <==> exists|i: int|
                        0 <= i < before.len() && (#[trigger] before[i]).round == turn.round
                    &&& forall|i: int|
                        0 <= i < before.len() && (#[trigger] before[i]).round != turn.round
                            ==> after[i] == before[i]
                    &&& forall|i: int|
                        0 <= i < after.len() && (#[trigger] after[i]).round == turn.round ==> {
                            let row = after[i];
                            let a = if i < before.len() {
                                before[i].a
                            } else {
                                None
                            };
                            let b = if i < before.len() {
                                before[i].b
                            } else {
                                None
                            };
                            &&& turn.side == Side::A ==> row.a == Some(value) && row.b == b
                            &&& turn.side == Side::B ==> row.a == a && row.b == Some(value)
                        }
                    &&& exists|i: int| 0 <= i < after.len() && (#[trigger] after[i]).round
                        == turn.round
                    &&& forall|i: int, j: int|
                        0 <= i < j < after.len() ==> (#[trigger] after[i]).round != (
                        #[trigger] after[j]).round
                },
            }
        }),
        state::rounds_of(Seq::empty()).len() == 0,
{
    let more = turns.push(turn);
    assert(more.drop_last() =~= turns);
    assert(more.last() == turn);
    let before = state::rounds_of(turns);
    let after = state::rounds_of(more);
    lemma_rounds_are_distinct(turns);
    lemma_rounds_are_distinct(more);
    laws::lemma_row_index(before, turn.round);
    if let Some(value) = turn.analysis.credence {
        match state::row_index(before, turn.round) {
            Some(at) => {
                assert(after[at].round == turn.round);
                assert forall|i: int|
                    0 <= i < after.len() && (#[trigger] after[i]).round == turn.round implies i
                    == at by {
                    assert(after[i].round == before[i].round);
                    if i < at {
                        assert(before[i].round != before[at].round);
                    } else if i > at {
                        assert(before[at].round != before[i].round);
                    }
                }
            },
            None => {
                assert(after[before.len() as int].round == turn.round);
                assert forall|i: int|
                    0 <= i < after.len() && (#[trigger] after[i]).round == turn.round implies i
                    == before.len() by {
                    if i < before.len() {
                        assert(before[i].round != turn.round);
                    }
                }
            },
        }
    }
}

/// The table of a debate in which the sides took turns, against the turns
/// themselves: every row holds what side A said at the even and side B at the
/// odd place of its round, rows come in the order of their rounds, and whoever
/// stated a confidence has a row.
pub proof fn law_the_table_holds_what_was_said(turns: Seq<TurnView>)
    requires
        forall|i: int|
            0 <= i < turns.len() ==> {
                &&& (#[trigger] turns[i]).index == i
                &&& turns[i].round == i / 2 + 1
                &&& turns[i].side == if i % 2 == 0 {
                    Side::A
                } else {
                    Side::B
                }
            },
    ensures
        ({
            let rows = state::rounds_of(turns);
            &&& forall|r: int|
                0 <= r < rows.len() ==> {
                    let row = #[trigger] rows[r];
                    let first = 2 * (row.round - 1);
                    &&& 0 <= first < turns.len()
                    &&& row.a == turns[first].analysis.credence
                    &&& row.b == if first + 1 < turns.len() {
                        turns[first + 1].analysis.credence
                    } else {
                        None
                    }
                    &&& row.a is Some || row.b is Some
                }
            &&& forall|r: int, q: int|
                0 <= r < q < rows.len() ==> (#[trigger] rows[r]).round < (#[trigger] rows[q]).round
            &&& forall|k: int|
                0 <= k < turns.len() && (#[trigger] turns[k]).analysis.credence is Some
                    ==> exists|r: int|
                    0 <= r < rows.len() && (#[trigger] rows[r]).round == k / 2 + 1
        }),
{
    let rows = state::rounds_of(turns);
    assert(laws::well_paced(turns));
    laws::law_the_table_is_true_to_its_rounds(turns);
    assert forall|r: int| 0 <= r < rows.len() implies {
        let row = #[trigger] rows[r];
        let first = 2 * (row.round - 1);
        &&& 0 <= first < turns.len()
        &&& row.a == turns[first].analysis.credence
        &&& row.b == if first + 1 < turns.len() {
            turns[first + 1].analysis.credence
        } else {
            None
        }
        &&& row.a is Some || row.b is Some
    } by {
        assert(laws::row_is_true(turns, rows[r]));
    }
    assert forall|k: int|
        0 <= k < turns.len() && (#[trigger] turns[k]).analysis.credence is Some implies exists|r: int|
        0 <= r < rows.len() && (#[trigger] rows[r]).round == k / 2 + 1 by {
        laws::lemma_row_index(rows, k / 2 + 1);
        let r = state::row_index(rows, k / 2 + 1)->0;
        assert(rows[r].round == k / 2 + 1);
    }
}

/// Turns without a readable block are counted one by one, wherever they stand.
pub proof fn law_unread_turns_are_counted(a: Seq<TurnView>, b: Seq<TurnView>, turn: TurnView)
    ensures
        state::unreadable_count(Seq::empty()) == 0,
        turn.analysis.parse_status == ParseView::Readable ==> state::unreadable_count(seq![turn])
            == 0,
        turn.analysis.parse_status != ParseView::Readable ==> state::unreadable_count(seq![turn])
            == 1,
        state::unreadable_count(a + b) == state::unreadable_count(a) + state::unreadable_count(b),
{
    let unread = |t: TurnView| t.analysis.parse_status != ParseView::Readable;
    reveal(Seq::filter);
    let none = Seq::<TurnView>::empty();
    assert(none.filter(unread).len() == 0);
    assert(none.push(turn) =~= seq![turn]);
    state::lemma_filter_one_more(none, turn, unread);
    lemma_filter_in_two_parts(a, b, unread);
}

/// What survives a filter of two lists is what survives of the first and then
/// of the second.
proof fn lemma_filter_in_two_parts<T>(a: Seq<T>, b: Seq<T>, keep: spec_fn(T) -> bool)
    ensures
        (a + b).filter(keep) == a.filter(keep) + b.filter(keep),
    decreases b.len(),
{
    if b.len() == 0 {
        reveal(Seq::filter);
        assert(a + b =~= a);
        assert(b.filter(keep) =~= Seq::<T>::empty());
        assert(a.filter(keep) + b.filter(keep) =~= a.filter(keep));
    } else {
        let less = b.drop_last();
        lemma_filter_in_two_parts(a, less, keep);
        state::lemma_filter_one_more(a + less, b.last(), keep);
        state::lemma_filter_one_more(less, b.last(), keep);
        assert((a + less).push(b.last()) =~= a + b);
        assert(less.push(b.last()) =~= b);
        assert((a + b).filter(keep) =~= a.filter(keep) + b.filter(keep));
    }
}

/// What one conceded point comes to: nothing where it is blank, and otherwise an
/// entry with its side, its round, and its words without the white space around
/// them. Points come in the order they were given.
pub proof fn law_points_are_kept_in_order(
    a: Seq<Seq<char>>,
    b: Seq<Seq<char>>,
    point: Seq<char>,
    side: Side,
    round: int,
)
    ensures
        state::points_of(Seq::empty(), side, round).len() == 0,
        text::is_blank(point) ==> state::points_of(seq![point], side, round).len() == 0,
        !text::is_blank(point) ==> state::points_of(seq![point], side, round) == seq![
            ConcessionView { side, round, text: text::trimmed(point) },
        ],
        state::points_of(a + b, side, round) == state::points_of(a, side, round)
            + state::points_of(b, side, round),
    decreases b.len(),
{
    let none = Seq::<ConcessionView>::empty();
    assert(seq![point].drop_last() =~= Seq::<Seq<char>>::empty());
    assert(seq![point].last() == point);
    assert(state::points_of(Seq::empty(), side, round) =~= none);
    let entry = ConcessionView { side, round, text: text::trimmed(point) };
    assert(none.push(entry) =~= seq![entry]);
    if b.len() == 0 {
        assert(a + b =~= a);
        assert(state::points_of(a, side, round) + state::points_of(b, side, round)
            =~= state::points_of(a, side, round));
    } else {
        law_points_are_kept_in_order(a, b.drop_last(), point, side, round);
        assert((a + b).drop_last() =~= a + b.drop_last());
        assert((a + b).last() == b.last());
        assert(state::points_of(a + b, side, round) =~= state::points_of(a, side, round)
            + state::points_of(b, side, round));
    }
}

/// The concessions of a debate are those of its turns, in order, each under the
/// side and the round of its turn.
pub proof fn law_concessions_follow_the_turns(a: Seq<TurnView>, b: Seq<TurnView>, turn: TurnView)
    ensures
        state::concessions_of(Seq::empty()).len() == 0,
        state::concessions_of(seq![turn]) == state::points_of(
            turn.analysis.conceded,
            turn.side,
            turn.round,
        ),
        state::concessions_of(a + b) == state::concessions_of(a) + state::concessions_of(b),
    decreases b.len(),
{
    assert(seq![turn].drop_last() =~= Seq::<TurnView>::empty());
    assert(seq![turn].last() == turn);
    assert(state::concessions_of(Seq::empty()) =~= Seq::<ConcessionView>::empty());
    assert(state::concessions_of(seq![turn]) =~= state::points_of(
        turn.analysis.conceded,
        turn.side,
        turn.round,
    ));
    if b.len() == 0 {
        assert(a + b =~= a);
        assert(state::concessions_of(a) + state::concessions_of(b) =~= state::concessions_of(a));
    } else {
        law_concessions_follow_the_turns(a, b.drop_last(), turn);
        assert((a + b).drop_last() =~= a + b.drop_last());
        assert((a + b).last() == b.last());
        assert(state::concessions_of(a + b) =~= state::concessions_of(a) + state::concessions_of(
            b,
        ));
    }
}

/// A side's turns are its own and no other's: a turn belongs to the list exactly
/// when that side took it, and they stand in the order they were taken.
pub proof fn law_each_side_has_its_own_turns(
    a: Seq<TurnView>,
    b: Seq<TurnView>,
    turn: TurnView,
    side: Side,
)
    ensures
        state::of_side(Seq::empty(), side).len() == 0,
        turn.side == side ==> state::of_side(seq![turn], side) == seq![turn],
        turn.side != side ==> state::of_side(seq![turn], side).len() == 0,
        state::of_side(a + b, side) == state::of_side(a, side) + state::of_side(b, side),
        forall|i: int|
            0 <= i < state::of_side(a, side).len() ==> (#[trigger] state::of_side(a, side)[i]).side
                == side && a.contains(state::of_side(a, side)[i]),
        forall|i: int|
            0 <= i < a.len() && (#[trigger] a[i]).side == side ==> state::of_side(
                a,
                side,
            ).contains(a[i]),
{
    let mine = |t: TurnView| t.side == side;
    let none = Seq::<TurnView>::empty();
    reveal(Seq::filter);
    assert(none.filter(mine) =~= none);
    assert(none.push(turn) =~= seq![turn]);
    state::lemma_filter_one_more(none, turn, mine);
    lemma_filter_in_two_parts(a, b, mine);
    lemma_side_membership(a, side);
}

/// What stands in a side's list of turns, and what has to.
proof fn lemma_side_membership(turns: Seq<TurnView>, side: Side)
    ensures
        forall|i: int|
            0 <= i < state::of_side(turns, side).len() ==> (#[trigger] state::of_side(
                turns,
                side,
            )[i]).side == side && turns.contains(state::of_side(turns, side)[i]),
        forall|i: int|
            0 <= i < turns.len() && (#[trigger] turns[i]).side == side ==> state::of_side(
                turns,
                side,
            ).contains(turns[i]),
    decreases turns.len(),
{
    let mine = |t: TurnView| t.side == side;
    if turns.len() == 0 {
        reveal(Seq::filter);
    } else {
        let less = turns.drop_last();
        let turn = turns.last();
        lemma_side_membership(less, side);
        state::lemma_filter_one_more(less, turn, mine);
        assert(less.push(turn) =~= turns);
        let before = state::of_side(less, side);
        let after = state::of_side(turns, side);
        assert forall|i: int| 0 <= i < after.len() implies (#[trigger] after[i]).side == side
            && turns.contains(after[i]) by {
            if i < before.len() {
                assert(after[i] == before[i]);
                let k = choose|k: int| 0 <= k < less.len() && less[k] == before[i];
                assert(turns[k] == before[i]);
            } else {
                assert(turns[turns.len() - 1] == turn);
            }
        }
        assert forall|i: int| 0 <= i < turns.len() && (#[trigger] turns[i]).side == side implies
            after.contains(turns[i]) by {
            if i < less.len() {
                assert(less[i] == turns[i]);
                let k = choose|k: int| 0 <= k < before.len() && before[k] == less[i];
                assert(after[k] == turns[i]);
            } else {
                assert(after[after.len() - 1] == turn);
            }
        }
    }
}

/// What a turn costs, and that nothing but the turns does: one turn is accounted
/// with its own tokens and its own cost, and two stretches with the sum of what
/// each is accounted with.
pub proof fn law_accounts_add_up(a: Seq<TurnView>, b: Seq<TurnView>, turn: TurnView)
    ensures
        state::usage_of(Seq::empty()) == (UsageView {
            turns: 0,
            input: 0,
            output: 0,
            reasoning: 0,
            costs: Seq::empty(),
        }),
        state::usage_of(seq![turn]) == (UsageView {
            turns: 1,
            input: turn.tokens.input as int,
            output: turn.tokens.output as int,
            reasoning: turn.tokens.reasoning as int,
            costs: seq![turn.cost],
        }),
        state::usage_of(a + b) == (UsageView {
            turns: state::usage_of(a).turns + state::usage_of(b).turns,
            input: state::usage_of(a).input + state::usage_of(b).input,
            output: state::usage_of(a).output + state::usage_of(b).output,
            reasoning: state::usage_of(a).reasoning + state::usage_of(b).reasoning,
            costs: state::usage_of(a).costs + state::usage_of(b).costs,
        }),
        state::usage_of(a).input == state::input_total(a),
        state::usage_of(a).output == state::output_total(a),
        state::usage_of(a).reasoning == state::reasoning_total(a),
    decreases b.len(),
{
    assert(seq![turn].drop_last() =~= Seq::<TurnView>::empty());
    assert(seq![turn].last() == turn);
    assert(state::usage_of(Seq::empty()).costs =~= Seq::empty());
    assert(state::usage_of(seq![turn]).costs =~= seq![turn.cost]);
    assert(state::usage_of(a + b).costs =~= state::usage_of(a).costs + state::usage_of(b).costs);
    if b.len() == 0 {
        assert(a + b =~= a);
    } else {
        law_accounts_add_up(a, b.drop_last(), turn);
        assert((a + b).drop_last() =~= a + b.drop_last());
        assert((a + b).last() == b.last());
    }
}

/// Turns that one side took are accounted to that side whole, and to the other
/// side not at all.
pub proof fn law_a_side_pays_for_its_own_turns(turns: Seq<TurnView>, side: Side)
    requires
        forall|i: int| 0 <= i < turns.len() ==> (#[trigger] turns[i]).side == side,
    ensures
        state::usage_of(state::of_side(turns, side)) == state::usage_of(turns),
        forall|other: Side|
            other != side ==> (#[trigger] state::usage_of(state::of_side(turns, other))).turns == 0
                && state::usage_of(state::of_side(turns, other)).input == 0 && state::usage_of(
                state::of_side(turns, other),
            ).output == 0 && state::usage_of(state::of_side(turns, other)).reasoning == 0
                && state::usage_of(state::of_side(turns, other)).costs.len() == 0,
    decreases turns.len(),
{
    lemma_only_one_side(turns, side);
}

proof fn lemma_only_one_side(turns: Seq<TurnView>, side: Side)
    requires
        forall|i: int| 0 <= i < turns.len() ==> (#[trigger] turns[i]).side == side,
    ensures
        state::of_side(turns, side) == turns,
        forall|other: Side| other != side ==> (#[trigger] state::of_side(turns, other)).len() == 0,
    decreases turns.len(),
{
    if turns.len() == 0 {
        reveal(Seq::filter);
        assert(state::of_side(turns, side) =~= turns);
    } else {
        let less = turns.drop_last();
        let turn = turns.last();
        assert forall|i: int| 0 <= i < less.len() implies (#[trigger] less[i]).side == side by {
            assert(less[i] == turns[i]);
        }
        assert(turns[turns.len() - 1].side == side);
        lemma_only_one_side(less, side);
        assert(less.push(turn) =~= turns);
        assert forall|other: Side| true implies state::of_side(turns, other) == if turn.side
            == other {
            #[trigger] state::of_side(less, other).push(turn)
        } else {
            state::of_side(less, other)
        } by {
            state::lemma_filter_one_more(less, turn, |t: TurnView| t.side == other);
        }
        assert(state::of_side(less, side).push(turn) =~= turns);
        assert forall|other: Side| other != side implies (#[trigger] state::of_side(
            turns,
            other,
        )).len() == 0 by {
            let none = state::of_side(less, other);
            assert(none.len() == 0);
            state::lemma_filter_one_more(less, turn, |t: TurnView| t.side == other);
        }
    }
}

/// Whose turn it is and which round it belongs to, by position alone: side A at
/// the even places, side B at the odd ones, and a new round every two turns.
pub proof fn law_positions_settle_side_and_round(k: int)
    requires
        0 <= k,
    ensures
        state::speaker(2 * k) == Side::A,
        state::speaker(2 * k + 1) == Side::B,
        state::round_at(2 * k) == k + 1,
        state::round_at(2 * k + 1) == k + 1,
{
}


/// The latest confidence of a debate is that of its second part where a side
/// states one there, and else that of its first. In a single turn it is the
/// confidence stated there, by the side that took it.
pub proof fn law_a_later_confidence_replaces_an_earlier_one(
    a: Seq<TurnView>,
    b: Seq<TurnView>,
    turn: TurnView,
    side: Side,
)
    ensures
        state::latest_of(Seq::empty(), side) is None,
        state::latest_of(seq![turn], side) == if turn.side == side {
            turn.analysis.credence
        } else {
            None
        },
        state::latest_of(a + b, side) == if state::latest_of(b, side) is Some {
            state::latest_of(b, side)
        } else {
            state::latest_of(a, side)
        },
{
    law_a_series_follows_the_turns(a, b, turn, side);
    let x = state::series_of(a, side);
    let y = state::series_of(b, side);
    if y.len() > 0 {
        assert((x + y).last() == y.last());
    } else {
        assert(x + y =~= x);
    }
}

/// The key claim of a debate is that of its second part where a side states one
/// there, and else that of its first. In a single turn it is what stands there
/// without the white space around it, where that is anything, for the side that
/// took it.
pub proof fn law_a_later_claim_replaces_an_earlier_one(
    a: Seq<TurnView>,
    b: Seq<TurnView>,
    turn: TurnView,
    side: Side,
)
    ensures
        state::key_claim_of(Seq::empty(), side) is None,
        state::key_claim_of(seq![turn], side) == if turn.side == side
            && turn.analysis.key_claim is Some && !text::is_blank(turn.analysis.key_claim->0) {
            Some(text::trimmed(turn.analysis.key_claim->0))
        } else {
            None
        },
        state::key_claim_of(a + b, side) == if state::key_claim_of(b, side) is Some {
            state::key_claim_of(b, side)
        } else {
            state::key_claim_of(a, side)
        },
    decreases b.len(),
{
    assert(seq![turn].drop_last() =~= Seq::<TurnView>::empty());
    assert(seq![turn].last() == turn);
    assert(state::last_claim(Seq::<TurnView>::empty(), side) is None);
    if b.len() == 0 {
        assert(a + b =~= a);
    } else {
        law_a_later_claim_replaces_an_earlier_one(a, b.drop_last(), turn, side);
        assert((a + b).drop_last() =~= a + b.drop_last());
        assert((a + b).last() == b.last());
    }
}

/// Totals can be accounted for exactly when each fits an unsigned number of
/// sixty-four bits.
pub proof fn law_what_can_be_accounted_for(turns: Seq<TurnView>)
    ensures
        state::totals_fit(turns) <==> state::usage_of(turns).input <= 18_446_744_073_709_551_615
            && state::usage_of(turns).output <= 18_446_744_073_709_551_615 && state::usage_of(
            turns,
        ).reasoning <= 18_446_744_073_709_551_615,
{
}

} // verus!
