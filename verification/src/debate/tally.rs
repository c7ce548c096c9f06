//! Tools tallied by name.
//!
//! Which tools a debate reached for says how much of it was checked against
//! the world rather than asserted, which is the project's whole premise.

use vstd::prelude::*;

use crate::debate::state::{self, DebateState, Turn, TurnView};
use crate::opencode::types;
use crate::text;

verus! {

/// The names of the tools invoked across turns, in order.
pub open spec fn tools_of(turns: Seq<TurnView>) -> Seq<Seq<char>>
    decreases turns.len(),
{
    if turns.len() == 0 {
        Seq::empty()
    } else {
        tools_of(turns.drop_last()) + turns.last().tool_calls.map_values(
            |c: types::ToolCallView| c.tool,
        )
    }
}

/// How often a name occurs in a list.
pub open spec fn count_of(names: Seq<Seq<char>>, name: Seq<char>) -> int
    decreases names.len(),
{
    if names.len() == 0 {
        0
    } else {
        count_of(names.drop_last(), name) + if names.last() == name {
            1int
        } else {
            0
        }
    }
}

/// Whether one entry belongs before another: more used first, ties broken by
/// name.
pub open spec fn ahead(x: (Seq<char>, int), y: (Seq<char>, int)) -> bool {
    x.1 > y.1 || (x.1 == y.1 && text::precedes(x.0, y.0))
}

/// Every entry belongs before all that follow it.
pub open spec fn in_order(entries: Seq<(Seq<char>, int)>) -> bool {
    forall|i: int, j: int| 0 <= i < j < entries.len() ==> ahead(entries[i], entries[j])
}

/// The entries are exactly the names that occur, each once, with how often it
/// does.
pub open spec fn counts_all(entries: Seq<(Seq<char>, int)>, names: Seq<Seq<char>>) -> bool {
    &&& forall|i: int|
        0 <= i < entries.len() ==> (#[trigger] entries[i]).1 == count_of(names, entries[i].0)
            && entries[i].1 > 0
    &&& forall|i: int, j: int|
        0 <= i < j < entries.len() ==> (#[trigger] entries[i]).0 != (#[trigger] entries[j]).0
    &&& forall|name: Seq<char>|
        #[trigger] count_of(names, name) > 0 ==> exists|i: int|
            0 <= i < entries.len() && (#[trigger] entries[i]).0 == name
}

/// A tally of a list of names.
pub open spec fn is_tally(entries: Seq<(Seq<char>, int)>, names: Seq<Seq<char>>) -> bool {
    counts_all(entries, names) && in_order(entries)
}

/// What a tally says.
pub open spec fn entry_views(entries: Seq<(&str, usize)>) -> Seq<(Seq<char>, int)> {
    entries.map_values(|e: (&str, usize)| (e.0@, e.1 as int))
}

/// A name occurs at most as often as there are names.
proof fn lemma_count_bounds(names: Seq<Seq<char>>, name: Seq<char>)
    ensures
        0 <= count_of(names, name) <= names.len(),
    decreases names.len(),
{
    if names.len() > 0 {
        lemma_count_bounds(names.drop_last(), name);
    }
}

/// One more name raises its own count and no other.
proof fn lemma_count_one_more(names: Seq<Seq<char>>, more: Seq<char>, name: Seq<char>)
    ensures
        count_of(names.push(more), name) == count_of(names, name) + if more == name {
            1int
        } else {
            0
        },
{
    assert(names.push(more).drop_last() =~= names);
}

/// Where a name stands among the entries.
fn find_entry(entries: &Vec<(&str, usize)>, name: &str) -> (r: Option<usize>)
    ensures
        match r {
            Some(i) => i < entries.len() && entries@[i as int].0@ == name@,
            None => forall|i: int| 0 <= i < entries.len() ==> (#[trigger] entries@[i]).0@ != name@,
        },
{
    let mut i: usize = 0;
    while i < entries.len()
        invariant
            i <= entries.len(),
            forall|j: int| 0 <= j < i ==> (#[trigger] entries@[j]).0@ != name@,
        decreases entries.len() - i,
    {
        if text::same(entries[i].0, name) {
            return Some(i);
        }
        i += 1;
    }
    None
}

/// Enter one more occurrence of a name.
fn enter<'a>(
    entries: &mut Vec<(&'a str, usize)>,
    name: &'a str,
    Ghost(names): Ghost<Seq<Seq<char>>>,
)
    requires
        counts_all(entry_views(old(entries)@), names),
        names.len() < usize::MAX,
    ensures
        counts_all(entry_views(final(entries)@), names.push(name@)),
{
    let ghost before = entry_views(entries@);
    let ghost more = names.push(name@);
    proof {
        lemma_count_bounds(names, name@);
        assert forall|n: Seq<char>| #[trigger]
            count_of(more, n) == count_of(names, n) + if name@ == n {
                1int
            } else {
                0
            } by {
            lemma_count_one_more(names, name@, n);
        }
    }
    match find_entry(entries, name) {
        Some(at) => {
            assert(before[at as int].0 == name@);
            let count: usize = entries[at].1 + 1;
            let known = entries[at].0;
            entries.set(at, (known, count));
            proof {
                let after = entry_views(entries@);
                assert(after =~= before.update(at as int, (name@, count as int)));
                assert forall|n: Seq<char>| #[trigger] count_of(more, n) > 0 implies exists|i: int|
                    0 <= i < after.len() && (#[trigger] after[i]).0 == n by {
                    if n == name@ {
                        assert(after[at as int].0 == n);
                    } else {
                        assert(count_of(names, n) > 0);
                        let i = choose|i: int|
                            0 <= i < before.len() && (#[trigger] before[i]).0 == n;
                        assert(after[i].0 == n);
                    }
                }
                assert forall|i: int| 0 <= i < after.len() implies (#[trigger] after[i]).1
                    == count_of(more, after[i].0) && after[i].1 > 0 by {
                    assert(before[i].0 == after[i].0);
                }
                assert forall|i: int, j: int| 0 <= i < j < after.len() implies (
                #[trigger] after[i]).0 != (#[trigger] after[j]).0 by {
                    assert(before[i].0 == after[i].0 && before[j].0 == after[j].0);
                }
            }
        },
        None => {
            proof {
                if count_of(names, name@) > 0 {
                    let i = choose|i: int|
                        0 <= i < before.len() && (#[trigger] before[i]).0 == name@;
                    assert(entries@[i].0@ == name@);
                }
                assert(count_of(names, name@) == 0);
            }
            let ghost earlier = entries@;
            entries.push((name, 1));
            proof {
                let after = entry_views(entries@);
                assert(after =~= before.push((name@, 1int)));
                assert forall|n: Seq<char>| #[trigger] count_of(more, n) > 0 implies exists|i: int|
                    0 <= i < after.len() && (#[trigger] after[i]).0 == n by {
                    if n == name@ {
                        assert(after[before.len() as int].0 == n);
                    } else {
                        assert(count_of(names, n) > 0);
                        let i = choose|i: int|
                            0 <= i < before.len() && (#[trigger] before[i]).0 == n;
                        assert(after[i].0 == n);
                    }
                }
                assert forall|i: int| 0 <= i < after.len() implies (#[trigger] after[i]).1
                    == count_of(more, after[i].0) && after[i].1 > 0 by {
                    if i < before.len() {
                        assert(before[i] == after[i]);
                        assert(earlier[i].0@ != name@);
                    }
                }
                assert forall|i: int, j: int| 0 <= i < j < after.len() implies (
                #[trigger] after[i]).0 != (#[trigger] after[j]).0 by {
                    assert(before[i] == after[i]);
                    assert(earlier[i].0@ != name@);
                    if j < before.len() {
                        assert(before[j] == after[j]);
                    }
                }
            }
        },
    }
}

/// Entries in the order in which a tally lists them.
fn sorted<'a>(entries: Vec<(&'a str, usize)>, Ghost(names): Ghost<Seq<Seq<char>>>) -> (r: Vec<
    (&'a str, usize),
>)
    requires
        counts_all(entry_views(entries@), names),
    ensures
        is_tally(entry_views(r@), names),
{
    let ghost all = entry_views(entries@);
    let mut placed: Vec<(&'a str, usize)> = Vec::new();
    let mut i: usize = 0;
    while i < entries.len()
        invariant
            i <= entries.len(),
            all == entry_views(entries@),
            counts_all(all, names),
            in_order(entry_views(placed@)),
            placed.len() == i,
            forall|j: int|
                0 <= j < i ==> entry_views(placed@).contains(#[trigger] all[j]),
            forall|j: int|
                0 <= j < placed.len() ==> all.take(i as int).contains(
                    #[trigger] entry_views(placed@)[j],
                ),
        decreases entries.len() - i,
    {
        let entry = entries[i];
        let ghost e = all[i as int];
        let ghost before = entry_views(placed@);
        proof {
            assert forall|j: int| 0 <= j < before.len() implies before[j].0 != e.0 by {
                let k = choose|k: int| 0 <= k < i && all.take(i as int)[k] == before[j];
                assert(all.take(i as int).contains(before[j]));
                assert(all[k] == before[j]);
            }
        }
        let mut at: usize = 0;
        while at < placed.len() && (placed[at].1 > entry.1 || (placed[at].1 == entry.1
            && text::comes_first(placed[at].0, entry.0)))
            invariant
                at <= placed.len(),
                before == entry_views(placed@),
                e == (entry.0@, entry.1 as int),
                forall|j: int| 0 <= j < at ==> ahead(#[trigger] before[j], e),
            decreases placed.len() - at,
        {
            assert(ahead(before[at as int], e));
            at += 1;
        }
        placed.insert(at, entry);
        proof {
            let after = entry_views(placed@);
            assert(after =~= before.insert(at as int, e));
            assert forall|j: int| at <= j < before.len() implies ahead(e, #[trigger] before[j]) by {
                text::lemma_precedes_is_total(before[at as int].0, e.0);
                assert(!ahead(before[at as int], e));
                assert(ahead(e, before[at as int]));
                if j > at {
                    assert(ahead(before[at as int], before[j]));
                    lemma_ahead_is_transitive(e, before[at as int], before[j]);
                }
            }
            assert forall|x: int, y: int| 0 <= x < y < after.len() implies ahead(
                after[x],
                after[y],
            ) by {
                let px = if x < at { x } else { x - 1 };
                let py = if y < at { y } else { y - 1 };
                if x == at {
                    assert(after[y] == before[py]);
                } else if y == at {
                    assert(after[x] == before[px]);
                } else {
                    assert(after[x] == before[px] && after[y] == before[py]);
                }
            }
            assert forall|j: int| 0 <= j < i + 1 implies after.contains(#[trigger] all[j]) by {
                if j == i {
                    assert(after[at as int] == e);
                } else {
                    let k = choose|k: int| 0 <= k < before.len() && before[k] == all[j];
                    assert(before.contains(all[j]));
                    if k < at {
                        assert(after[k] == all[j]);
                    } else {
                        assert(after[k + 1] == all[j]);
                    }
                }
            }
            assert forall|j: int| 0 <= j < after.len() implies all.take(i + 1).contains(
                #[trigger] after[j],
            ) by {
                if j == at {
                    assert(all.take(i + 1)[i as int] == e);
                } else {
                    let pj = if j < at { j } else { j - 1 };
                    assert(after[j] == before[pj]);
                    assert(all.take(i as int).contains(before[pj]));
                    let k = choose|k: int| 0 <= k < i && all.take(i as int)[k] == before[pj];
                    assert(all.take(i + 1)[k] == after[j]);
                }
            }
        }
        i += 1;
    }
    proof {
        let out = entry_views(placed@);
        assert(all.take(i as int) =~= all);
        assert forall|j: int| 0 <= j < out.len() implies (#[trigger] out[j]).1 == count_of(
            names,
            out[j].0,
        ) && out[j].1 > 0 by {
            assert(all.contains(out[j]));
            let k = choose|k: int| 0 <= k < all.len() && all[k] == out[j];
            assert(all[k].1 > 0);
        }
        assert forall|x: int, y: int| 0 <= x < y < out.len() implies (#[trigger] out[x]).0 != (
        #[trigger] out[y]).0 by {
            assert(ahead(out[x], out[y]));
            text::lemma_precedes_is_total(out[x].0, out[y].0);
            assert(out[x].1 == count_of(names, out[x].0) && out[y].1 == count_of(names, out[y].0));
        }
        assert forall|n: Seq<char>| #[trigger] count_of(names, n) > 0 implies exists|j: int|
            0 <= j < out.len() && (#[trigger] out[j]).0 == n by {
            let k = choose|k: int| 0 <= k < all.len() && (#[trigger] all[k]).0 == n;
            assert(out.contains(all[k]));
            let j = choose|j: int| 0 <= j < out.len() && out[j] == all[k];
            assert(out[j].0 == n);
        }
    }
    placed
}

/// What belongs before an entry belongs before all that come after it.
proof fn lemma_ahead_is_transitive(x: (Seq<char>, int), y: (Seq<char>, int), z: (Seq<char>, int))
    requires
        ahead(x, y),
        ahead(y, z),
    ensures
        ahead(x, z),
{
    if x.1 == y.1 && y.1 == z.1 {
        text::lemma_precedes_is_transitive(x.0, y.0, z.0);
    }
}

impl DebateState {
    /// Whether the number of tool calls fits the counters that hold it, so that
    /// they can be tallied.
    pub fn can_tally(&self) -> (r: bool)
        ensures
            r == (tools_of(self@.turns).len() <= usize::MAX),
    {
        let ghost turns = self@.turns;
        let mut count: usize = 0;
        let mut i: usize = 0;
        assert(turns.take(0) =~= Seq::<TurnView>::empty());
        while i < self.turns.len()
            invariant
                i <= self.turns.len(),
                turns == self@.turns,
                turns == state::turn_views(self.turns@),
                count == tools_of(turns.take(i as int)).len(),
            decreases self.turns.len() - i,
        {
            proof {
                assert(turns.take(i + 1).drop_last() =~= turns.take(i as int));
                assert(turns.take(i + 1).last() == self.turns@[i as int]@);
                lemma_tools_grow(turns, i + 1);
            }
            match count.checked_add(self.turns[i].tool_calls.len()) {
                Some(sum) => count = sum,
                None => {
                    return false;
                },
            }
            i += 1;
        }
        assert(turns.take(i as int) =~= turns);
        true
    }

    /// Tools invoked across the debate, tallied by name: most used first, ties
    /// broken by name so the order is stable.
    pub fn tool_tally(&self) -> (r: Vec<(&str, usize)>)
        requires
            tools_of(self@.turns).len() <= usize::MAX,
        ensures
            is_tally(entry_views(r@), tools_of(self@.turns)),
    {
        let mut entries: Vec<(&str, usize)> = Vec::new();
        let ghost turns = self@.turns;
        let ghost mut seen: Seq<Seq<char>> = Seq::empty();
        let mut i: usize = 0;
        assert(turns.take(0) =~= Seq::<TurnView>::empty());
        while i < self.turns.len()
            invariant
                i <= self.turns.len(),
                turns == state::turn_views(self.turns@),
                seen == tools_of(turns.take(i as int)),
                tools_of(turns).len() <= usize::MAX,
                counts_all(entry_views(entries@), seen),
            decreases self.turns.len() - i,
        {
            let turn: &Turn = &self.turns[i];
            let ghost calls = turn@.tool_calls.map_values(|c: types::ToolCallView| c.tool);
            let ghost earlier = seen;
            let mut j: usize = 0;
            proof {
                assert(turns.take(i + 1).drop_last() =~= turns.take(i as int));
                assert(turns.take(i + 1).last() == turn@);
                lemma_tools_grow(turns, i + 1);
                assert(earlier + calls.take(0) =~= earlier);
            }
            while j < turn.tool_calls.len()
                invariant
                    j <= turn.tool_calls.len(),
                    calls == turn@.tool_calls.map_values(|c: types::ToolCallView| c.tool),
                    seen == earlier + calls.take(j as int),
                    (earlier + calls).len() <= usize::MAX,
                    counts_all(entry_views(entries@), seen),
                decreases turn.tool_calls.len() - j,
            {
                let name = turn.tool_calls[j].tool.as_str();
                enter(&mut entries, name, Ghost(seen));
                proof {
                    assert(calls[j as int] == name@);
                    assert(seen.push(name@) =~= earlier + calls.take(j + 1));
                    seen = seen.push(name@);
                }
                j += 1;
            }
            assert(calls.take(j as int) =~= calls);
            i += 1;
        }
        assert(turns.take(i as int) =~= turns);
        sorted(entries, Ghost(seen))
    }
}

/// Looking at fewer turns sees no more tools.
proof fn lemma_tools_grow(turns: Seq<TurnView>, n: int)
    requires
        0 <= n <= turns.len(),
    ensures
        tools_of(turns.take(n)).len() <= tools_of(turns).len(),
    decreases turns.len() - n,
{
    if n == turns.len() {
        assert(turns.take(n) =~= turns);
    } else {
        lemma_tools_grow(turns, n + 1);
        assert(turns.take(n + 1).drop_last() =~= turns.take(n));
    }
}

/// A list of names has one tally only, so its order cannot vary between runs.
pub proof fn law_a_tally_is_unique(
    x: Seq<(Seq<char>, int)>,
    y: Seq<(Seq<char>, int)>,
    names: Seq<Seq<char>>,
)
    requires
        is_tally(x, names),
        is_tally(y, names),
    ensures
        x == y,
{
    assert forall|i: int| 0 <= i < x.len() implies y.contains(#[trigger] x[i]) by {
        lemma_tally_holds(y, names, x[i]);
    }
    assert forall|i: int| 0 <= i < y.len() implies x.contains(#[trigger] y[i]) by {
        lemma_tally_holds(x, names, y[i]);
    }
    lemma_ordered_lists_agree(x, y);
}

/// A tally holds every name that occurs, with its count.
proof fn lemma_tally_holds(x: Seq<(Seq<char>, int)>, names: Seq<Seq<char>>, e: (Seq<char>, int))
    requires
        counts_all(x, names),
        e.1 == count_of(names, e.0),
        e.1 > 0,
    ensures
        x.contains(e),
{
    let i = choose|i: int| 0 <= i < x.len() && (#[trigger] x[i]).0 == e.0;
    assert(x[i] == e);
}

/// Two lists in order with the same members are the same list.
proof fn lemma_ordered_lists_agree(x: Seq<(Seq<char>, int)>, y: Seq<(Seq<char>, int)>)
    requires
        in_order(x),
        in_order(y),
        forall|i: int| 0 <= i < x.len() ==> y.contains(#[trigger] x[i]),
        forall|i: int| 0 <= i < y.len() ==> x.contains(#[trigger] y[i]),
    ensures
        x == y,
    decreases x.len(),
{
    if x.len() == 0 {
        if y.len() > 0 {
            assert(x.contains(y[0]));
        }
        assert(x =~= y);
    } else {
        assert(y.contains(x[0]));
        let k = choose|k: int| 0 <= k < y.len() && y[k] == x[0];
        assert(x.contains(y[0]));
        let m = choose|m: int| 0 <= m < x.len() && x[m] == y[0];
        text::lemma_precedes_is_total(x[0].0, y[0].0);
        if k > 0 && m > 0 {
            assert(ahead(y[0], y[k]));
            assert(ahead(x[0], x[m]));
        }
        assert(x[0] == y[0]);
        let xs = x.drop_first();
        let ys = y.drop_first();
        lemma_rest_is_in_order(x);
        lemma_rest_is_in_order(y);
        assert forall|i: int| 0 <= i < xs.len() implies ys.contains(#[trigger] xs[i]) by {
            lemma_rest_contains(x, y, i + 1);
            assert(xs[i] == x[i + 1]);
        }
        assert forall|i: int| 0 <= i < ys.len() implies xs.contains(#[trigger] ys[i]) by {
            lemma_rest_contains(y, x, i + 1);
            assert(ys[i] == y[i + 1]);
        }
        lemma_ordered_lists_agree(xs, ys);
        assert(x =~= seq![x[0]] + xs);
        assert(y =~= seq![y[0]] + ys);
    }
}

/// A list in order stays so without its first member.
proof fn lemma_rest_is_in_order(x: Seq<(Seq<char>, int)>)
    requires
        in_order(x),
        x.len() > 0,
    ensures
        in_order(x.drop_first()),
{
    let xs = x.drop_first();
    assert forall|i: int, j: int| 0 <= i < j < xs.len() implies ahead(xs[i], xs[j]) by {
        assert(ahead(x[i + 1], x[j + 1]));
    }
}

/// A later member of one list is a later member of the other, where both start
/// alike.
proof fn lemma_rest_contains(x: Seq<(Seq<char>, int)>, y: Seq<(Seq<char>, int)>, i: int)
    requires
        in_order(x),
        0 < i < x.len(),
        y.len() > 0,
        x[0] == y[0],
        forall|j: int| 0 <= j < x.len() ==> y.contains(#[trigger] x[j]),
    ensures
        y.drop_first().contains(x[i]),
{
    assert(y.contains(x[i]));
    let k = choose|k: int| 0 <= k < y.len() && y[k] == x[i];
    assert(ahead(x[0], x[i]));
    text::lemma_precedes_is_total(x[0].0, x[i].0);
    assert(k > 0);
    assert(y.drop_first()[k - 1] == x[i]);
}


/// The tools of a debate are those of its turns in order, one for every call a
/// turn made.
pub proof fn law_every_call_is_listed(a: Seq<TurnView>, b: Seq<TurnView>, turn: TurnView)
    ensures
        tools_of(Seq::empty()).len() == 0,
        tools_of(seq![turn]).len() == turn.tool_calls.len(),
        forall|i: int|
            0 <= i < turn.tool_calls.len() ==> #[trigger] tools_of(seq![turn])[i]
                == turn.tool_calls[i].tool,
        tools_of(a + b) == tools_of(a) + tools_of(b),
    decreases b.len(),
{
    assert(seq![turn].drop_last() =~= Seq::<TurnView>::empty());
    assert(seq![turn].last() == turn);
    assert(tools_of(Seq::empty()) =~= Seq::<Seq<char>>::empty());
    assert(tools_of(seq![turn]) =~= turn.tool_calls.map_values(|c: types::ToolCallView| c.tool));
    if b.len() == 0 {
        assert(a + b =~= a);
        assert(tools_of(a) + tools_of(b) =~= tools_of(a));
    } else {
        law_every_call_is_listed(a, b.drop_last(), turn);
        assert((a + b).drop_last() =~= a + b.drop_last());
        assert((a + b).last() == b.last());
        assert(tools_of(a + b) =~= tools_of(a) + tools_of(b));
    }
}

/// A name is counted once for every place it stands at.
pub proof fn law_every_occurrence_counts(
    a: Seq<Seq<char>>,
    b: Seq<Seq<char>>,
    other: Seq<char>,
    name: Seq<char>,
)
    ensures
        count_of(Seq::empty(), name) == 0,
        count_of(seq![name], name) == 1,
        other != name ==> count_of(seq![other], name) == 0,
        count_of(a + b, name) == count_of(a, name) + count_of(b, name),
    decreases b.len(),
{
    assert(seq![name].drop_last() =~= Seq::<Seq<char>>::empty());
    assert(seq![other].drop_last() =~= Seq::<Seq<char>>::empty());
    assert(seq![name].last() == name && seq![other].last() == other);
    if b.len() == 0 {
        assert(a + b =~= a);
    } else {
        law_every_occurrence_counts(a, b.drop_last(), other, name);
        assert((a + b).drop_last() =~= a + b.drop_last());
        assert((a + b).last() == b.last());
    }
}

/// What a tally says: each name once, with how often it occurs, the most frequent
/// first, and names that occur equally often in alphabetical order.
pub proof fn law_what_a_tally_says(entries: Seq<(Seq<char>, int)>, names: Seq<Seq<char>>)
    requires
        is_tally(entries, names),
    ensures
        forall|i: int|
            0 <= i < entries.len() ==> (#[trigger] entries[i]).1 == count_of(names, entries[i].0)
                && entries[i].1 > 0,
        forall|i: int, j: int|
            0 <= i < j < entries.len() ==> (#[trigger] entries[i]).0 != (#[trigger] entries[j]).0,
        forall|i: int, j: int|
            0 <= i < j < entries.len() ==> (#[trigger] entries[i]).1 >= (
            #[trigger] entries[j]).1,
        forall|i: int, j: int|
            0 <= i < j < entries.len() && (#[trigger] entries[i]).1 == (#[trigger] entries[j]).1
                ==> text::precedes(entries[i].0, entries[j].0),
{
    assert forall|i: int, j: int| 0 <= i < j < entries.len() implies ahead(
        #[trigger] entries[i],
        #[trigger] entries[j],
    ) by {}
}

/// Every name that occurs has its entry in a tally.
pub proof fn law_every_name_is_tallied(
    entries: Seq<(Seq<char>, int)>,
    names: Seq<Seq<char>>,
    k: int,
) -> (i: int)
    requires
        is_tally(entries, names),
        0 <= k < names.len(),
    ensures
        0 <= i < entries.len(),
        entries[i].0 == names[k],
{
    let name = names[k];
    assert(names =~= names.take(k) + (seq![name] + names.skip(k + 1)));
    law_every_occurrence_counts(names.take(k), seq![name] + names.skip(k + 1), name, name);
    law_every_occurrence_counts(seq![name], names.skip(k + 1), name, name);
    lemma_count_bounds(names.take(k), name);
    lemma_count_bounds(names.skip(k + 1), name);
    assert(count_of(names, name) > 0);
    choose|i: int| 0 <= i < entries.len() && (#[trigger] entries[i]).0 == name
}

/// A tally is seen as it is, entry by entry.
pub proof fn law_a_tally_is_seen_as_it_is(entries: Seq<(&str, usize)>, i: int)
    requires
        0 <= i < entries.len(),
    ensures
        entry_views(entries).len() == entries.len(),
        entry_views(entries)[i].0 == entries[i].0@,
        entry_views(entries)[i].1 == entries[i].1,
{
}

} // verus!
