//! What holds of a whole debate, from its first event to its last.

use vstd::prelude::*;

use crate::debate::conduct;
use crate::debate::engine::{self, EngineView, EventView, PhaseView, ProgressView};
use crate::debate::laws;
use crate::debate::state::{self, StateView, StopView, TurnView};
use crate::error::ErrorView;

verus! {

/// Where a list of events takes a debate, and everything that is reported on
/// the way.
pub open spec fn run(e: EngineView, events: Seq<EventView>) -> (EngineView, Seq<ProgressView>)
    decreases events.len(),
{
    if events.len() == 0 {
        (e, Seq::empty())
    } else {
        let (before, reports) = run(e, events.drop_last());
        let (after, step) = engine::advanced(before, events.last());
        (after, reports + step.progress)
    }
}

/// Every event of a list is one that the debate was waiting for when it came.
pub open spec fn can_run(e: EngineView, events: Seq<EventView>) -> bool
    decreases events.len(),
{
    events.len() == 0 || (can_run(e, events.drop_last()) && engine::expected(
        run(e, events.drop_last()).0.phase,
        events.last(),
    ))
}

/// What is reported of turns that were taken: the start and the completion of
/// each, in order.
pub open spec fn turn_reports(turns: Seq<TurnView>) -> Seq<ProgressView> {
    Seq::new(
        2 * turns.len(),
        |i: int|
            if i % 2 == 0 {
                ProgressView::TurnStarted { side: turns[i / 2].side, round: turns[i / 2].round }
            } else {
                ProgressView::TurnCompleted(turns[i / 2])
            },
    )
}

/// What is reported when the turn after those already taken starts.
pub open spec fn next_start(debate: StateView) -> ProgressView {
    ProgressView::TurnStarted {
        side: state::speaker(debate.turns.len() as int),
        round: state::round_at(debate.turns.len() as int),
    }
}

/// Everything that has been reported of a debate, given where it stands and
/// whether the last thing that happened is that a turn was read.
pub open spec fn reports_of(e: EngineView, turn_read: bool) -> Seq<ProgressView> {
    let taken = turn_reports(e.debate.turns);
    if e.phase == PhaseView::Ready {
        Seq::empty()
    } else if e.phase != PhaseView::Over {
        taken.push(next_start(e.debate))
    } else {
        let end = ProgressView::Finished { reason: e.debate.stop_reason->0 };
        if turn_read {
            taken.push(end)
        } else {
            taken.push(next_start(e.debate)).push(end)
        }
    }
}

/// A list of events ends with a turn that was read.
pub open spec fn ends_with_a_turn(events: Seq<EventView>) -> bool {
    events.len() > 0 && events.last() is Read
}

/// However far a debate has come, it is sound, and what was agreed at its start
/// still holds.
pub proof fn law_every_run_is_sound(e: EngineView, events: Seq<EventView>)
    requires
        conduct::fresh(e),
        can_run(e, events),
    ensures
        ({
            let after = run(e, events).0;
            &&& conduct::sound(after)
            &&& after.debate.topic == e.debate.topic
            &&& after.debate.max_rounds == e.debate.max_rounds
            &&& after.config == e.config
            &&& after.rules == e.rules
            &&& after.session_a == e.session_a
            &&& after.session_b == e.session_b
        }),
    decreases events.len(),
{
    if events.len() == 0 {
        conduct::law_a_fresh_debate_is_sound(e);
    } else {
        let before = run(e, events.drop_last()).0;
        law_every_run_is_sound(e, events.drop_last());
        conduct::law_every_step_keeps_a_debate_sound(before, events.last());
        conduct::law_no_turn_is_ever_lost(before, events.last());
    }
}

/// What a run reports: the start and the completion of every turn, in order, and
/// nothing of any other turn but the start of the one that is still open or that
/// a side could not take; and when the debate is over, its ending, with the
/// reason on record.
pub proof fn law_a_run_reports_its_turns_in_order(e: EngineView, events: Seq<EventView>)
    requires
        conduct::fresh(e),
        can_run(e, events),
    ensures
        run(e, events).1 == reports_of(run(e, events).0, ends_with_a_turn(events)),
    decreases events.len(),
{
    let (after, reports) = run(e, events);
    law_every_run_is_sound(e, events);
    if events.len() == 0 {
        assert(reports =~= reports_of(after, false));
    } else {
        let (before, earlier) = run(e, events.drop_last());
        let event = events.last();
        law_a_run_reports_its_turns_in_order(e, events.drop_last());
        law_every_run_is_sound(e, events.drop_last());
        conduct::law_everything_is_reported(before, event);
        conduct::law_only_a_read_answer_is_recorded(before, event);
        conduct::law_no_turn_is_ever_lost(before, event);
        let turns = before.debate.turns;
        if event is Read {
            let turn = after.debate.turns.last();
            assert(turn_reports(turns.push(turn)) =~= turn_reports(turns).push(
                next_start(before.debate),
            ).push(ProgressView::TurnCompleted(turn)));
        }
        assert(reports =~= reports_of(after, event is Read));
    }
}

/// A debate ends once: its ending is reported exactly when it is over, and as
/// the last thing of all.
pub proof fn law_a_run_ends_once(e: EngineView, events: Seq<EventView>)
    requires
        conduct::fresh(e),
        can_run(e, events),
    ensures
        ({
            let (after, reports) = run(e, events);
            &&& after.phase == PhaseView::Over ==> reports.len() > 0
            &&& forall|i: int|
                0 <= i < reports.len() ==> (#[trigger] reports[i] is Finished <==> after.phase
                    == PhaseView::Over && i == reports.len() - 1)
        }),
{
    law_a_run_reports_its_turns_in_order(e, events);
}

/// A debate that anything but a turn that was read brought to its end was ended
/// by a side that could not take its turn, and the start of that turn is what
/// was reported last before the ending.
pub proof fn law_a_turn_that_only_started_is_the_failed_sides(e: EngineView, events: Seq<EventView>)
    requires
        conduct::fresh(e),
        can_run(e, events),
        run(e, events).0.phase == PhaseView::Over,
        !ends_with_a_turn(events),
    ensures
        ({
            let (after, reports) = run(e, events);
            &&& after.debate.stop_reason is Some
            &&& after.debate.stop_reason->0 is Failed
            &&& reports.len() >= 2
            &&& reports[reports.len() - 2] == next_start(after.debate)
            &&& after.debate.stop_reason->0->Failed_side == state::speaker(
                after.debate.turns.len() as int,
            )
        }),
{
    law_a_run_reports_its_turns_in_order(e, events);
    law_every_run_is_sound(e, events.drop_last());
    let before = run(e, events.drop_last()).0;
    conduct::law_debates_stop_on_complete_rounds(before, events.last());
}

/// Turns stay as they were recorded: those of any earlier moment of a run are
/// the first of those it has later.
pub proof fn law_a_run_keeps_its_turns(e: EngineView, events: Seq<EventView>, k: int)
    requires
        can_run(e, events),
        0 <= k <= events.len(),
    ensures
        run(e, events.take(k)).0.debate.turns.is_prefix_of(run(e, events).0.debate.turns),
    decreases events.len(),
{
    if k == events.len() {
        assert(events.take(k) =~= events);
    } else {
        let less = events.drop_last();
        assert(less.take(k) =~= events.take(k));
        law_a_run_keeps_its_turns(e, less, k);
        conduct::law_no_turn_is_ever_lost(run(e, less).0, events.last());
    }
}

/// No debate goes on for ever: there is a bound on its events, known before it
/// begins, and until it is over there is always one that it waits for.
pub proof fn law_every_run_is_bounded(e: EngineView, events: Seq<EventView>)
    requires
        conduct::fresh(e),
        can_run(e, events),
    ensures
        0 <= conduct::events_left(run(e, events).0),
        events.len() + conduct::events_left(run(e, events).0) <= conduct::events_left(e),
        run(e, events).0.phase != PhaseView::Over ==> exists|event: EventView|
            engine::expected(run(e, events).0.phase, event),
    decreases events.len(),
{
    let after = run(e, events).0;
    if events.len() == 0 {
        let attempts = engine::attempts_of(e.config);
        let turns = 2 * conduct::round_limit(e.config);
        assert(turns * (2 * attempts + 2) >= 0) by (nonlinear_arith)
            requires
                turns >= 0,
                attempts >= 0,
        ;
    } else {
        law_every_run_is_bounded(e, events.drop_last());
        law_every_run_is_sound(e, events.drop_last());
        conduct::law_every_debate_ends(run(e, events.drop_last()).0, events.last());
    }
    match after.phase {
        PhaseView::Ready => {
            assert(engine::expected(after.phase, EventView::Begin));
        },
        PhaseView::Asking { .. } => {
            let failure = EventView::Failed(ErrorView::Invalid(Seq::empty()));
            assert(engine::expected(after.phase, failure));
        },
        PhaseView::Resting { .. } => {
            assert(engine::expected(after.phase, EventView::Rested));
        },
        PhaseView::Reading { .. } => {
            let read = EventView::Read { cost: arbitrary(), decoded: arbitrary() };
            assert(engine::expected(after.phase, read));
        },
        PhaseView::Over => {},
    }
}

/// What a finished run comes to: a reason on record; the sides in alternation,
/// within the cap; whole rounds, unless a side conceded or could not go on; and
/// all the rounds there can be, where it is the cap and not the format that
/// ended it.
pub proof fn law_a_finished_run_is_whole(e: EngineView, events: Seq<EventView>)
    requires
        conduct::fresh(e),
        can_run(e, events),
        run(e, events).0.phase == PhaseView::Over,
    ensures
        ({
            let debate = run(e, events).0.debate;
            &&& debate.stop_reason is Some
            &&& laws::well_paced(debate.turns)
            &&& debate.turns.len() <= 2 * conduct::round_limit(e.config)
            &&& debate.turns.len() % 2 == 0 || match debate.stop_reason->0 {
                StopView::Conceded { .. } => true,
                StopView::Failed { .. } => true,
                _ => false,
            }
            &&& debate.stop_reason == Some(StopView::RoundCap) && (e.rules.verdict)(
                StateView { stop_reason: None, ..debate },
            ) is None ==> debate.turns.len() == 2 * conduct::round_limit(e.config)
        }),
{
    law_every_run_is_sound(e, events);
    law_every_run_is_sound(e, events.drop_last());
    conduct::law_debates_stop_on_complete_rounds(
        run(e, events.drop_last()).0,
        events.last(),
    );
}

} // verus!
