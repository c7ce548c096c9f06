//! What holds of every step of every debate the engine runs, whatever the format,
//! whatever the models answer, and however often they fail.

use vstd::prelude::*;

use crate::config;
use crate::debate::collect::{self, FaultView, RawView};
use crate::debate::credence::{self, CredenceFormat};
use crate::debate::engine::{
    self, Action, ActionView, ConfigView, DebateConfig, EngineView, Event, EventView, PhaseView,
    Progress, ProgressView, Step,
};
use crate::debate::format::DebateFormat;
use crate::debate::laws;
use crate::debate::parse::{self, StructuredBlock};
use crate::debate::state::{self, Side, StateView, StopView};
use crate::error::{self, ErrorView};
use crate::text;

verus! {

/// How many rounds a debate can have. A cap below one still lets the first
/// round finish, since the cap waits for a complete one.
pub open spec fn round_limit(config: ConfigView) -> int {
    if config.max_rounds < 1 {
        1
    } else {
        config.max_rounds
    }
}

/// A debate that has not begun.
pub open spec fn fresh(e: EngineView) -> bool {
    &&& e.debate.turns.len() == 0
    &&& e.debate.stop_reason is None
    &&& e.phase == PhaseView::Ready
}

/// What holds between any two actions of a debate: the sides have taken turns,
/// a reason to stop is recorded exactly when the debate is over, no more rounds
/// than the cap allows have been played, and the attempt at hand is one of
/// those allowed, with the delay that goes with it.
pub open spec fn sound(e: EngineView) -> bool {
    let n = e.debate.turns.len();
    let attempts = engine::attempts_of(e.config);
    &&& laws::well_paced(e.debate.turns)
    &&& n <= 2 * round_limit(e.config)
    &&& e.phase == PhaseView::Over <==> e.debate.stop_reason is Some
    &&& e.phase != PhaseView::Over ==> n < 2 * round_limit(e.config)
    &&& match e.phase {
        PhaseView::Ready => n == 0,
        PhaseView::Asking { attempt, delay } => 1 <= attempt <= attempts && delay
            == config::nth_delay(e.config.backoff, (attempt - 1) as nat),
        PhaseView::Resting { attempt, delay } => 2 <= attempt <= attempts && delay
            == config::nth_delay(e.config.backoff, (attempt - 1) as nat),
        PhaseView::Reading { raw } => !text::is_blank(raw.text),
        PhaseView::Over => true,
    }
}

/// A debate that has not begun is sound.
pub proof fn law_a_fresh_debate_is_sound(e: EngineView)
    requires
        fresh(e),
    ensures
        sound(e),
{
}

/// Doubling the delay of one attempt gives the delay of the next.
proof fn lemma_next_delay(backoff: int, k: nat)
    ensures
        config::nth_delay(config::nth_delay(backoff, k), 1) == config::nth_delay(backoff, k + 1),
{
    reveal_with_fuel(config::nth_delay, 2);
}

/// Whatever happens, a sound debate stays sound.
pub proof fn law_every_step_keeps_a_debate_sound(e: EngineView, event: EventView)
    requires
        sound(e),
        engine::expected(e.phase, event),
    ensures
        sound(engine::advanced(e, event).0),
{
    match (e.phase, event) {
        (PhaseView::Asking { attempt, delay }, _) => {
            lemma_next_delay(e.config.backoff, (attempt - 1) as nat);
        },
        (PhaseView::Reading { raw }, EventView::Read { cost, decoded }) => {
            let turn = engine::turn_from(e, raw, cost, decoded);
            laws::law_recording_keeps_the_pace(e.debate.turns, turn);
        },
        _ => {},
    }
}

/// Turns alternate, side A opens, every turn carries its own position and
/// round, and no debate plays more rounds than its cap allows.
pub proof fn law_turns_alternate_within_the_cap(e: EngineView)
    requires
        sound(e),
    ensures
        forall|i: int|
            0 <= i < e.debate.turns.len() ==> (#[trigger] e.debate.turns[i]).side
                == state::speaker(i) && e.debate.turns[i].index == i && e.debate.turns[i].round
                == state::round_at(i) && 1 <= e.debate.turns[i].round <= round_limit(e.config),
        e.debate.turns.len() <= 2 * round_limit(e.config),
{
}

/// No turn is ever lost or altered: what an event leads to holds every turn
/// that was there before, in place, and at most one more; and it changes
/// neither the topic nor anything else agreed at the start.
pub proof fn law_no_turn_is_ever_lost(e: EngineView, event: EventView)
    requires
        engine::expected(e.phase, event),
    ensures
        ({
            let after = engine::advanced(e, event).0;
            &&& after.debate.turns == e.debate.turns || after.debate.turns
                == e.debate.turns.push(after.debate.turns.last())
            &&& after.debate.topic == e.debate.topic
            &&& after.debate.max_rounds == e.debate.max_rounds
            &&& after.config == e.config
            &&& after.rules == e.rules
            &&& after.session_a == e.session_a
            &&& after.session_b == e.session_b
        }),
{
    if let (PhaseView::Reading { raw }, EventView::Read { cost, decoded }) = (e.phase, event) {
        let turn = engine::turn_from(e, raw, cost, decoded);
        assert(e.debate.turns.push(turn).last() == turn);
    }
}

/// A turn is recorded when, and only when, an answer with visible text has been
/// read. It is the answer's prose and structure, on the side whose turn it was.
pub proof fn law_only_a_read_answer_is_recorded(e: EngineView, event: EventView)
    requires
        engine::expected(e.phase, event),
    ensures
        ({
            let after = engine::advanced(e, event).0;
            &&& after.debate.turns.len() == e.debate.turns.len() + 1 <==> event is Read
            &&& after.debate.turns.len() == e.debate.turns.len() <==> !(event is Read)
            &&& event matches EventView::Read { cost, decoded } ==> after.debate.turns.last()
                == engine::turn_from(e, e.phase->raw, cost, decoded)
        }),
{
}

/// An answer with visible text is never retried, whether or not its structure
/// can be read: the argument is real and worth keeping.
pub proof fn law_visible_text_is_never_retried(e: EngineView, raw: RawView)
    requires
        e.phase is Asking,
        !text::is_blank(raw.text),
    ensures
        engine::advanced(e, EventView::Answered(raw)).0 == (EngineView {
            phase: PhaseView::Reading { raw },
            ..e
        }),
{
}

/// A refusal that retrying cannot fix ends the debate at once, with the
/// provider's own words, naming the side, and keeping every turn.
pub proof fn law_a_permanent_refusal_is_not_retried(e: EngineView, raw: RawView, words: Seq<char>)
    requires
        e.phase is Asking,
        collect::fault_in(raw) == Some(FaultView::Permanent(words)),
    ensures
        ({
            let (after, step) = engine::advanced(e, EventView::Answered(raw));
            &&& after.phase == PhaseView::Over
            &&& step.action == ActionView::Done
            &&& after.debate.turns == e.debate.turns
            &&& after.debate.stop_reason == Some(
                StopView::Failed {
                    side: engine::side_of(e),
                    message: error::error_text(engine::session_failure(e, words)),
                },
            )
        }),
{
}

/// A failed request that retrying cannot fix ends the debate at once too, and
/// is reported as it is.
pub proof fn law_a_permanent_failure_is_not_retried(e: EngineView, failure: ErrorView)
    requires
        e.phase is Asking,
        !error::worth_retrying(failure),
    ensures
        ({
            let (after, step) = engine::advanced(e, EventView::Failed(failure));
            &&& after.phase == PhaseView::Over
            &&& step.action == ActionView::Done
            &&& after.debate.turns == e.debate.turns
            &&& after.debate.stop_reason == Some(
                StopView::Failed {
                    side: engine::side_of(e),
                    message: error::error_text(failure),
                },
            )
        }),
{
}

/// What an attempt that failed for a passing reason leads to. While attempts
/// are left, the k-th one is followed by the backoff doubled k - 1 times, and
/// then by the very prompt that was sent before; the wait says which side it is
/// for, which attempt failed, out of how many, and in what words. After the last
/// attempt the debate ends, with those words and saying how many there were.
pub proof fn law_transient_faults_are_retried_with_a_doubling_wait(
    e: EngineView,
    event: EventView,
    words: Seq<char>,
)
    requires
        sound(e),
        e.phase is Asking,
        match event {
            EventView::Answered(raw) => collect::fault_in(raw) == Some(FaultView::Transient(words)),
            EventView::Failed(failure) => error::worth_retrying(failure) && error::error_text(
                failure,
            ) == words,
            _ => false,
        },
    ensures
        ({
            let attempt = e.phase->Asking_attempt;
            let attempts = engine::attempts_of(e.config);
            let (after, step) = engine::advanced(e, event);
            if attempt < attempts {
                let (again, retry) = engine::advanced(after, EventView::Rested);
                &&& step.action == ActionView::Wait {
                    side: engine::side_of(e),
                    attempt,
                    attempts,
                    delay: config::nth_delay(e.config.backoff, (attempt - 1) as nat),
                    reason: words,
                }
                &&& after.phase is Resting
                &&& again.phase is Asking
                &&& again.phase->Asking_attempt == attempt + 1
                &&& retry.action == engine::prompt_of(e)
                &&& again.debate == e.debate
            } else {
                &&& after.phase == PhaseView::Over
                &&& after.debate.turns == e.debate.turns
                &&& after.debate.stop_reason == Some(
                    StopView::Failed {
                        side: engine::side_of(e),
                        message: error::error_text(
                            engine::session_failure(e, engine::exhausted(words, attempts)),
                        ),
                    },
                )
            }
        }),
{
}

/// A debate that stops for any reason but a side's failure or concession stops
/// on a complete round. After a turn that was read, the reason is the format's
/// where the format gives one, and the round cap otherwise.
pub proof fn law_debates_stop_on_complete_rounds(e: EngineView, event: EventView)
    requires
        sound(e),
        engine::expected(e.phase, event),
        engine::advanced(e, event).0.phase == PhaseView::Over,
    ensures
        ({
            let after = engine::advanced(e, event).0.debate;
            let open = StateView { stop_reason: None, ..after };
            &&& after.stop_reason is Some
            &&& !(after.stop_reason->0 is Failed) && !(after.stop_reason->0 is Conceded)
                ==> after.turns.len() % 2 == 0
            &&& event is Read ==> match (e.rules.verdict)(open) {
                Some(reason) => after.stop_reason == Some(reason) && (reason is Conceded
                    || after.turns.len() % 2 == 0),
                None => after.stop_reason == Some(StopView::RoundCap) && after.turns.len() % 2 == 0
                    && after.turns.len() / 2 >= e.config.max_rounds,
            }
            &&& !(event is Read) ==> after.stop_reason->0 is Failed && after.turns
                == e.debate.turns
        }),
{
    let after = engine::advanced(e, event).0.debate;
    if let (PhaseView::Reading { raw }, EventView::Read { cost, decoded }) = (e.phase, event) {
        let turn = engine::turn_from(e, raw, cost, decoded);
        let before = StateView { turns: e.debate.turns.push(turn), ..e.debate };
        assert(before =~= (StateView { stop_reason: None, ..after }));
    }
}

/// How a debate in the credence format ends after a turn: in agreement, and then
/// only after enough complete rounds and with the confidences summing to nearly
/// one hundred; in a concession, by the side that has just spoken; or at the
/// round cap, with neither of the two.
pub proof fn law_a_credence_debate_ends_for_a_reason(e: EngineView, event: EventView)
    requires
        sound(e),
        e.rules == engine::rules_of(&CredenceFormat),
        event is Read,
        engine::expected(e.phase, event),
        engine::advanced(e, event).0.phase == PhaseView::Over,
    ensures
        ({
            let after = engine::advanced(e, event).0.debate;
            let a = state::latest_of(after.turns, Side::A);
            let b = state::latest_of(after.turns, Side::B);
            match after.stop_reason {
                Some(StopView::Converged { gap }) => {
                    &&& a is Some && b is Some
                    &&& gap == state::distance_between(a->0 + b->0, 100)
                    &&& gap <= credence::CONVERGENCE_THRESHOLD
                    &&& after.turns.len() >= 2 * credence::MIN_ROUNDS_BEFORE_CONVERGENCE
                    &&& after.turns.len() % 2 == 0
                },
                Some(StopView::Conceded { side }) => {
                    &&& side == engine::side_of(e)
                    &&& after.turns.last().side == side
                    &&& after.turns.last().analysis.credence == Some(0int)
                },
                Some(StopView::RoundCap) => {
                    &&& after.turns.len() / 2 >= e.config.max_rounds
                    &&& after.turns.len() % 2 == 0
                    &&& credence::credence_verdict(after.turns) is None
                },
                _ => false,
            }
        }),
{
    law_debates_stop_on_complete_rounds(e, event);
    law_every_step_keeps_a_debate_sound(e, event);
}

/// In the credence format, a side that states no confidence at all in its own
/// position ends the debate with that turn: whichever side it is, whatever the
/// other side said, and however early it comes.
pub proof fn law_a_concession_ends_the_debate_at_once(e: EngineView, event: EventView)
    requires
        e.rules == engine::rules_of(&CredenceFormat),
        engine::expected(e.phase, event),
        event matches EventView::Read { cost, decoded } && engine::turn_from(
            e,
            e.phase->raw,
            cost,
            decoded,
        ).analysis.credence == Some(0int),
    ensures
        ({
            let (after, step) = engine::advanced(e, event);
            &&& after.phase == PhaseView::Over
            &&& step.action == ActionView::Done
            &&& after.debate.stop_reason == Some(StopView::Conceded { side: engine::side_of(e) })
        }),
{
    if let EventView::Read { cost, decoded } = event {
        let turn = engine::turn_from(e, e.phase->raw, cost, decoded);
        let turns = e.debate.turns.push(turn);
        assert(turns.last() == turn);
        assert(credence::just_conceded(turns));
    }
}

/// What is reported: a turn's completion exactly when it is recorded, the start
/// of the next turn exactly when its side is prompted for the first time, and
/// the end exactly when the debate is over.
pub proof fn law_everything_is_reported(e: EngineView, event: EventView)
    requires
        engine::expected(e.phase, event),
    ensures
        ({
            let (after, step) = engine::advanced(e, event);
            let completed = if event is Read {
                seq![ProgressView::TurnCompleted(after.debate.turns.last())]
            } else {
                Seq::empty()
            };
            let next = if after.phase == PhaseView::Over {
                seq![ProgressView::Finished { reason: after.debate.stop_reason->0 }]
            } else if event is Read || event is Begin {
                seq![
                    ProgressView::TurnStarted {
                        side: engine::side_of(after),
                        round: state::round_at(after.debate.turns.len() as int),
                    },
                ]
            } else {
                Seq::empty()
            };
            &&& step.progress == completed + next
            &&& step.action == ActionView::Done <==> after.phase == PhaseView::Over
        }),
{
    let (after, step) = engine::advanced(e, event);
    let completed = if event is Read {
        seq![ProgressView::TurnCompleted(after.debate.turns.last())]
    } else {
        Seq::empty()
    };
    let next = if after.phase == PhaseView::Over {
        seq![ProgressView::Finished { reason: after.debate.stop_reason->0 }]
    } else if event is Read || event is Begin {
        seq![
            ProgressView::TurnStarted {
                side: engine::side_of(after),
                round: state::round_at(after.debate.turns.len() as int),
            },
        ]
    } else {
        Seq::empty()
    };
    assert(step.progress =~= completed + next);
}

/// A debate that is over waits for nothing.
pub proof fn law_a_finished_debate_stays_finished(e: EngineView, event: EventView)
    requires
        e.phase == PhaseView::Over,
    ensures
        !engine::expected(e.phase, event),
{
}

/// A bound on how many more events a debate can take.
pub open spec fn events_left(e: EngineView) -> int {
    let attempts = engine::attempts_of(e.config);
    let turns = 2 * round_limit(e.config) - e.debate.turns.len();
    let per_turn = 2 * attempts + 2;
    match e.phase {
        PhaseView::Ready => turns * per_turn + 1,
        PhaseView::Asking { attempt, .. } => (turns - 1) * per_turn + 2 * (attempts - attempt) + 2,
        PhaseView::Resting { attempt, .. } => (turns - 1) * per_turn + 2 * (attempts - attempt) + 3,
        PhaseView::Reading { .. } => (turns - 1) * per_turn + 1,
        PhaseView::Over => 0,
    }
}

/// Every debate ends: each event it takes brings the end nearer.
pub proof fn law_every_debate_ends(e: EngineView, event: EventView)
    requires
        sound(e),
        engine::expected(e.phase, event),
    ensures
        0 <= events_left(engine::advanced(e, event).0) < events_left(e),
{
    let attempts = engine::attempts_of(e.config);
    let turns = 2 * round_limit(e.config) - e.debate.turns.len();
    let per_turn = 2 * attempts + 2;
    assert((turns - 1) * per_turn >= 0) by (nonlinear_arith)
        requires
            turns >= 1,
            per_turn >= 0,
    ;
    assert((turns - 1) * per_turn == turns * per_turn - per_turn) by (nonlinear_arith);
    if turns >= 2 {
        assert((turns - 2) * per_turn >= 0) by (nonlinear_arith)
            requires
                turns >= 2,
                per_turn >= 0,
        ;
        assert((turns - 2) * per_turn == (turns - 1) * per_turn - per_turn) by (nonlinear_arith);
    }
    law_every_step_keeps_a_debate_sound(e, event);
    if let (PhaseView::Reading { raw }, EventView::Read { cost, decoded }) = (e.phase, event) {
        let after = engine::advanced(e, event).0;
        assert(after.debate.turns.len() == e.debate.turns.len() + 1);
        assert(2 * round_limit(after.config) - after.debate.turns.len() == turns - 1);
    }
}


/// When a turn that was read ends the debate, and with what. A concession does
/// at once. On a complete round any other verdict of the format does, and where
/// the format gives none, having played as many rounds as the cap allows. In
/// every other case the debate goes on, and the next side is asked for the first
/// time.
pub proof fn law_a_debate_ends_exactly_when_it_should(e: EngineView, event: EventView)
    requires
        e.phase is Reading,
        event is Read,
        e.debate.stop_reason is None,
    ensures
        ({
            let (after, step) = engine::advanced(e, event);
            let n = after.debate.turns.len();
            let verdict = (e.rules.verdict)(StateView { stop_reason: None, ..after.debate });
            let over = verdict matches Some(StopView::Conceded { .. }) || (n % 2 == 0 && (
            verdict is Some || n / 2 >= e.config.max_rounds));
            &&& n == e.debate.turns.len() + 1
            &&& over ==> after.phase == PhaseView::Over && step.action == ActionView::Done
            &&& over && verdict is Some ==> after.debate.stop_reason == verdict
            &&& over && verdict is None ==> after.debate.stop_reason == Some(StopView::RoundCap)
            &&& !over ==> after.debate.stop_reason is None && after.phase == PhaseView::Asking {
                attempt: 1,
                delay: e.config.backoff,
            }
        }),
{
    if let (PhaseView::Reading { raw }, EventView::Read { cost, decoded }) = (e.phase, event) {
        let turn = engine::turn_from(e, raw, cost, decoded);
        let before = StateView { turns: e.debate.turns.push(turn), ..e.debate };
        let after = engine::advanced(e, event).0.debate;
        assert(before =~= (StateView { stop_reason: None, ..after }));
    }
}

/// Agreement that comes with a complete round ends the debate there and then,
/// whatever else the turns held.
pub proof fn law_a_verdict_ends_a_complete_round(e: EngineView, event: EventView)
    requires
        sound(e),
        e.phase is Reading,
        event is Read,
        engine::advanced(e, event).0.debate.turns.len() % 2 == 0,
        (e.rules.verdict)(
            StateView { stop_reason: None, ..engine::advanced(e, event).0.debate },
        ) is Some,
    ensures
        engine::advanced(e, event).0.phase == PhaseView::Over,
        engine::advanced(e, event).0.debate.stop_reason == (e.rules.verdict)(
            StateView { stop_reason: None, ..engine::advanced(e, event).0.debate },
        ),
{
    law_a_debate_ends_exactly_when_it_should(e, event);
}

/// What is recorded of an answer: its prose and its structure as the format
/// reads them, everything that was collected of it, and what it cost, at the
/// end of the record, for the side whose place it is.
pub proof fn law_a_recorded_turn_holds_the_answer(e: EngineView, event: EventView)
    requires
        e.phase is Reading,
        collect::raw_fits(e.phase->raw),
        e.phase->raw.input >= 0,
        e.phase->raw.output >= 0,
        e.phase->raw.reasoning >= 0,
        event is Read,
    ensures
        ({
            let raw = e.phase->raw;
            let n = e.debate.turns.len() as int;
            let turns = engine::advanced(e, event).0.debate.turns;
            let turn = turns[n];
            &&& turns.len() == n + 1
            &&& turns.take(n) == e.debate.turns
            &&& turn.index == n
            &&& turn.round == n / 2 + 1
            &&& turn.side == if n % 2 == 0 {
                Side::A
            } else {
                Side::B
            }
            &&& turn.text == (e.rules.prose)(raw.text)
            &&& turn.analysis == (e.rules.structure)(raw.text, event->decoded)
            &&& turn.tool_calls == raw.tool_calls
            &&& turn.tokens.input == raw.input
            &&& turn.tokens.output == raw.output
            &&& turn.tokens.reasoning == raw.reasoning
            &&& turn.cost == event->cost
        }),
{
    let turns = engine::advanced(e, event).0.debate.turns;
    assert(turns.take(e.debate.turns.len() as int) =~= e.debate.turns);
}

/// Who is asked, and how: whenever a side is waited for, it is the one whose
/// place comes next, asked in its own session, as its own agent, with its own
/// model, and with the format's question for the debate as it stands.
pub proof fn law_the_next_side_is_asked(e: EngineView, event: EventView)
    requires
        engine::expected(e.phase, event),
        engine::advanced(e, event).0.phase is Asking,
    ensures
        ({
            let (after, step) = engine::advanced(e, event);
            let opens = after.debate.turns.len() % 2 == 0;
            let side = if opens {
                Side::A
            } else {
                Side::B
            };
            &&& step.action is Prompt
            &&& step.action->Prompt_session == if opens {
                e.session_a
            } else {
                e.session_b
            }
            &&& step.action->Prompt_text == (e.rules.question)(after.debate, side)
            &&& step.action->options.agent == Some(
                if opens {
                    "debater-a"@
                } else {
                    "debater-b"@
                },
            )
            &&& step.action->options.model == if opens {
                e.config.model_a
            } else {
                e.config.model_b
            }
        }),
{
    lemma_agent_names();
}

proof fn lemma_agent_names()
    ensures
        engine::agent_of(Side::A) == "debater-a"@,
        engine::agent_of(Side::B) == "debater-b"@,
{
    reveal_strlit("debater-");
    reveal_strlit("a");
    reveal_strlit("b");
    reveal_strlit("debater-a");
    reveal_strlit("debater-b");
    assert(engine::agent_of(Side::A) =~= "debater-a"@);
    assert(engine::agent_of(Side::B) =~= "debater-b"@);
}

/// What an attempt that came to nothing leads to. While asking again could help
/// and an attempt is left, the debate waits as long as it had planned to, plans
/// to wait twice as long after the next failure, and keeps its record as it is.
/// Otherwise it ends, naming the side whose place it was, with the words that
/// were reported, and with how many attempts were made where that is why it
/// stopped.
pub proof fn law_an_attempt_that_failed(
    e: EngineView,
    event: EventView,
    words: Seq<char>,
    again: bool,
)
    requires
        e.phase is Asking,
        e.phase->Asking_attempt >= 1,
        match event {
            EventView::Answered(raw) => collect::fault_in(raw) == Some(
                if again {
                    FaultView::Transient(words)
                } else {
                    FaultView::Permanent(words)
                },
            ),
            EventView::Failed(failure) => error::worth_retrying(failure) == again
                && error::error_text(failure) == words,
            _ => false,
        },
    ensures
        ({
            let attempt = e.phase->Asking_attempt;
            let delay = e.phase->Asking_delay;
            let opens = e.debate.turns.len() % 2 == 0;
            let side = if opens {
                Side::A
            } else {
                Side::B
            };
            let session = if opens {
                e.session_a
            } else {
                e.session_b
            };
            let attempts = if e.config.attempts < 1 {
                1
            } else {
                e.config.attempts
            };
            let blamed = "session "@ + session + " reported an error: "@;
            let (after, step) = engine::advanced(e, event);
            &&& after.debate.turns == e.debate.turns
            &&& again && attempt < e.config.attempts ==> {
                &&& after.debate == e.debate
                &&& after.phase is Resting
                &&& after.phase->Resting_attempt == attempt + 1
                &&& after.phase->Resting_delay == if 2 * delay <= config::longest_delay() {
                    2 * delay
                } else {
                    config::longest_delay()
                }
                &&& step.action == (ActionView::Wait {
                    side,
                    attempt,
                    attempts: e.config.attempts,
                    delay,
                    reason: words,
                })
                &&& step.progress.len() == 0
            }
            &&& !(again && attempt < e.config.attempts) ==> {
                &&& after.phase == PhaseView::Over
                &&& step.action == ActionView::Done
                &&& after.debate.stop_reason is Some
                &&& after.debate.stop_reason->0 is Failed
                &&& after.debate.stop_reason->0->Failed_side == side
                &&& after.debate.stop_reason->0->Failed_message == if again {
                    blamed + (words + " (after "@ + text::decimal(attempts as nat) + " attempts)"@)
                } else if event is Answered {
                    blamed + words
                } else {
                    words
                }
                &&& step.progress == seq![
                    ProgressView::Finished { reason: after.debate.stop_reason->0 },
                ]
            }
        }),
{
    reveal_with_fuel(config::nth_delay, 2);
    let (after, step) = engine::advanced(e, event);
    if after.phase == PhaseView::Over {
        assert(step.progress =~= seq![
            ProgressView::Finished { reason: after.debate.stop_reason->0 },
        ]);
    }
}

/// What the first event, a wait that is over, and an answer with visible text
/// lead to: asking a side for the first time with the configured backoff, asking
/// it again as planned, and having the answer's block read and its costs added
/// up. None of them touches the record.
pub proof fn law_a_debate_moves_on(e: EngineView, event: EventView)
    requires
        engine::expected(e.phase, event),
    ensures
        ({
            let (after, step) = engine::advanced(e, event);
            &&& event is Begin ==> after.debate == e.debate && after.phase == (PhaseView::Asking {
                attempt: 1,
                delay: e.config.backoff,
            })
            &&& event is Rested ==> after.debate == e.debate && after.phase == (PhaseView::Asking {
                attempt: e.phase->Resting_attempt,
                delay: e.phase->Resting_delay,
            })
            &&& event is Answered && !text::is_blank(event->Answered_0.text) ==> {
                let raw = event->Answered_0;
                &&& after.debate == e.debate
                &&& after.phase == (PhaseView::Reading { raw })
                &&& step.progress.len() == 0
                &&& step.action is Read
                &&& step.action->costs == raw.costs
                &&& step.action->block is Some <==> parse::last_body(raw.text) is Some
                &&& step.action->block is Some ==> step.action->block->0 == text::trimmed(
                    parse::last_body(raw.text)->0,
                )
            }
        }),
{
}

/// What a debate waits for in each of its phases, and that it waits for nothing
/// else.
pub proof fn law_what_a_debate_waits_for(phase: PhaseView, event: EventView)
    ensures
        phase is Ready ==> (engine::expected(phase, event) <==> event is Begin),
        phase is Asking ==> (engine::expected(phase, event) <==> event is Answered
            || event is Failed),
        phase is Resting ==> (engine::expected(phase, event) <==> event is Rested),
        phase is Reading ==> (engine::expected(phase, event) <==> event is Read),
        phase is Over ==> !engine::expected(phase, event),
{
}

/// What is reported, in terms of the turns alone: a recorded turn as completed,
/// and after it either the ending or the start of the next turn, for the side
/// and the round that its place settles.
pub proof fn law_reports_name_the_right_turn(e: EngineView, event: EventView)
    requires
        engine::expected(e.phase, event),
    ensures
        ({
            let (after, step) = engine::advanced(e, event);
            let n = after.debate.turns.len() as int;
            let start = ProgressView::TurnStarted {
                side: if n % 2 == 0 {
                    Side::A
                } else {
                    Side::B
                },
                round: n / 2 + 1,
            };
            &&& event is Begin ==> step.progress == seq![start]
            &&& event is Rested ==> step.progress.len() == 0
            &&& event is Read ==> step.progress.len() == 2 && step.progress[0]
                == ProgressView::TurnCompleted(after.debate.turns[n - 1]) && step.progress[1] == if
            after.phase == PhaseView::Over {
                ProgressView::Finished { reason: after.debate.stop_reason->0 }
            } else {
                start
            }
        }),
{
    law_everything_is_reported(e, event);
    let (after, step) = engine::advanced(e, event);
    let n = after.debate.turns.len() as int;
    if event is Begin {
        assert(step.progress =~= seq![step.progress[0]]);
    }
}

/// A debate runs by the rules of its format and no others.
pub proof fn law_a_debate_runs_by_its_format<F: DebateFormat + ?Sized>(
    f: &F,
    debate: StateView,
    side: Side,
    raw: Seq<char>,
    decoded: Result<StructuredBlock, String>,
)
    ensures
        (engine::rules_of(f).question)(debate, side) == f.question(debate, side),
        (engine::rules_of(f).prose)(raw) == f.prose(raw),
        (engine::rules_of(f).structure)(raw, decoded) == f.structure(raw, decoded),
        (engine::rules_of(f).verdict)(debate) == f.verdict(debate),
{
}


/// What is agreed at the start is seen as it is.
pub proof fn law_a_configuration_is_seen_as_it_is(config: DebateConfig)
    ensures
        config@.topic == config.topic@,
        config@.max_rounds == config.max_rounds,
        config@.model_a is Some <==> config.model_a is Some,
        config.model_a matches Some(m) ==> config@.model_a == Some(m@),
        config@.model_b is Some <==> config.model_b is Some,
        config.model_b matches Some(m) ==> config@.model_b == Some(m@),
        config@.attempts == config.retry.attempts,
        config@.backoff == config.retry.backoff@,
        engine::model_of(config@, Side::A) == config@.model_a,
        engine::model_of(config@, Side::B) == config@.model_b,
{
}

/// An event is seen as what came of the last action.
pub proof fn law_an_event_is_seen_as_it_is(event: Event)
    ensures
        match event {
            Event::Begin => event@ is Begin,
            Event::Answered(messages) => event@ == EventView::Answered(
                collect::collected(messages@),
            ),
            Event::Failed(failure) => event@ == EventView::Failed(failure@),
            Event::Rested => event@ is Rested,
            Event::Read { cost, decoded } => event@ is Read && event@->cost == cost
                && event@->decoded == decoded,
        },
{
}

/// A step is seen as what it reports and what it asks for.
pub proof fn law_a_step_is_seen_as_it_is(step: Step, i: int)
    ensures
        step@.progress.len() == step.progress@.len(),
        0 <= i < step.progress@.len() ==> match step.progress@[i] {
            Progress::TurnStarted { side, round } => step@.progress[i] is TurnStarted
                && step@.progress[i]->TurnStarted_side == side && step@.progress[i]->round == round,
            Progress::TurnCompleted(turn) => step@.progress[i] == ProgressView::TurnCompleted(turn@),
            Progress::Finished { reason } => step@.progress[i] is Finished
                && step@.progress[i]->reason == reason@,
        },
        match step.action {
            Action::Prompt { session, text, options } => step@.action is Prompt
                && step@.action->Prompt_session == session@ && step@.action->Prompt_text == text@
                && step@.action->options == options@,
            Action::Wait { side, attempt, attempts, delay, reason } => step@.action is Wait
                && step@.action->Wait_side == side && step@.action->attempt == attempt
                && step@.action->attempts == attempts && step@.action->delay == delay@
                && step@.action->Wait_reason == reason@,
            Action::Read { block, costs } => step@.action is Read && step@.action->costs == costs@
                && step@.action->block == text::opt_text(block),
            Action::Done => step@.action is Done,
        },
{
}

} // verus!
