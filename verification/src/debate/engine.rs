//! Orchestration of a debate across two opencode sessions.
//!
//! The engine owns the decisions of the loop: prompt a side, reconstruct the
//! turn, read it, record it, decide whether to continue. It performs none of
//! the work in between. [`Engine::advance`] takes what came of the last
//! [`Action`] and says what to do next, so a debate can be driven by anything
//! that can carry the actions out.

use vstd::prelude::*;

use crate::config::{self, Delay, RetryPolicy};
use crate::debate::collect::{self, collect_turn, fault_of, FaultView, RawTurn, RawView, TurnFault};
use crate::debate::format::DebateFormat;
use crate::debate::parse::{self, StructuredBlock};
use crate::debate::state::{
    self, AnalysisView, DebateState, Side, StateView, StopReason, StopView, Topic, TopicView, Turn,
    TurnView,
};
use crate::error::{self, CoinError, ErrorView};
use crate::opencode::client::{OptionsView, PromptOptions};
use crate::opencode::types::{self, AssistantMessage, Cost, ModelRef, ModelView, Tokens};
use crate::text;

verus! {

/// Everything needed to run one debate.
#[derive(Debug, Clone)]
pub struct DebateConfig {
    /// The proposition and both positions.
    pub topic: Topic,
    /// Hard cap on rounds, regardless of the format's own stop condition.
    pub max_rounds: usize,
    /// Model for side A. Falls back to the server default when unset.
    pub model_a: Option<ModelRef>,
    /// Model for side B.
    pub model_b: Option<ModelRef>,
    /// How a turn that comes back empty is retried.
    pub retry: RetryPolicy,
}

/// What a [`DebateConfig`] says.
#[verifier::ext_equal]
pub struct ConfigView {
    pub topic: TopicView,
    pub max_rounds: int,
    pub model_a: Option<ModelView>,
    pub model_b: Option<ModelView>,
    pub attempts: int,
    pub backoff: int,
}

impl View for DebateConfig {
    type V = ConfigView;

    open spec fn view(&self) -> ConfigView {
        ConfigView {
            topic: self.topic@,
            max_rounds: self.max_rounds as int,
            model_a: types::opt_model(self.model_a),
            model_b: types::opt_model(self.model_b),
            attempts: self.retry.attempts as int,
            backoff: self.retry.backoff@,
        }
    }
}

/// The model assigned to a side.
pub open spec fn model_of(config: ConfigView, side: Side) -> Option<ModelView> {
    match side {
        Side::A => config.model_a,
        Side::B => config.model_b,
    }
}

/// How many attempts a turn gets. Fewer than one is treated as one.
pub open spec fn attempts_of(config: ConfigView) -> int {
    if config.attempts < 1 {
        1
    } else {
        config.attempts
    }
}

impl DebateConfig {
    /// The model assigned to a side.
    pub fn model(&self, side: Side) -> (r: Option<ModelRef>)
        ensures
            types::opt_model(r) == model_of(self@, side),
    {
        let model = match side {
            Side::A => &self.model_a,
            Side::B => &self.model_b,
        };
        match model {
            Some(m) => Some(m.duplicate()),
            None => None,
        }
    }
}

/// The name of a side's agent.
pub open spec fn agent_of(side: Side) -> Seq<char> {
    "debater-"@ + state::side_label(side)
}

/// Agent name for a side, matching the file written into the workspace.
pub fn agent_name(side: Side) -> (r: String)
    ensures
        r@ == agent_of(side),
{
    let mut s = "debater-".to_owned();
    s.append(side.label());
    s
}

/// Events emitted as a debate runs, for a caller to render.
#[derive(Debug, Clone)]
pub enum Progress {
    /// A side is about to speak.
    TurnStarted {
        /// Which side.
        side: Side,
        /// Round number, counting from one.
        round: usize,
    },
    /// A side finished speaking.
    ///
    /// Carries the completed turn so a caller can render its analysis without
    /// waiting for the debate to finish.
    TurnCompleted(Box<Turn>),
    /// The debate ended.
    Finished {
        /// Why it ended.
        reason: StopReason,
    },
}

/// What a [`Progress`] says.
#[verifier::ext_equal]
pub enum ProgressView {
    TurnStarted { side: Side, round: int },
    TurnCompleted(TurnView),
    Finished { reason: StopView },
}

impl View for Progress {
    type V = ProgressView;

    open spec fn view(&self) -> ProgressView {
        match *self {
            Progress::TurnStarted { side, round } => ProgressView::TurnStarted {
                side,
                round: round as int,
            },
            Progress::TurnCompleted(turn) => ProgressView::TurnCompleted(turn@),
            Progress::Finished { reason } => ProgressView::Finished { reason: reason@ },
        }
    }
}

/// What a list of progress events says.
pub open spec fn progress_views(progress: Seq<Progress>) -> Seq<ProgressView> {
    progress.map_values(|p: Progress| p@)
}

/// What has to be done before the debate can go on.
#[derive(Debug, Clone)]
pub enum Action {
    /// Prompt a session, wait for the answer, and read all of the session's
    /// messages back. The prompt response itself is not enough: it carries only
    /// the final message of a turn.
    Prompt {
        /// Session to prompt.
        session: String,
        /// Message to send.
        text: String,
        /// Agent and model to answer with.
        options: PromptOptions,
    },
    /// Wait before asking again, and say why. A wait without a reason on record
    /// cannot be told from a slow model.
    Wait {
        /// Side whose attempt at a turn came to nothing.
        side: Side,
        /// Which attempt that was, counting from one.
        attempt: usize,
        /// How many attempts a turn gets.
        attempts: usize,
        /// How long to wait.
        delay: Delay,
        /// Why the attempt came to nothing, in the provider's own words where
        /// there are any.
        reason: String,
    },
    /// Read the structured block of a turn that was answered, and add up what
    /// the turn cost.
    Read {
        /// Text to read as JSON; nothing where the reply has no block.
        block: Option<String>,
        /// What each message of the turn cost, in order.
        costs: Vec<Cost>,
    },
    /// Nothing: the debate is over.
    Done,
}

/// What an [`Action`] says.
#[verifier::ext_equal]
pub enum ActionView {
    Prompt { session: Seq<char>, text: Seq<char>, options: OptionsView },
    Wait { side: Side, attempt: int, attempts: int, delay: int, reason: Seq<char> },
    Read { block: Option<Seq<char>>, costs: Seq<Cost> },
    Done,
}

impl View for Action {
    type V = ActionView;

    open spec fn view(&self) -> ActionView {
        match *self {
            Action::Prompt { session, text, options } => ActionView::Prompt {
                session: session@,
                text: text@,
                options: options@,
            },
            Action::Wait { side, attempt, attempts, delay, reason } => ActionView::Wait {
                side,
                attempt: attempt as int,
                attempts: attempts as int,
                delay: delay@,
                reason: reason@,
            },
            Action::Read { block, costs } => ActionView::Read {
                block: text::opt_text(block),
                costs: costs@,
            },
            Action::Done => ActionView::Done,
        }
    }
}

/// What came of the last action.
#[derive(Debug)]
pub enum Event {
    /// The debate may begin.
    Begin,
    /// The session answered; these are all of its messages.
    Answered(Vec<AssistantMessage>),
    /// Prompting the session, or reading it back, failed.
    Failed(CoinError),
    /// The wait is over.
    Rested,
    /// The turn was read.
    Read {
        /// What it cost in all.
        cost: Cost,
        /// The fields of its block, or why they could not be read.
        decoded: Result<StructuredBlock, String>,
    },
}

/// What an [`Event`] says.
#[verifier::ext_equal]
pub enum EventView {
    Begin,
    Answered(RawView),
    Failed(ErrorView),
    Rested,
    Read { cost: Cost, decoded: Result<StructuredBlock, String> },
}

impl View for Event {
    type V = EventView;

    open spec fn view(&self) -> EventView {
        match *self {
            Event::Begin => EventView::Begin,
            Event::Answered(messages) => EventView::Answered(collect::collected(messages@)),
            Event::Failed(e) => EventView::Failed(e@),
            Event::Rested => EventView::Rested,
            Event::Read { cost, decoded } => EventView::Read { cost, decoded },
        }
    }
}

/// What to report and what to do next.
#[derive(Debug, Clone)]
pub struct Step {
    /// What happened, in order.
    pub progress: Vec<Progress>,
    /// What has to be done before the debate can go on.
    pub action: Action,
}

/// What a [`Step`] says.
#[verifier::ext_equal]
pub struct StepView {
    pub progress: Seq<ProgressView>,
    pub action: ActionView,
}

impl View for Step {
    type V = StepView;

    open spec fn view(&self) -> StepView {
        StepView { progress: progress_views(self.progress@), action: self.action@ }
    }
}

/// Where a debate stands between two actions.
#[derive(Debug, Clone)]
enum Phase {
    /// Nobody has been asked anything yet.
    Ready,
    /// A side has been prompted.
    Asking {
        /// Which attempt at the turn this is, counting from one.
        attempt: usize,
        /// How long to wait if it fails.
        delay: Delay,
    },
    /// A side is about to be prompted again.
    Resting {
        /// Which attempt at the turn comes next.
        attempt: usize,
        /// How long to wait if that one fails too.
        delay: Delay,
    },
    /// A side has answered, and the answer is being read.
    Reading {
        /// The answer.
        raw: RawTurn,
    },
    /// The debate has ended.
    Over,
}

/// Where a debate stands between two actions.
#[verifier::ext_equal]
pub enum PhaseView {
    Ready,
    Asking { attempt: int, delay: int },
    Resting { attempt: int, delay: int },
    Reading { raw: RawView },
    Over,
}

impl View for Phase {
    type V = PhaseView;

    closed spec fn view(&self) -> PhaseView {
        match *self {
            Phase::Ready => PhaseView::Ready,
            Phase::Asking { attempt, delay } => PhaseView::Asking {
                attempt: attempt as int,
                delay: delay@,
            },
            Phase::Resting { attempt, delay } => PhaseView::Resting {
                attempt: attempt as int,
                delay: delay@,
            },
            Phase::Reading { raw } => PhaseView::Reading { raw: raw@ },
            Phase::Over => PhaseView::Over,
        }
    }
}

/// What a format asks, reads, and decides.
#[verifier::ext_equal]
pub struct Rules {
    pub question: spec_fn(StateView, Side) -> Seq<char>,
    pub prose: spec_fn(Seq<char>) -> Seq<char>,
    pub structure: spec_fn(Seq<char>, Result<StructuredBlock, String>) -> AnalysisView,
    pub verdict: spec_fn(StateView) -> Option<StopView>,
}

/// The rules of a format.
pub open spec fn rules_of<F: DebateFormat + ?Sized>(f: &F) -> Rules {
    Rules {
        question: |debate: StateView, side: Side| f.question(debate, side),
        prose: |raw: Seq<char>| f.prose(raw),
        structure: |raw: Seq<char>, decoded: Result<StructuredBlock, String>|
            f.structure(raw, decoded),
        verdict: |debate: StateView| f.verdict(debate),
    }
}

/// A debate in progress: what was agreed at the start, what has happened, and
/// what it is waiting for.
#[verifier::ext_equal]
pub struct EngineView {
    pub rules: Rules,
    pub config: ConfigView,
    pub session_a: Seq<char>,
    pub session_b: Seq<char>,
    pub debate: StateView,
    pub phase: PhaseView,
}

/// The session of a side.
pub open spec fn session_of(e: EngineView, side: Side) -> Seq<char> {
    match side {
        Side::A => e.session_a,
        Side::B => e.session_b,
    }
}

/// The side whose turn it is.
pub open spec fn side_of(e: EngineView) -> Side {
    state::speaker(e.debate.turns.len() as int)
}

/// The prompt that asks the side whose turn it is to speak.
pub open spec fn prompt_of(e: EngineView) -> ActionView {
    ActionView::Prompt {
        session: session_of(e, side_of(e)),
        text: (e.rules.question)(e.debate, side_of(e)),
        options: OptionsView {
            agent: Some(agent_of(side_of(e))),
            model: model_of(e.config, side_of(e)),
        },
    }
}

/// Start the next turn: announce the side, and prompt it for the first time.
pub open spec fn begun(e: EngineView, before: Seq<ProgressView>) -> (EngineView, StepView) {
    (
        EngineView { phase: PhaseView::Asking { attempt: 1, delay: e.config.backoff }, ..e },
        StepView {
            progress: before.push(
                ProgressView::TurnStarted {
                    side: side_of(e),
                    round: state::round_at(e.debate.turns.len() as int),
                },
            ),
            action: prompt_of(e),
        },
    )
}

/// End the debate, keeping every turn taken so far.
pub open spec fn ended(e: EngineView, reason: StopView, before: Seq<ProgressView>) -> (
    EngineView,
    StepView,
) {
    (
        EngineView {
            debate: StateView { stop_reason: Some(reason), ..e.debate },
            phase: PhaseView::Over,
            ..e
        },
        StepView {
            progress: before.push(ProgressView::Finished { reason }),
            action: ActionView::Done,
        },
    )
}

/// End the debate because the side whose turn it is cannot answer.
pub open spec fn gave_up(e: EngineView, failure: ErrorView) -> (EngineView, StepView) {
    ended(
        e,
        StopView::Failed { side: side_of(e), message: error::error_text(failure) },
        Seq::empty(),
    )
}

/// A failure of the session whose side's turn it is.
pub open spec fn session_failure(e: EngineView, message: Seq<char>) -> ErrorView {
    ErrorView::Session { session_id: session_of(e, side_of(e)), message }
}

/// The reason reported once every attempt was used up.
pub open spec fn exhausted(reason: Seq<char>, attempts: int) -> Seq<char> {
    reason + " (after "@ + text::decimal(attempts as nat) + " attempts)"@
}

/// React to an attempt that produced nothing usable: ask again after a wait
/// where that could help and an attempt is left, and end the debate otherwise.
/// Either way the reason is kept.
pub open spec fn faulted(e: EngineView, attempt: int, delay: int, fault: FaultView) -> (
    EngineView,
    StepView,
) {
    match fault {
        FaultView::Permanent(reason) => gave_up(e, session_failure(e, reason)),
        FaultView::Transient(reason) => if attempt >= attempts_of(e.config) {
            gave_up(e, session_failure(e, exhausted(reason, attempts_of(e.config))))
        } else {
            (
                EngineView {
                    phase: PhaseView::Resting {
                        attempt: attempt + 1,
                        delay: config::nth_delay(delay, 1),
                    },
                    ..e
                },
                StepView {
                    progress: Seq::empty(),
                    action: ActionView::Wait {
                        side: side_of(e),
                        attempt,
                        attempts: attempts_of(e.config),
                        delay,
                        reason,
                    },
                },
            )
        },
    }
}

/// The turn that an answer amounts to.
pub open spec fn turn_from(
    e: EngineView,
    raw: RawView,
    cost: Cost,
    decoded: Result<StructuredBlock, String>,
) -> TurnView {
    TurnView {
        index: e.debate.turns.len() as int,
        round: state::round_at(e.debate.turns.len() as int),
        side: side_of(e),
        text: (e.rules.prose)(raw.text),
        analysis: (e.rules.structure)(raw.text, decoded),
        tool_calls: raw.tool_calls,
        tokens: Tokens {
            input: raw.input as u64,
            output: raw.output as u64,
            reasoning: raw.reasoning as u64,
        },
        cost,
    }
}

/// Why a debate ends after a turn. A concession settles the question, so it
/// ends the debate whichever side has just spoken. Every other stop condition
/// is only meaningful on a complete round, so that both sides have answered the
/// same exchange; the format's own condition comes before the round cap.
pub open spec fn reason_to_stop(e: EngineView) -> Option<StopView> {
    match (e.rules.verdict)(e.debate) {
        Some(StopView::Conceded { side }) => Some(StopView::Conceded { side }),
        verdict => if side_of(e) != Side::A {
            None
        } else if verdict is Some {
            verdict
        } else if e.debate.turns.len() / 2 >= e.config.max_rounds {
            Some(StopView::RoundCap)
        } else {
            None
        },
    }
}

/// Record a turn, then end the debate or start the next turn.
pub open spec fn recorded(e: EngineView, turn: TurnView) -> (EngineView, StepView) {
    let after = EngineView {
        debate: StateView { turns: e.debate.turns.push(turn), ..e.debate },
        ..e
    };
    let completed = seq![ProgressView::TurnCompleted(turn)];
    match reason_to_stop(after) {
        Some(reason) => ended(after, reason, completed),
        None => begun(after, completed),
    }
}

/// Whether an event is one that the debate is waiting for.
pub open spec fn expected(phase: PhaseView, event: EventView) -> bool {
    match (phase, event) {
        (PhaseView::Ready, EventView::Begin) => true,
        (PhaseView::Asking { .. }, EventView::Answered(_)) => true,
        (PhaseView::Asking { .. }, EventView::Failed(_)) => true,
        (PhaseView::Resting { .. }, EventView::Rested) => true,
        (PhaseView::Reading { .. }, EventView::Read { .. }) => true,
        _ => false,
    }
}

/// What an expected event leads to.
pub open spec fn advanced(e: EngineView, event: EventView) -> (EngineView, StepView) {
    match (e.phase, event) {
        (PhaseView::Ready, EventView::Begin) => begun(e, Seq::empty()),
        (PhaseView::Asking { attempt, delay }, EventView::Answered(raw)) => {
            match collect::fault_in(raw) {
                None => (
                    EngineView { phase: PhaseView::Reading { raw }, ..e },
                    StepView {
                        progress: Seq::empty(),
                        action: ActionView::Read {
                            block: match parse::last_body(raw.text) {
                                Some(body) => Some(text::trimmed(body)),
                                None => None,
                            },
                            costs: raw.costs,
                        },
                    },
                ),
                Some(fault) => faulted(e, attempt, delay, fault),
            }
        },
        (PhaseView::Asking { attempt, delay }, EventView::Failed(failure)) => {
            if error::worth_retrying(failure) {
                faulted(e, attempt, delay, FaultView::Transient(error::error_text(failure)))
            } else {
                gave_up(e, failure)
            }
        },
        (PhaseView::Resting { attempt, delay }, EventView::Rested) => (
            EngineView { phase: PhaseView::Asking { attempt, delay }, ..e },
            StepView { progress: Seq::empty(), action: prompt_of(e) },
        ),
        (PhaseView::Reading { raw }, EventView::Read { cost, decoded }) => recorded(
            e,
            turn_from(e, raw, cost, decoded),
        ),
        _ => (e, StepView { progress: Seq::empty(), action: ActionView::Done }),
    }
}

/// Drives a debate to completion.
pub struct Engine<F: DebateFormat + ?Sized> {
    format: Box<F>,
    config: DebateConfig,
    session_a: String,
    session_b: String,
    debate: DebateState,
    phase: Phase,
}

impl<F: DebateFormat + ?Sized> View for Engine<F> {
    type V = EngineView;

    closed spec fn view(&self) -> EngineView {
        EngineView {
            rules: rules_of(&*self.format),
            config: self.config@,
            session_a: self.session_a@,
            session_b: self.session_b@,
            debate: self.debate@,
            phase: self.phase@,
        }
    }
}

/// A list that holds one progress event.
fn only(progress: Progress) -> (r: Vec<Progress>)
    ensures
        progress_views(r@) == seq![progress@],
{
    let mut list: Vec<Progress> = Vec::new();
    list.push(progress);
    assert(progress_views(list@) =~= seq![progress@]);
    list
}

/// A list of progress events with one more at its end.
fn with_progress(before: Vec<Progress>, progress: Progress) -> (r: Vec<Progress>)
    ensures
        progress_views(r@) == progress_views(before@).push(progress@),
{
    let mut list = before;
    list.push(progress);
    assert(progress_views(list@) =~= progress_views(before@).push(progress@));
    list
}

/// A list that holds no progress events.
fn no_progress() -> (r: Vec<Progress>)
    ensures
        progress_views(r@) == Seq::<ProgressView>::empty(),
{
    let list: Vec<Progress> = Vec::new();
    assert(progress_views(list@) =~= Seq::<ProgressView>::empty());
    list
}

impl<F: DebateFormat + ?Sized> Engine<F> {
    /// Prepare a debate, given one session per side.
    ///
    /// The system prompts are delivered through agent definitions written into
    /// the workspace before the server started, so nothing needs to be seeded
    /// into the sessions.
    pub fn new(
        format: Box<F>,
        config: DebateConfig,
        session_a: &str,
        session_b: &str,
    ) -> (r: Engine<F>)
        ensures
            r@ == (EngineView {
                rules: rules_of(&*format),
                config: config@,
                session_a: session_a@,
                session_b: session_b@,
                debate: StateView {
                    topic: config@.topic,
                    max_rounds: config@.max_rounds,
                    turns: Seq::empty(),
                    stop_reason: None,
                },
                phase: PhaseView::Ready,
            }),
    {
        let debate = DebateState::new(config.topic.duplicate(), config.max_rounds);
        Engine {
            format,
            config,
            session_a: session_a.to_owned(),
            session_b: session_b.to_owned(),
            debate,
            phase: Phase::Ready,
        }
    }

    /// Session identifier for a side.
    ///
    /// Exposed so a caller can map event-stream traffic back to the side that
    /// produced it, which is how live token streaming is rendered without the
    /// engine itself depending on a concrete transport.
    pub fn session_id(&self, side: Side) -> (r: &str)
        ensures
            r@ == session_of(self@, side),
    {
        match side {
            Side::A => self.session_a.as_str(),
            Side::B => self.session_b.as_str(),
        }
    }

    /// The debate as it stands.
    pub fn debate(&self) -> (r: &DebateState)
        ensures
            r@ == self@.debate,
    {
        &self.debate
    }

    /// The debate as it stands, without the engine that ran it.
    pub fn into_debate(self) -> (r: DebateState)
        ensures
            r@ == self@.debate,
    {
        self.debate
    }

    /// Whether the debate has ended.
    pub fn is_over(&self) -> (r: bool)
        ensures
            r == (self@.phase == PhaseView::Over),
    {
        match self.phase {
            Phase::Over => true,
            _ => false,
        }
    }

    /// The prompt that asks the side whose turn it is to speak.
    fn prompt(&self) -> (r: Action)
        ensures
            r@ == prompt_of(self@),
    {
        let side = self.debate.next_side();
        let r = Action::Prompt {
            session: self.session_id(side).to_owned(),
            text: self.format.turn_prompt(&self.debate, side),
            options: PromptOptions {
                agent: Some(agent_name(side)),
                model: self.config.model(side),
            },
        };
        assert(r@ =~= prompt_of(self@));
        r
    }

    /// Build a session error naming the side whose turn it is.
    fn session_error(&self, message: String) -> (r: CoinError)
        ensures
            r@ == session_failure(self@, message@),
    {
        CoinError::Session {
            session_id: self.session_id(self.debate.next_side()).to_owned(),
            message,
        }
    }

    /// Start the next turn.
    fn begin(&mut self, before: Vec<Progress>) -> (r: Step)
        ensures
            (final(self)@, r@) == begun(old(self)@, progress_views(before@)),
    {
        let side = self.debate.next_side();
        let round: usize = self.debate.current_round();
        let action = self.prompt();
        self.phase = Phase::Asking { attempt: 1, delay: self.config.retry.backoff };
        Step { progress: with_progress(before, Progress::TurnStarted { side, round }), action }
    }

    /// End the debate.
    fn end(&mut self, reason: StopReason, before: Vec<Progress>) -> (r: Step)
        ensures
            (final(self)@, r@) == ended(old(self)@, reason@, progress_views(before@)),
    {
        self.debate.stop_reason = Some(reason.duplicate());
        self.phase = Phase::Over;
        let progress = with_progress(before, Progress::Finished { reason });
        Step { progress, action: Action::Done }
    }

    /// End the debate because the side whose turn it is cannot answer.
    ///
    /// The turns already taken cost real money and are still worth saving, so
    /// they stay, and the record says why it stops here.
    fn give_up(&mut self, failure: CoinError) -> (r: Step)
        ensures
            (final(self)@, r@) == gave_up(old(self)@, failure@),
    {
        let side = self.debate.next_side();
        self.end(StopReason::Failed { side, message: failure.to_string() }, no_progress())
    }

    /// React to an attempt that produced nothing usable.
    fn handle_fault(&mut self, attempt: usize, delay: Delay, fault: TurnFault) -> (r: Step)
        ensures
            (final(self)@, r@) == faulted(old(self)@, attempt as int, delay@, fault@),
    {
        let attempts: usize = if self.config.retry.attempts < 1 {
            1
        } else {
            self.config.retry.attempts
        };
        match fault {
            TurnFault::Permanent(reason) => {
                let failure = self.session_error(reason);
                self.give_up(failure)
            },
            TurnFault::Transient(reason) => {
                if attempt >= attempts {
                    let mut message = reason;
                    message.append(" (after ");
                    message.append(text::number(attempts as u64).as_str());
                    message.append(" attempts)");
                    let failure = self.session_error(message);
                    return self.give_up(failure);
                }
                let side = self.debate.next_side();
                let longer = delay.doubled();
                assert(longer@ == config::nth_delay(delay@, 1)) by {
                    reveal_with_fuel(config::nth_delay, 2);
                }
                self.phase = Phase::Resting { attempt: attempt + 1, delay: longer };
                Step {
                    progress: no_progress(),
                    action: Action::Wait { side, attempt, attempts, delay, reason },
                }
            },
        }
    }

    /// Record a turn that was read, then end the debate or start the next turn.
    fn record(&mut self, raw: RawTurn, cost: Cost, decoded: Result<StructuredBlock, String>) -> (r:
        Step)
        ensures
            (final(self)@, r@) == recorded(
                old(self)@,
                turn_from(old(self)@, raw@, cost, decoded),
            ),
    {
        let side = self.debate.next_side();
        let (prose, analysis) = self.format.parse_turn(raw.text.as_str(), decoded);
        let index: usize = self.debate.push_turn(
            side,
            prose,
            analysis,
            raw.tool_calls,
            raw.tokens,
            cost,
        );
        let turn = self.debate.turns[index].duplicate();
        assert(self.debate@.turns[index as int] == self.debate.turns@[index as int]@);
        let completed = only(Progress::TurnCompleted(Box::new(turn)));
        let round_complete = self.debate.next_side() == Side::A;
        match self.format.should_stop(&self.debate) {
            Some(StopReason::Conceded { side }) => {
                return self.end(StopReason::Conceded { side }, completed);
            },
            Some(reason) => {
                if round_complete {
                    return self.end(reason, completed);
                }
            },
            None => {
                if round_complete && self.debate.completed_rounds() >= self.config.max_rounds {
                    return self.end(StopReason::RoundCap, completed);
                }
            },
        }
        self.begin(completed)
    }

    /// Take the debate on by one event.
    ///
    /// Turns alternate starting with side A. The debate ends at once when a side
    /// concedes, and otherwise on the first complete round after which the
    /// format's stop condition holds or the round cap is reached; a side that
    /// cannot produce a turn ends it too, rather than discarding the turns
    /// already taken. An event the debate is not waiting for changes nothing.
    pub fn advance(&mut self, event: Event) -> (r: Option<Step>)
        requires
            event@ matches EventView::Answered(raw) ==> collect::raw_fits(raw),
        ensures
            match r {
                Some(step) => expected(old(self)@.phase, event@) && (final(self)@, step@)
                    == advanced(old(self)@, event@),
                None => !expected(old(self)@.phase, event@) && final(self)@ == old(self)@,
            },
    {
        let mut phase = Phase::Over;
        std::mem::swap(&mut phase, &mut self.phase);
        match (phase, event) {
            (Phase::Ready, Event::Begin) => Some(self.begin(no_progress())),
            (Phase::Asking { attempt, delay }, Event::Answered(messages)) => {
                let raw = collect_turn(&messages);
                match fault_of(&raw) {
                    Some(fault) => Some(self.handle_fault(attempt, delay, fault)),
                    None => {
                        let action = Action::Read {
                            block: parse::block_text(raw.text.as_str()),
                            costs: raw.costs.clone(),
                        };
                        self.phase = Phase::Reading { raw };
                        Some(Step { progress: no_progress(), action })
                    },
                }
            },
            (Phase::Asking { attempt, delay }, Event::Failed(failure)) => {
                if failure.is_retryable() {
                    let fault = TurnFault::Transient(failure.to_string());
                    Some(self.handle_fault(attempt, delay, fault))
                } else {
                    Some(self.give_up(failure))
                }
            },
            (Phase::Resting { attempt, delay }, Event::Rested) => {
                let action = self.prompt();
                self.phase = Phase::Asking { attempt, delay };
                Some(Step { progress: no_progress(), action })
            },
            (Phase::Reading { raw }, Event::Read { cost, decoded }) => Some(
                self.record(raw, cost, decoded),
            ),
            (phase, _event) => {
                self.phase = phase;
                None
            },
        }
    }
}

} // verus!
