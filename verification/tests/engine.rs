//! Debates driven from start to end by scripted replies.

use coin::config::{Delay, RetryPolicy};
use coin::debate::collect::{can_collect, collect_turn};
use coin::debate::credence::CredenceFormat;
use coin::debate::engine::{Action, DebateConfig, Engine, Event, Progress};
use coin::debate::parse::{RawClaim, StructuredBlock};
use coin::debate::state::{DebateState, Side, StopReason, Topic};
use coin::error::{CoinError, TransportFault};
use coin::opencode::types::{
    Argument, ArgumentValue, AssistantMessage, Cost, MessageError, MessageErrorData, MessageInfo,
    ModelRef, Part, Tokens, ToolState,
};

/// An optional text of a block.
fn text_field(value: &serde_json::Value, name: &str) -> Result<Option<String>, String> {
    match value.get(name) {
        None | Some(serde_json::Value::Null) => Ok(None),
        Some(serde_json::Value::String(text)) => Ok(Some(text.clone())),
        Some(other) => Err(format!("{name} is not a string: {other}")),
    }
}

/// A list of a block.
fn list_field(value: &serde_json::Value, name: &str) -> Result<Vec<serde_json::Value>, String> {
    match value.get(name) {
        None => Ok(Vec::new()),
        Some(serde_json::Value::Array(items)) => Ok(items.clone()),
        Some(other) => Err(format!("{name} is not a list: {other}")),
    }
}

/// Read the text of a block as JSON.
fn decode(text: &str) -> Result<StructuredBlock, String> {
    let value: serde_json::Value = serde_json::from_str(text).map_err(|e| e.to_string())?;
    if !value.is_object() {
        return Err(format!("not an object: {value}"));
    }
    let credence = match value.get("credence") {
        None | Some(serde_json::Value::Null) => None,
        Some(number) => Some(number.as_i64().ok_or("credence is not an integer".to_string())?),
    };
    let mut conceded = Vec::new();
    for item in list_field(&value, "conceded")? {
        conceded.push(item.as_str().ok_or("a point is not a string")?.to_string());
    }
    let mut claims = Vec::new();
    for item in list_field(&value, "claims")? {
        claims.push(RawClaim {
            text: text_field(&item, "text")?.unwrap_or_default(),
            kind: text_field(&item, "kind")?.unwrap_or_default(),
        });
    }
    Ok(StructuredBlock {
        credence,
        moved_because: text_field(&value, "moved_because")?,
        conceded,
        key_claim: text_field(&value, "key_claim")?,
        crux: text_field(&value, "crux")?,
        claims,
    })
}

/// An amount of money.
fn usd(amount: f64) -> Cost {
    Cost { bits: amount.to_bits() }
}

/// What a list of amounts adds up to.
fn total(costs: &[Cost]) -> f64 {
    costs.iter().fold(0.0, |sum, cost| sum + f64::from_bits(cost.bits))
}

/// One scripted turn.
#[derive(Debug, Clone)]
enum Reply {
    /// The model answered with this text.
    Text(&'static str),
    /// The turn came back with no text and no stated reason.
    Silent,
    /// The provider rejected the turn, as opencode records it: a successful
    /// response whose message carries no text and an error.
    Rejected {
        /// Status the provider returned.
        status: u16,
        /// Whether the provider marked it worth retrying.
        retryable: bool,
    },
    /// The request itself failed.
    Lost {
        /// Whether it timed out, which is worth retrying.
        timeout: bool,
    },
}

/// The messages of a session after a reply, shaped like a real turn: a user
/// message, then a tool-bearing assistant message, then the final assistant
/// message.
fn messages_after(reply: Reply) -> Result<Vec<AssistantMessage>, CoinError> {
    let (text, error) = match reply {
        Reply::Text(text) => (text.to_string(), None),
        Reply::Silent => (String::new(), None),
        Reply::Rejected { status, retryable } => (
            String::new(),
            Some(MessageError {
                name: "APIError".into(),
                data: MessageErrorData {
                    message: "provider said no".into(),
                    status_code: Some(status),
                    is_retryable: Some(retryable),
                },
            }),
        ),
        Reply::Lost { timeout } => {
            return Err(CoinError::Http(TransportFault {
                timeout,
                connect: false,
                request: false,
                message: "the line went dead".into(),
            }));
        }
    };
    Ok(vec![
        AssistantMessage {
            info: MessageInfo { role: "user".into(), ..MessageInfo::default() },
            parts: Vec::new(),
        },
        AssistantMessage {
            info: MessageInfo {
                role: "assistant".into(),
                cost: usd(0.001),
                tokens: Tokens { input: 100, output: 10, reasoning: 0 },
                ..MessageInfo::default()
            },
            parts: vec![Part::Tool {
                id: "prt_1".into(),
                tool: "websearch".into(),
                state: ToolState {
                    status: "completed".into(),
                    input: vec![Argument {
                        name: "query".into(),
                        value: ArgumentValue::Text("evidence".into()),
                    }],
                    output: None,
                    error: None,
                },
            }],
        },
        AssistantMessage {
            info: MessageInfo {
                role: "assistant".into(),
                cost: usd(0.002),
                tokens: Tokens { input: 50, output: 20, reasoning: 0 },
                error,
                ..MessageInfo::default()
            },
            parts: vec![Part::Text { id: "prt_2".into(), text }],
        },
    ])
}

/// A debate whose replies are scripted, so the engine can be exercised with no
/// network and no model spend.
struct Scripted {
    engine: Engine<CredenceFormat>,
    replies: Vec<Reply>,
    prompts: Vec<String>,
    agents: Vec<Option<String>>,
    models: Vec<Option<String>>,
    sessions: Vec<String>,
    waits: Vec<u64>,
    retries: Vec<(Side, usize, usize, String)>,
    progress: Vec<Progress>,
}

impl Scripted {
    /// Run the debate to its end.
    fn run(&mut self) -> DebateState {
        let mut event = Event::Begin;
        loop {
            let step = self.engine.advance(event).expect("the event must be expected");
            self.progress.extend(step.progress);
            event = match step.action {
                Action::Prompt { session, text, options } => {
                    self.sessions.push(session);
                    self.prompts.push(text);
                    self.agents.push(options.agent);
                    self.models.push(options.model.map(|model| model.to_string()));
                    let reply = self
                        .replies
                        .pop()
                        .unwrap_or(Reply::Text("```json\n{\"credence\": 50}\n```"));
                    match messages_after(reply) {
                        Ok(messages) => {
                            assert!(can_collect(&messages));
                            Event::Answered(messages)
                        }
                        Err(error) => Event::Failed(error),
                    }
                }
                Action::Wait { side, attempt, attempts, delay, reason } => {
                    self.waits.push(delay.as_secs());
                    self.retries.push((side, attempt, attempts, reason));
                    Event::Rested
                }
                Action::Read { block, costs } => Event::Read {
                    cost: usd(total(&costs)),
                    decoded: match block {
                        Some(text) => decode(&text),
                        None => Err("there is no block".to_string()),
                    },
                },
                Action::Done => break,
            };
        }
        self.engine.debate().clone()
    }
}

fn config(max_rounds: usize) -> DebateConfig {
    DebateConfig {
        topic: Topic::new("Is X true?", "X is true", "X is false"),
        max_rounds,
        model_a: None,
        model_b: None,
        retry: RetryPolicy { attempts: 3, backoff: Delay::zero() },
    }
}

fn scripted(replies: &[Reply], config: DebateConfig) -> Scripted {
    Scripted {
        engine: Engine::new(Box::new(CredenceFormat), config, "ses_1", "ses_2"),
        replies: replies.iter().rev().cloned().collect(),
        prompts: Vec::new(),
        agents: Vec::new(),
        models: Vec::new(),
        sessions: Vec::new(),
        waits: Vec::new(),
        retries: Vec::new(),
        progress: Vec::new(),
    }
}

fn engine_with(replies: &[Reply], max_rounds: usize) -> Scripted {
    scripted(replies, config(max_rounds))
}

#[test]
fn a_debate_runs_until_confidences_converge() {
    // Arrange: both sure of their own position, then A gives ground until
    // the two credences restate to nearly the same view. 62 + 45 is 107,
    // seven points from agreement.
    let replies = [
        Reply::Text("A opens.\n```json\n{\"credence\": 85}\n```"),
        Reply::Text("B opens.\n```json\n{\"credence\": 80}\n```"),
        Reply::Text("A concedes ground.\n```json\n{\"credence\": 62}\n```"),
        Reply::Text("B holds.\n```json\n{\"credence\": 45}\n```"),
    ];
    let mut engine = engine_with(&replies, 6);

    // Act
    let state = engine.run();

    // Assert
    assert_eq!(state.stop_reason, Some(StopReason::Converged { gap: 7 }));
    assert_eq!(state.turns.len(), 4);
}

#[test]
fn the_round_cap_stops_a_debate_that_never_converges() {
    // Arrange: both sides stay certain of their own opposing position, so
    // they never approach agreement. 95 + 95 is 90 points from it.
    let replies = [
        Reply::Text("A.\n```json\n{\"credence\": 95}\n```"),
        Reply::Text("B.\n```json\n{\"credence\": 95}\n```"),
        Reply::Text("A.\n```json\n{\"credence\": 95}\n```"),
        Reply::Text("B.\n```json\n{\"credence\": 95}\n```"),
    ];
    let mut engine = engine_with(&replies, 2);

    // Act
    let state = engine.run();

    // Assert
    assert_eq!(state.stop_reason, Some(StopReason::RoundCap));
    assert_eq!(state.completed_rounds(), 2);
}

#[test]
fn each_side_is_prompted_as_its_own_agent() {
    // Arrange
    let mut engine = engine_with(&[], 1);

    // Act
    engine.run();

    // Assert: personas come from agent definitions, so the agent name
    // must alternate or both sides argue identically.
    let agents = engine.agents.clone();
    assert_eq!(
        agents,
        vec![Some("debater-a".to_string()), Some("debater-b".to_string())]
    );
}

#[test]
fn a_turn_aggregates_cost_and_tools_across_its_messages() {
    // Arrange: the mock's turn spans two assistant messages, one of which
    // holds the tool call and part of the cost.
    let mut engine = engine_with(&[], 1);

    // Act
    let state = engine.run();

    // Assert: reading only the prompt response would have given 0.002 and
    // no tools.
    let turn = state.turns.first().expect("a turn must be recorded");
    assert!((f64::from_bits(turn.cost.bits) - 0.003).abs() < 1e-9,
        "cost was {}",
        f64::from_bits(turn.cost.bits));
    assert_eq!(turn.tokens.input, 150);
    assert_eq!(turn.tool_calls.len(), 1);
    assert_eq!(turn.tool_calls[0].tool, "websearch");
    assert_eq!(turn.tool_calls[0].detail, "evidence");
}

#[test]
fn prose_reaches_the_transcript_without_its_json_block() {
    // Arrange
    let mut engine = engine_with(
        &[Reply::Text(
            "My argument.\n```json\n{\"credence\": 70}\n```",
        )],
        1,
    );

    // Act
    let state = engine.run();

    // Assert
    assert_eq!(state.turns[0].text, "My argument.");
    assert!(!state.turns[0].text.contains("credence"));
}

#[test]
fn a_turn_without_structure_still_records() {
    // Arrange: the model ignored the format instruction.
    let mut engine = engine_with(&[Reply::Text("Just prose, no block.")], 1);

    // Act
    let state = engine.run();

    // Assert: the debate continues rather than failing.
    assert_eq!(state.turns[0].text, "Just prose, no block.");
    assert!(!state.turns[0].analysis.parse_status.is_ok());
}

#[test]
fn a_silent_turn_is_retried_until_the_side_speaks() {
    // Arrange: the provider throttles the first attempt, drops the second
    // without saying why, then answers.
    let replies = [
        Reply::Rejected {
            status: 429,
            retryable: true,
        },
        Reply::Silent,
        Reply::Text("A finally speaks.\n```json\n{\"credence\": 80}\n```"),
    ];
    let mut engine = engine_with(&replies, 1);

    // Act
    let state = engine.run();

    // Assert: the turn that reached the transcript is the one with content,
    // and the two dead attempts left nothing behind.
    assert_eq!(state.turns[0].text, "A finally speaks.");
    assert_eq!(
        engine.prompts.len(),
        4,
        "3 for A, 1 for B"
    );
}

#[test]
fn a_side_that_never_speaks_ends_the_debate_with_what_it_has() {
    // Arrange: A opens, B answers, then A goes silent for good.
    let replies = [
        Reply::Text("A opens.\n```json\n{\"credence\": 80}\n```"),
        Reply::Text("B answers.\n```json\n{\"credence\": 80}\n```"),
        Reply::Silent,
        Reply::Silent,
        Reply::Silent,
    ];
    let mut engine = engine_with(&replies, 6);

    // Act
    let state = engine.run();

    // Assert: the two completed turns survive, and the transcript records
    // which side stopped and why.
    assert_eq!(state.turns.len(), 2);
    match state.stop_reason {
        Some(StopReason::Failed { side, ref message }) => {
            assert_eq!(side, Side::A);
            assert!(
                message.contains("after 3 attempts"),
                "message was: {message}"
            );
        }
        other => panic!("expected a failed stop, got {other:?}"),
    }
}

#[test]
fn a_refusal_that_retrying_cannot_fix_is_not_retried() {
    // Arrange: 402, out of credit. Waiting only arrives at the same answer
    // several minutes later.
    let mut engine = engine_with(
        &[Reply::Rejected {
            status: 402,
            retryable: false,
        }],
        2,
    );

    // Act
    let state = engine.run();

    // Assert: one attempt only, and the provider's own words are kept.
    assert_eq!(engine.prompts.len(), 1);
    match state.stop_reason {
        Some(StopReason::Failed { ref message, .. }) => {
            assert!(message.contains("402"), "message was: {message}");
            assert!(
                message.contains("provider said no"),
                "message was: {message}"
            );
        }
        other => panic!("expected a failed stop, got {other:?}"),
    }
}

#[test]
fn a_turn_with_prose_but_no_structure_is_not_retried() {
    // Arrange: the model argued but ignored the format instruction. The
    // argument is worth keeping, and re-rolling it would pay twice to
    // discard a real turn.
    let mut engine = engine_with(&[Reply::Text("Just prose, no block.")], 1);

    // Act
    let state = engine.run();

    // Assert
    assert_eq!(state.turns[0].text, "Just prose, no block.");
    assert_eq!(engine.prompts.len(), 2, "one turn each");
}

#[test]
fn progress_is_reported_for_every_turn_and_the_ending() {
    // Arrange
    let mut engine = engine_with(&[], 1);

    // Act
    engine.run();

    // Assert: two starts, two completions, one finish.
    let log = &engine.progress;
    assert_eq!(log.len(), 5);
    assert!(matches!(
        log[0],
        Progress::TurnStarted { side: Side::A, .. }
    ));
    assert!(matches!(
        log[2],
        Progress::TurnStarted { side: Side::B, .. }
    ));
    assert!(matches!(log[4], Progress::Finished { .. }));
}

#[test]
fn the_opponents_argument_is_carried_into_the_next_prompt() {
    // Arrange
    let mut engine = engine_with(
        &[Reply::Text(
            "A's distinctive point.\n```json\n{\"credence\": 80}\n```",
        )],
        1,
    );

    // Act
    engine.run();

    // Assert: B must see what A said, or the sides are not debating.
    let prompts = engine.prompts.clone();
    assert!(
        prompts[1].contains("A's distinctive point"),
        "B's prompt was: {}",
        prompts[1]
    );
}

#[test]
fn collect_turn_takes_only_messages_after_the_last_user_message() {
    // Arrange: a prior turn that must not be counted twice.
    let messages = vec![
        AssistantMessage {
            info: MessageInfo {
                role: "user".into(),
                ..MessageInfo::default()
            },
            parts: Vec::new(),
        },
        AssistantMessage {
            info: MessageInfo {
                role: "assistant".into(),
                cost: usd(5.0),
                ..MessageInfo::default()
            },
            parts: vec![Part::Text {
                id: "old".into(),
                text: "stale".into(),
            }],
        },
        AssistantMessage {
            info: MessageInfo {
                role: "user".into(),
                ..MessageInfo::default()
            },
            parts: Vec::new(),
        },
        AssistantMessage {
            info: MessageInfo {
                role: "assistant".into(),
                cost: usd(1.0),
                ..MessageInfo::default()
            },
            parts: vec![Part::Text {
                id: "new".into(),
                text: "fresh".into(),
            }],
        },
    ];

    // Act
    let turn = collect_turn(&messages);

    // Assert
    assert_eq!(turn.text, "fresh");
    assert!((total(&turn.costs) - 1.0).abs() < 1e-9);
}

#[test]
fn each_side_has_its_own_session_and_model() {
    let mut config = config(1);
    config.model_a = Some(ModelRef::new("p", "x"));
    config.model_b = Some(ModelRef::new("p", "y"));
    let mut engine = scripted(&[], config);
    engine.run();
    assert_eq!(engine.sessions, vec!["ses_1", "ses_2"]);
    assert_eq!(
        engine.models,
        vec![Some("p/x".to_string()), Some("p/y".to_string())]
    );
    assert_eq!(engine.engine.session_id(Side::A), "ses_1");
    assert_eq!(engine.engine.session_id(Side::B), "ses_2");
    assert!(engine.engine.is_over());
}

#[test]
fn the_wait_doubles_and_the_prompt_stays_the_same() {
    let mut config = config(1);
    config.retry = RetryPolicy { attempts: 4, backoff: Delay::from_secs(5) };
    let replies = [
        Reply::Silent,
        Reply::Lost { timeout: true },
        Reply::Rejected { status: 503, retryable: true },
        Reply::Text("At last.\n```json\n{\"credence\": 80}\n```"),
    ];
    let mut engine = scripted(&replies, config);
    let state = engine.run();
    assert_eq!(engine.waits, vec![5, 10, 20]);
    assert_eq!(state.turns[0].text, "At last.");
    assert!(engine.prompts[..4].iter().all(|prompt| *prompt == engine.prompts[0]));
    assert!(engine.sessions[..4].iter().all(|session| session == "ses_1"));
}

#[test]
fn every_retry_says_whose_it_is_and_why() {
    let replies = [
        Reply::Text("A.\n```json\n{\"credence\": 80}\n```"),
        Reply::Rejected { status: 503, retryable: true },
        Reply::Lost { timeout: true },
        Reply::Text("B.\n```json\n{\"credence\": 80}\n```"),
    ];
    let mut engine = engine_with(&replies, 1);
    engine.run();
    assert_eq!(engine.retries.len(), 2);
    let (side, attempt, attempts, reason) = &engine.retries[0];
    assert_eq!((*side, *attempt, *attempts), (Side::B, 1, 3));
    assert!(reason.contains("provider said no"), "reason was: {reason}");
    assert!(reason.contains("503"), "reason was: {reason}");
    assert_eq!(
        engine.retries[1],
        (Side::B, 2, 3, "opencode request failed: the line went dead".to_string())
    );
}

/// What a list of reports comes to: the side of each start and completion, and
/// the ending.
fn outline(progress: &[Progress]) -> Vec<String> {
    progress
        .iter()
        .map(|report| match report {
            Progress::TurnStarted { side, round } => format!("start {} {round}", side.to_string()),
            Progress::TurnCompleted(turn) => {
                format!("done {} {}", turn.side.to_string(), turn.round)
            }
            Progress::Finished { .. } => "end".to_string(),
        })
        .collect()
}

#[test]
fn a_whole_run_reports_its_turns_in_order_and_ends_once() {
    let mut engine = engine_with(&[], 1);
    engine.run();
    assert_eq!(
        outline(&engine.progress),
        vec!["start A 1", "done A 1", "start B 1", "done B 1", "end"]
    );
}

#[test]
fn a_failed_side_leaves_one_start_without_a_completion() {
    let replies = [
        Reply::Text("A.\n```json\n{\"credence\": 80}\n```"),
        Reply::Silent,
        Reply::Rejected { status: 402, retryable: false },
    ];
    let mut engine = engine_with(&replies, 2);
    let state = engine.run();
    assert_eq!(
        outline(&engine.progress),
        vec!["start A 1", "done A 1", "start B 1", "end"]
    );
    assert!(matches!(
        state.stop_reason,
        Some(StopReason::Failed { side: Side::B, .. })
    ));
}

#[test]
fn a_policy_of_no_attempts_still_makes_one() {
    let mut config = config(1);
    config.retry = RetryPolicy { attempts: 0, backoff: Delay::from_secs(5) };
    let mut engine = scripted(&[Reply::Silent], config);
    let state = engine.run();
    assert_eq!(engine.prompts.len(), 1);
    assert_eq!(engine.waits, Vec::<u64>::new());
    assert_eq!(
        state.stop_reason,
        Some(StopReason::Failed {
            side: Side::A,
            message: "session ses_1 reported an error: \
                      the model produced no visible text (after 1 attempts)"
                .to_string(),
        })
    );
}

#[test]
fn a_lost_request_that_retrying_cannot_fix_is_reported_as_it_is() {
    let mut engine = engine_with(&[Reply::Lost { timeout: false }], 1);
    let state = engine.run();
    assert_eq!(engine.prompts.len(), 1);
    assert!(state.turns.is_empty());
    assert_eq!(
        state.stop_reason,
        Some(StopReason::Failed {
            side: Side::A,
            message: "opencode request failed: the line went dead".to_string(),
        })
    );
}

#[test]
fn a_cap_of_no_rounds_still_finishes_the_first() {
    let mut engine = engine_with(&[], 0);
    let state = engine.run();
    assert_eq!(state.turns.len(), 2);
    assert_eq!(state.stop_reason, Some(StopReason::RoundCap));
}

#[test]
fn a_concession_by_the_opening_side_ends_the_debate_at_once() {
    // A concession settles the question, so B is not asked any more.
    let replies = [
        Reply::Text("A.\n```json\n{\"credence\": 0}\n```"),
        Reply::Text("B.\n```json\n{\"credence\": 50}\n```"),
    ];
    let mut engine = engine_with(&replies, 1);
    let state = engine.run();
    assert_eq!(state.stop_reason, Some(StopReason::Conceded { side: Side::A }));
    assert_eq!(state.turns.len(), 1);
    assert_eq!(engine.prompts.len(), 1);
    assert!(matches!(
        engine.progress.last(),
        Some(Progress::Finished { reason: StopReason::Conceded { side: Side::A } })
    ));
}

#[test]
fn a_concession_in_a_later_round_ends_the_debate_before_the_answer() {
    let replies = [
        Reply::Text("A.\n```json\n{\"credence\": 85}\n```"),
        Reply::Text("B.\n```json\n{\"credence\": 80}\n```"),
        Reply::Text("A.\n```json\n{\"credence\": 0}\n```"),
    ];
    let state = engine_with(&replies, 6).run();
    assert_eq!(state.turns.len(), 3);
    assert_eq!(state.stop_reason, Some(StopReason::Conceded { side: Side::A }));
}

#[test]
fn agreement_waits_for_the_round_to_finish() {
    // After A's third turn the two sum to 100, but B has yet to answer it.
    let replies = [
        Reply::Text("A.\n```json\n{\"credence\": 85}\n```"),
        Reply::Text("B.\n```json\n{\"credence\": 80}\n```"),
        Reply::Text("A.\n```json\n{\"credence\": 85}\n```"),
        Reply::Text("B.\n```json\n{\"credence\": 80}\n```"),
        Reply::Text("A.\n```json\n{\"credence\": 20}\n```"),
        Reply::Text("B.\n```json\n{\"credence\": 90}\n```"),
    ];
    let state = engine_with(&replies, 6).run();
    assert_eq!(state.turns.len(), 6);
    assert_eq!(state.stop_reason, Some(StopReason::Converged { gap: 10 }));
}

#[test]
fn an_unexpected_event_changes_nothing() {
    let mut engine = engine_with(&[], 1).engine;
    assert!(engine.advance(Event::Rested).is_none());
    assert!(engine.advance(Event::Answered(Vec::new())).is_none());
    assert!(engine.advance(Event::Begin).is_some());
    assert!(engine.advance(Event::Begin).is_none());
    assert!(engine.debate().turns.is_empty());
}

#[test]
fn the_first_recorded_failure_explains_the_turn() {
    let failing = |message: &str| AssistantMessage {
        info: MessageInfo {
            role: "assistant".into(),
            error: Some(MessageError {
                name: "APIError".into(),
                data: MessageErrorData { message: message.into(), ..MessageErrorData::default() },
            }),
            ..MessageInfo::default()
        },
        parts: Vec::new(),
    };
    let turn = collect_turn(&vec![failing("first"), failing("second")]);
    assert_eq!(turn.error.map(|error| error.data.message), Some("first".to_string()));
}

#[test]
fn tokens_that_do_not_fit_are_noticed() {
    let huge = AssistantMessage {
        info: MessageInfo {
            role: "assistant".into(),
            tokens: Tokens { input: u64::MAX, output: 0, reasoning: 0 },
            ..MessageInfo::default()
        },
        parts: Vec::new(),
    };
    assert!(can_collect(&vec![huge.clone()]));
    assert!(!can_collect(&vec![huge.clone(), huge]));
}

#[test]
fn a_finished_debate_takes_no_more_events() {
    let mut engine = engine_with(&[], 1);
    let state = engine.run();
    for event in [Event::Begin, Event::Rested, Event::Answered(Vec::new())] {
        assert!(engine.engine.advance(event).is_none());
    }
    assert_eq!(engine.engine.into_debate(), state);
}

#[test]
fn nothing_of_a_failed_attempt_reaches_the_record() {
    // The session still holds the messages of the attempt that failed, but the
    // retry sent a fresh user message after them.
    let failed = messages_after(Reply::Rejected { status: 503, retryable: true });
    let answered = messages_after(Reply::Text("Fine."));
    let mut messages = failed.expect("must be messages");
    messages.extend(answered.expect("must be messages"));
    let turn = collect_turn(&messages);
    assert_eq!(turn.text, "Fine.");
    assert_eq!(turn.tool_calls.len(), 1);
    assert_eq!(turn.tokens.input, 150);
    assert!(turn.error.is_none());
}

#[test]
fn a_concession_with_the_last_word_ends_the_debate_in_its_round() {
    let replies = [
        Reply::Text("A.\n```json\n{\"credence\": 85}\n```"),
        Reply::Text("B.\n```json\n{\"credence\": 0}\n```"),
    ];
    let state = engine_with(&replies, 6).run();
    assert_eq!(state.turns.len(), 2);
    assert_eq!(state.stop_reason, Some(StopReason::Conceded { side: Side::B }));
}
