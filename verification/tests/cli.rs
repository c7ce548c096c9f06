//! What the command line decides and prints.

use coin::cli::{
    banner, describe_models, exit_of, findings, fresh_workspace, looks_like_path, opening,
    probe_message, probe_totals, render_debate_event, render_probe_event, resolve_models, side_of,
    summary, text_or_file, tool_line, unimplemented_format, OnDisk, DEFAULT_DEBATE_MODEL,
};
use coin::config::{DebateSettings, RetryPolicy};
use coin::debate::engine::DebateConfig;
use coin::debate::format::FormatId;
use coin::debate::state::{
    Credence, DebateState, ParseStatus, Side, StopReason, Topic, TurnAnalysis,
};
use coin::error::CoinError;
use coin::opencode::events::Flow;
use coin::opencode::types::{
    Argument, ArgumentValue, Cost, MessageInfo, ModelRef, Part, PartDelta, PartEnvelope,
    PartUpdated, ServerEvent, SessionRef, Tokens, ToolState,
};

/// Parse a `provider/model` string in a test.
fn model(value: &str) -> ModelRef {
    value.parse().expect("test model must parse")
}

/// Settings pinning the given models.
fn settings(side_a: Option<&str>, side_b: Option<&str>) -> DebateSettings {
    DebateSettings {
        model: side_a.map(model),
        model_b: side_b.map(model),
    }
}

#[test]
fn with_no_flags_and_no_file_both_sides_get_the_built_in_default() {
    // Arrange and act
    let (a, b) = resolve_models(None, None, settings(None, None)).expect("must resolve");

    // Assert: the same model on both sides isolates the argument from model
    // capability, which is why it is the default.
    assert_eq!(a.to_string(), DEFAULT_DEBATE_MODEL);
    assert_eq!(b, a);
}

#[test]
fn the_file_supplies_both_sides_when_the_command_line_is_silent() {
    // Arrange
    let file = settings(Some("openrouter/z-ai/glm-5.3-flash"), Some("a/b"));

    // Act
    let (a, b) = resolve_models(None, None, file).expect("must resolve");

    // Assert
    assert_eq!(a.to_string(), "openrouter/z-ai/glm-5.3-flash");
    assert_eq!(b.to_string(), "a/b");
}

#[test]
fn a_file_pinning_only_one_model_still_gives_both_sides_a_model() {
    // Arrange
    let file = settings(Some("provider/only"), None);

    // Act
    let (a, b) = resolve_models(None, None, file).expect("must resolve");

    // Assert
    assert_eq!(a.to_string(), "provider/only");
    assert_eq!(b, a);
}

#[test]
fn the_command_line_beats_the_file_on_both_sides() {
    // Arrange: -m is documented as setting both sides, so it must override
    // a model_b the file pinned rather than producing a surprise pairing.
    let file = settings(Some("file/a"), Some("file/b"));

    // Act
    let (a, b) = resolve_models(Some(model("flag/x")), None, file).expect("must resolve");

    // Assert
    assert_eq!(a.to_string(), "flag/x");
    assert_eq!(b.to_string(), "flag/x");
}

#[test]
fn model_b_on_the_command_line_differs_the_sides() {
    // Arrange
    let file = settings(Some("file/a"), Some("file/b"));

    // Act
    let (a, b) = resolve_models(None, Some(model("flag/y")), file).expect("must resolve");

    // Assert: A still comes from the file, B from the flag.
    assert_eq!(a.to_string(), "file/a");
    assert_eq!(b.to_string(), "flag/y");
}

#[test]
fn both_flags_together_win_outright() {
    // Arrange
    let file = settings(Some("file/a"), Some("file/b"));

    // Act
    let (a, b) = resolve_models(Some(model("flag/x")), Some(model("flag/y")), file)
        .expect("must resolve");

    // Assert
    assert_eq!(a.to_string(), "flag/x");
    assert_eq!(b.to_string(), "flag/y");
}

#[test]
fn the_built_in_default_is_routable() {
    // Arrange and act: a typo here would only surface at the first debate.
    let parsed = model(DEFAULT_DEBATE_MODEL);

    // Assert: the model id keeps its own slash, so only the first one
    // separates the provider.
    assert_eq!(parsed.provider_id, "openrouter");
    assert_eq!(parsed.model_id, "z-ai/glm-5.3-flash");
}

#[test]
fn an_existing_file_is_read() {
    // Act
    let resolved = text_or_file(
        "position A",
        "case.md".to_string(),
        OnDisk::File("  The case for X.\n".to_string()),
    )
    .expect("an existing file must be read");

    // Assert: contents are trimmed, since a trailing newline is an artefact of
    // the file rather than part of the argument.
    assert_eq!(resolved, "The case for X.");
}

#[test]
fn ordinary_prose_is_used_verbatim() {
    // Act
    let resolved = text_or_file("question", "Is X true?".to_string(), OnDisk::Nothing)
        .expect("prose must pass through");

    // Assert
    assert_eq!(resolved, "Is X true?");
}

#[test]
fn a_question_containing_a_slash_stays_a_string() {
    // Arrange: this is the case that makes a naive path check wrong.
    let question = "Is TCP/IP better than the OSI model?".to_string();

    // Act
    let resolved = text_or_file("question", question.clone(), OnDisk::Nothing)
        .expect("a question with a slash must not be treated as a path");

    // Assert
    assert_eq!(resolved, question);
}

#[test]
fn a_mistyped_path_is_reported_rather_than_debated() {
    // Arrange: the footgun of the file-or-string rule is that a typo
    // silently becomes the argument.
    let result = text_or_file("position A", "notes/postion.md".to_string(), OnDisk::Nothing);

    // Assert
    let error = result.expect_err("a missing path must be reported");
    let text = error.to_string();
    assert!(text.contains("does not exist"), "{text}");
    assert_eq!(
        text,
        "position A looks like a file path but notes/postion.md does not exist; \
         pass the text directly if that was intended"
    );
}

#[test]
fn an_empty_file_is_rejected() {
    // Arrange: an empty position would produce a meaningless debate.
    let result = text_or_file(
        "question",
        "empty.md".to_string(),
        OnDisk::File("   \n".to_string()),
    );

    // Assert
    let error = result.expect_err("an empty file must be rejected");
    let text = error.to_string();
    assert!(text.contains("empty"), "{text}");
    assert_eq!(text, "question file empty.md is empty");
}

#[test]
fn path_like_values_are_recognised() {
    assert!(looks_like_path("notes/question.md"));
    assert!(looks_like_path("question.txt"));
    assert!(looks_like_path("~/debates/a.md"));
    assert!(looks_like_path("./a.text"));
}

#[test]
fn prose_is_not_mistaken_for_a_path() {
    // Anything with whitespace is prose, whatever else it contains.
    assert!(!looks_like_path("Is X true?"));
    assert!(!looks_like_path("Is TCP/IP better?"));
    assert!(!looks_like_path("see notes.md for detail"));
    assert!(!looks_like_path(""));
}

#[test]
fn a_bare_word_is_not_a_path() {
    // A single word with no separator or text extension is more likely a
    // terse position than a filename.
    assert!(!looks_like_path("yes"));
    assert!(!looks_like_path("X"));
}

#[test]
fn extensions_follow_the_standard_library() {
    let words = [
        "a.txt", "a.TXT", "a.b.Md", ".md", ".a.md", "md", "a.", "a.text", "..", ".", "a.txtx",
        "a..md", "text",
    ];
    for word in words {
        let expected = std::path::Path::new(word)
            .extension()
            .and_then(|extension| extension.to_str())
            .is_some_and(|extension| {
                ["txt", "md", "text"]
                    .iter()
                    .any(|known| extension.eq_ignore_ascii_case(known))
            });
        assert_eq!(looks_like_path(word), expected, "{word}");
    }
}

#[test]
fn a_file_that_cannot_be_read_is_reported() {
    let result = text_or_file(
        "question",
        "q.md".to_string(),
        OnDisk::Unreadable("denied".to_string()),
    );
    assert_eq!(
        result,
        Err(CoinError::Io { path: "q.md".to_string(), source: "denied".to_string() })
    );
}

/// A debate between the given models.
fn config(model_a: Option<ModelRef>, model_b: Option<ModelRef>) -> DebateConfig {
    DebateConfig {
        topic: Topic::new("Is X true?", "X is true", "X is false"),
        max_rounds: 3,
        model_a,
        model_b,
        retry: RetryPolicy::default(),
    }
}

#[test]
fn a_shared_model_is_named_once() {
    assert_eq!(describe_models(&config(None, None)), "  model server default");
    assert_eq!(
        describe_models(&config(Some(model("p/x")), Some(model("p/x")))),
        "  model p/x"
    );
    assert_eq!(
        describe_models(&config(Some(model("p/x")), None)),
        "  model A p/x, model B server default"
    );
}

#[test]
fn a_debate_opens_with_its_terms() {
    assert_eq!(
        opening(&config(None, None), FormatId::Credence, false),
        "Is X true?\n  A: X is true\n  B: X is false\n  \
         credence format, ends when stated confidences converge, max 3 rounds\n  \
         model server default\n"
    );
}

#[test]
fn a_turn_opens_in_its_sides_colour() {
    assert_eq!(banner(Side::B, 2, false), "\n--- Round 2, Debater B ---\n");
    assert_eq!(
        banner(Side::A, 1, true),
        "\n\x1b[36m--- Round 1, Debater A ---\x1b[0m\n\x1b[36m"
    );
}

/// A debate of two turns, the second without a readable block.
fn debate() -> DebateState {
    let mut debate = DebateState::new(Topic::new("q", "a", "b"), 3);
    let mut analysis = TurnAnalysis::empty(ParseStatus::Readable);
    analysis.credence = Credence::new(7);
    analysis.moved_because = Some("evidence".to_string());
    analysis.conceded = vec!["one".to_string(), "two".to_string()];
    let tokens = Tokens { input: 10, output: 2, reasoning: 1 };
    debate.push_turn(Side::A, "x".to_string(), analysis, Vec::new(), tokens, Cost::default());
    debate.push_turn(
        Side::B,
        "y".to_string(),
        TurnAnalysis::empty(ParseStatus::Missing),
        Vec::new(),
        tokens,
        Cost::default(),
    );
    debate
}

#[test]
fn findings_list_what_a_turn_stated() {
    let debate = debate();
    assert_eq!(
        findings(&debate.turns[0], false),
        "\n  confidence: 7\n  moved because: evidence\n  conceded: one\n  conceded: two\n"
    );
    assert_eq!(
        findings(&debate.turns[1], false),
        "\n  (no readable structured block in this turn)\n"
    );
    assert!(findings(&debate.turns[1], true).starts_with("\x1b[0m\n"));
}

#[test]
fn the_summary_tabulates_and_totals() {
    let mut debate = debate();
    debate.stop_reason = Some(StopReason::RoundCap);
    assert_eq!(
        summary(&debate, "0.0010", false),
        "\nResult\n\
         confidence in own position, and how far apart that leaves them:\n  \
         round 1   A 7   B   -   gap   -\n\
         caution: 1 of 2 turns produced no readable structured block, so the table omits them\n\
         ended: round cap reached\n\
         2 turns | 20 in, 4 out | $0.0010\n"
    );
    let empty = DebateState::new(Topic::new("q", "a", "b"), 3);
    assert_eq!(
        summary(&empty, "0.0000", false),
        "\nResult\nended: did not finish\n0 turns | 0 in, 0 out | $0.0000\n"
    );
}

/// A tool part.
fn tool(status: &str, query: Option<&str>) -> Part {
    Part::Tool {
        id: String::new(),
        tool: "websearch".to_string(),
        state: ToolState {
            status: status.to_string(),
            input: query
                .iter()
                .map(|text| Argument {
                    name: "query".to_string(),
                    value: ArgumentValue::Text(text.to_string()),
                })
                .collect(),
            ..ToolState::default()
        },
    }
}

/// A fragment of a session's output.
fn fragment(session_id: &str, field: &str) -> ServerEvent {
    ServerEvent::PartDelta(PartDelta {
        session_id: session_id.to_string(),
        field: field.to_string(),
        delta: "The".to_string(),
        ..PartDelta::default()
    })
}

/// A part of a session in a new state.
fn updated(session_id: &str, part: Part) -> ServerEvent {
    ServerEvent::PartUpdated(PartUpdated {
        part: PartEnvelope { session_id: session_id.to_string(), part },
    })
}

#[test]
fn a_tool_call_is_one_line() {
    assert_eq!(
        tool_line(&tool("running", Some("evidence"))).as_deref(),
        Some("  [running websearch: evidence]")
    );
    assert_eq!(tool_line(&tool("pending", None)).as_deref(), Some("  [pending websearch]"));
    assert_eq!(tool_line(&Part::Other), None);
}

#[test]
fn a_debate_streams_both_sides_and_nobody_else() {
    let render = |event: &ServerEvent| render_debate_event(event, "sa", "sb", true);
    assert_eq!(render(&fragment("sa", "text")).as_deref(), Some("The"));
    assert_eq!(render(&fragment("sb", "text")).as_deref(), Some("The"));
    assert_eq!(render(&fragment("sa", "reasoning")), None);
    assert_eq!(render(&fragment("other", "text")), None);
    assert_eq!(
        render(&updated("sb", tool("running", None))).as_deref(),
        Some("\n\x1b[2m  [running websearch]\x1b[0m\x1b[35m\n")
    );
    assert_eq!(render(&updated("sa", Part::Other)), None);
    assert_eq!(render(&updated("other", tool("running", None))), None);
    assert_eq!(render(&ServerEvent::Other), None);
    assert_eq!(side_of("sb", "sa", "sb"), Some(Side::B));
}

#[test]
fn a_probe_stops_when_its_session_idles() {
    let idle = |id: &str| ServerEvent::SessionIdle(SessionRef { session_id: id.to_string() });
    assert_eq!(render_probe_event(&idle("s"), "s").flow, Flow::Stop);
    assert_eq!(render_probe_event(&idle("t"), "s").flow, Flow::Continue);

    let output = render_probe_event(&fragment("s", "text"), "s");
    assert_eq!(output.out.as_deref(), Some("The"));
    assert_eq!((output.err, output.flow), (None, Flow::Continue));
    let output = render_probe_event(&updated("s", tool("running", None)), "s");
    assert_eq!((output.out, output.err.as_deref()), (None, Some("\n  [running websearch]\n")));
    let output = render_probe_event(&fragment("t", "text"), "s");
    assert_eq!((output.out, output.err), (None, None));
}

#[test]
fn a_probe_needs_something_to_say() {
    let words = |list: &[&str]| list.iter().map(|w| w.to_string()).collect::<Vec<String>>();
    assert_eq!(probe_message(&words(&["hello", "there"])), Ok("hello there".to_string()));
    for silent in [words(&[]), words(&[" ", ""])] {
        assert_eq!(
            probe_message(&silent),
            Err(CoinError::Invalid("a probe message is required".to_string()))
        );
    }
}

#[test]
fn a_probe_closes_with_its_totals() {
    let info = MessageInfo {
        model_id: "m".to_string(),
        provider_id: "p".to_string(),
        tokens: Tokens { input: 3, output: 4, reasoning: 0 },
        ..MessageInfo::default()
    };
    assert_eq!(probe_totals(&info, "0.0001"), "\nm via p | 3 in, 4 out | $0.0001");
}

#[test]
fn a_failed_debate_is_a_failure() {
    let mut debate = debate();
    assert_eq!(exit_of(&debate, "sa", "sb"), Ok(()));
    debate.stop_reason = Some(StopReason::RoundCap);
    assert_eq!(exit_of(&debate, "sa", "sb"), Ok(()));
    debate.stop_reason = Some(StopReason::Failed { side: Side::B, message: "no".to_string() });
    assert_eq!(
        exit_of(&debate, "sa", "sb"),
        Err(CoinError::Session { session_id: "sb".to_string(), message: "no".to_string() })
    );
}

#[test]
fn an_unbuilt_format_is_refused_by_name() {
    assert_eq!(
        unimplemented_format(FormatId::Crux).to_string(),
        "format crux is specified but not implemented yet; \
         only 'credence' is available so far"
    );
}

#[test]
fn every_debate_gets_a_workspace_of_its_own() {
    match (fresh_workspace(), fresh_workspace()) {
        (Ok(first), Ok(second)) => {
            assert_eq!(first.segments.len(), 3);
            assert_eq!(first.segments[..2], ["coin", "debates"]);
            assert_ne!(first.segments[2], second.segments[2]);
            let id = uuid::Uuid::parse_str(&first.segments[2]).expect("must be an identifier");
            assert_eq!(id.get_version_num(), 4);
            assert_eq!(id.to_string(), first.segments[2]);
        }
        (first, second) => assert!(first.is_err() && second.is_err()),
    }
}
