//! Transcripts.

use coin::debate::format::FormatId;
use coin::debate::state::{
    Credence, DebateState, ParseStatus, Side, StopReason, Topic, TurnAnalysis,
};
use coin::opencode::types::{Cost, ModelRef, Tokens, ToolCall};
use coin::store::{
    caution, describe_stop, form_for, Transcript, TranscriptForm, JSON_FILE, MARKDOWN_FILE,
};

/// An amount of money.
fn usd(amount: f64) -> Cost {
    Cost { bits: amount.to_bits() }
}

/// A two-turn debate ending in agreement, with tool use on side A.
fn finished_debate() -> DebateState {
    let mut state = DebateState::new(Topic::new("Is X true?", "X is true", "X is false"), 6);

    let mut analysis_a = TurnAnalysis::empty(ParseStatus::Readable);
    analysis_a.credence = Credence::new(70);
    analysis_a.moved_because = Some("opened".to_string());
    state.push_turn(
        Side::A,
        "A argues.".to_string(),
        analysis_a,
        vec![ToolCall {
            tool: "websearch".to_string(),
            status: "completed".to_string(),
            detail: "evidence for X".to_string(),
        }],
        Tokens {
            input: 100,
            output: 20,
            reasoning: 0,
        },
        usd(0.01),
    );

    let mut analysis_b = TurnAnalysis::empty(ParseStatus::Readable);
    analysis_b.credence = Credence::new(35);
    analysis_b.conceded = vec!["the central study is genuine".to_string()];
    state.push_turn(
        Side::B,
        "B concedes ground.".to_string(),
        analysis_b,
        Vec::new(),
        Tokens {
            input: 200,
            output: 40,
            reasoning: 0,
        },
        usd(0.02),
    );

    state.stop_reason = Some(StopReason::Converged { gap: 5 });
    state
}

fn transcript_of(state: &DebateState) -> Transcript<'_> {
    Transcript::new(state, FormatId::Credence, None, None)
}

/// The transcript as Markdown, with the cost summed and rendered.
fn markdown_of(state: &DebateState) -> String {
    let cost = state
        .usage()
        .costs
        .iter()
        .fold(0.0, |sum, cost| sum + f64::from_bits(cost.bits));
    transcript_of(state).to_markdown(&format!("{cost:.4}"))
}

#[test]
fn markdown_records_the_topic_and_both_positions() {
    let state = finished_debate();
    let markdown = markdown_of(&state);

    assert!(markdown.starts_with("# Is X true?"));
    assert!(markdown.contains("**Side A**: X is true"));
    assert!(markdown.contains("**Side B**: X is false"));
}

#[test]
fn markdown_includes_every_turn_in_order() {
    let state = finished_debate();
    let markdown = markdown_of(&state);

    let first = markdown.find("A argues.").expect("turn A must appear");
    let second = markdown
        .find("B concedes ground.")
        .expect("turn B must appear");
    assert!(first < second, "turns must be in order");
}

#[test]
fn markdown_records_tool_use() {
    // Tool use is the evidence a claim was checked rather than asserted,
    // so a transcript that omitted it would lose the point of the project.
    let state = finished_debate();
    let markdown = markdown_of(&state);

    assert!(markdown.contains("tool `websearch`"));
    assert!(markdown.contains("evidence for X"));
}

#[test]
fn markdown_records_confidences_and_concessions() {
    let state = finished_debate();
    let markdown = markdown_of(&state);

    assert!(markdown.contains("**Confidence: 70**"));
    assert!(markdown.contains("the central study is genuine"));
}

#[test]
fn markdown_gap_column_uses_agreement_not_difference() {
    // 70 and 35 sum to 105, so the sides are five points from agreement,
    // not the 35 a naive subtraction would report.
    let state = finished_debate();
    let markdown = markdown_of(&state);

    assert!(
        markdown.contains("| 1 | 70 | 35 | 5 |"),
        "gap column wrong in:\n{markdown}"
    );
}

#[test]
fn markdown_states_the_outcome_and_totals() {
    let state = finished_debate();
    let markdown = markdown_of(&state);

    assert!(markdown.contains("confidences converged, 5 points apart"));
    assert!(markdown.contains("2 turns, 300 tokens in, 60 out, $0.0300"));
}

#[test]
fn stop_reasons_all_render_readably() {
    for reason in [
        StopReason::Converged { gap: 3 },
        StopReason::Conceded { side: Side::B },
        StopReason::RoundCap,
        StopReason::CruxIsolated,
        StopReason::NoNewClaims,
        StopReason::FormatComplete,
        StopReason::Aborted,
    ] {
        let text = describe_stop(&Some(reason.clone()));
        assert!(!text.is_empty(), "{reason:?} produced nothing");
        assert!(
            !text.contains('{'),
            "{reason:?} leaked debug formatting: {text}"
        );
    }
    assert_eq!(describe_stop(&None), "did not finish");
}


#[test]
fn a_transcript_records_its_configuration() {
    // Which format and models produced a result is exactly what a reader needs
    // months later, and the state alone does not record it.
    let state = finished_debate();
    let model = ModelRef::new("digitalocean", "glm-5.3-flash");
    let transcript = Transcript::new(&state, FormatId::Credence, Some(&model), Some(&model));

    assert_eq!(transcript.version, 1);
    assert_eq!(transcript.format, FormatId::Credence);
    assert_eq!(transcript.model_a, Some(&model));
    assert_eq!(transcript.model_b, Some(&model));
    assert_eq!(transcript.state.turns.len(), 2);
}

#[test]
fn a_transcript_is_stamped_with_an_rfc_3339_time() {
    let state = finished_debate();
    let transcript = transcript_of(&state);

    assert!(
        chrono::DateTime::parse_from_rfc3339(&transcript.saved_at).is_ok(),
        "stamp was {}",
        transcript.saved_at
    );
}

#[test]
fn the_whole_markdown_of_a_debate() {
    let mut state = finished_debate();
    state.push_turn(
        Side::A,
        "  Prose only.\n".to_string(),
        TurnAnalysis::empty(ParseStatus::Missing),
        vec![ToolCall {
            tool: "bash".to_string(),
            status: "error".to_string(),
            detail: String::new(),
        }],
        Tokens::default(),
        usd(0.0),
    );
    let model_a = ModelRef::new("p", "x");
    let model_b = ModelRef::new("p", "y");
    let transcript = Transcript::recorded_at(
        "2026-08-31T12:00:00+00:00".to_string(),
        &state,
        FormatId::Credence,
        Some(&model_a),
        Some(&model_b),
    );

    let expected = [
        "# Is X true?",
        "",
        "- **Side A**: X is true",
        "- **Side B**: X is false",
        "- **Format**: credence",
        "- **Model A**: p/x",
        "- **Model B**: p/y",
        "- **Recorded**: 2026-08-31T12:00:00+00:00",
        "",
        "## Round 1, Debater A",
        "",
        "- tool `websearch` (completed): evidence for X",
        "",
        "A argues.",
        "",
        "**Confidence: 70**",
        "",
        "*Moved because:* opened",
        "",
        "",
        "## Round 1, Debater B",
        "",
        "B concedes ground.",
        "",
        "**Confidence: 35**",
        "",
        "*Conceded:*",
        "",
        "- the central study is genuine",
        "",
        "",
        "## Round 2, Debater A",
        "",
        "- tool `bash` (error)",
        "",
        "Prose only.",
        "",
        "*No readable structured block in this turn.*",
        "",
        "",
        "## Result",
        "",
        "| Round | A | B | Gap |",
        "|---|---|---|---|",
        "| 1 | 70 | 35 | 5 |",
        "",
        "caution: 1 of 3 turns produced no readable structured block, so the table omits them",
        "",
        "**Outcome:** confidences converged, 5 points apart",
        "",
        "3 turns, 300 tokens in, 60 out, $0.0300",
        "",
    ]
    .join("\n");
    assert_eq!(transcript.to_markdown("0.0300"), expected);
}

#[test]
fn a_row_is_labelled_by_its_round_and_a_missing_reading_is_a_dash() {
    // Two unreadable turns, then a round in which only A states a confidence.
    let mut state = DebateState::new(Topic::new("q", "a", "b"), 6);
    for side in [Side::A, Side::B] {
        state.push_turn(
            side,
            "prose".to_string(),
            TurnAnalysis::empty(ParseStatus::Missing),
            Vec::new(),
            Tokens::default(),
            usd(0.0),
        );
    }
    let mut analysis = TurnAnalysis::empty(ParseStatus::Readable);
    analysis.credence = Credence::new(66);
    state.push_turn(
        Side::A,
        "argument".to_string(),
        analysis,
        Vec::new(),
        Tokens::default(),
        usd(0.0),
    );

    let markdown = markdown_of(&state);

    assert!(markdown.contains("| 2 | 66 | - | - |"), "{markdown}");
    assert!(!markdown.contains("| 1 |"), "{markdown}");
    assert!(markdown.contains("- **Model**: server default\n"), "{markdown}");
    assert!(markdown.contains("**Outcome:** did not finish"), "{markdown}");
    assert_eq!(
        caution(&state).as_deref(),
        Some("caution: 2 of 3 turns produced no readable structured block, so the table omits them")
    );
    assert_eq!(caution(&finished_debate()), None);
}

#[test]
fn every_stop_reason_has_its_sentence() {
    let sentences = [
        (StopReason::Converged { gap: 3 }, "confidences converged, 3 points apart"),
        (StopReason::Conceded { side: Side::B }, "Debater B conceded"),
        (StopReason::RoundCap, "round cap reached"),
        (StopReason::CruxIsolated, "both sides named the same crux"),
        (StopReason::NoNewClaims, "a round introduced no new claims"),
        (StopReason::FormatComplete, "the format's rounds finished"),
        (StopReason::Aborted, "stopped by the operator"),
        (
            StopReason::Failed {
                side: Side::A,
                message: "no credit".to_string(),
            },
            "Debater A could not answer: no credit",
        ),
    ];
    for (reason, sentence) in sentences {
        assert_eq!(describe_stop(&Some(reason)), sentence);
    }
}

#[test]
fn the_extension_picks_the_form() {
    assert_eq!(form_for(Some("json")), TranscriptForm::Json);
    assert_eq!(form_for(Some("JSON")), TranscriptForm::Json);
    assert_eq!(form_for(Some("txt")), TranscriptForm::Markdown);
    assert_eq!(form_for(None), TranscriptForm::Markdown);
    assert_eq!(JSON_FILE, "transcript.json");
    assert_eq!(MARKDOWN_FILE, "transcript.md");
}
