//! The record of a debate and what is read off it.

use coin::debate::state::{
    Credence, DebateState, ParseStatus, Side, Topic, TurnAnalysis, Usage,
};
use coin::opencode::types::{Cost, Tokens, ToolCall};

/// An amount of money.
fn usd(amount: f64) -> Cost {
    Cost { bits: amount.to_bits() }
}

/// What a list of amounts adds up to.
fn total(costs: &[Cost]) -> f64 {
    costs.iter().fold(0.0, |sum, cost| sum + f64::from_bits(cost.bits))
}

/// Build a state with the given credences applied in turn order.
fn state_with_credences(values: &[Option<u8>]) -> DebateState {
    let mut state = DebateState::new(Topic::new("q", "a", "b"), 6);
    for (index, value) in values.iter().enumerate() {
        let side = if index % 2 == 0 { Side::A } else { Side::B };
        let status = if value.is_some() {
            ParseStatus::Readable
        } else {
            ParseStatus::Missing
        };
        let mut analysis = TurnAnalysis::empty(status);
        analysis.credence = value.and_then(Credence::new);
        state.push_turn(
            side,
            format!("turn {index}"),
            analysis,
            Vec::new(),
            Tokens::default(),
            usd(0.001),
        );
    }
    state
}

#[test]
fn side_a_opens_and_sides_alternate() {
    // Arrange
    let mut state = DebateState::new(Topic::new("q", "a", "b"), 6);

    // Act and assert
    assert_eq!(state.next_side(), Side::A);
    state.push_turn(
        Side::A,
        "x".into(),
        TurnAnalysis::empty(ParseStatus::Readable),
        Vec::new(),
        Tokens::default(),
        usd(0.0),
    );
    assert_eq!(state.next_side(), Side::B);
}

#[test]
fn a_round_is_one_turn_from_each_side() {
    // Arrange: three turns means one complete round and a second in flight.
    let state = state_with_credences(&[Some(80), Some(20), Some(70)]);

    // Assert
    assert_eq!(state.completed_rounds(), 1);
    assert_eq!(state.current_round(), 2);
    assert_eq!(state.turns[0].round, 1);
    assert_eq!(state.turns[1].round, 1);
    assert_eq!(state.turns[2].round, 2);
}

#[test]
fn latest_credence_skips_turns_that_stated_none() {
    // Arrange: side A's most recent turn carries no credence.
    let state = state_with_credences(&[Some(80), Some(20), None, Some(35)]);

    // Act and assert: it falls back to the last one that did.
    assert_eq!(
        state.latest_credence(Side::A).map(Credence::value),
        Some(80)
    );
    assert_eq!(
        state.latest_credence(Side::B).map(Credence::value),
        Some(35)
    );
}

#[test]
fn credence_series_preserves_order_for_charting() {
    // Arrange
    let state = state_with_credences(&[Some(85), Some(20), Some(71), Some(52)]);

    // Act
    let series: Vec<(usize, u8)> = state
        .credence_series(Side::A)
        .iter()
        .map(|(round, credence)| (*round, credence.value()))
        .collect();

    // Assert
    assert_eq!(series, vec![(1, 85), (2, 71)]);
}

#[test]
fn credence_series_reports_the_round_a_reading_came_from() {
    // Arrange: a long debate where only the later turns parsed, which is
    // what a six round debate yielding two readings looks like.
    let state = state_with_credences(&[None, None, None, None, Some(66), Some(48)]);

    // Act
    let series = state.credence_series(Side::A);

    // Assert: the single reading is from round 3, not round 1. Labelling
    // by position would have reported it as the first round.
    assert_eq!(series.len(), 1);
    assert_eq!(series[0].0, 3);
    assert_eq!(series[0].1.value(), 66);
}

#[test]
fn credence_rounds_pairs_the_sides_by_round() {
    // Arrange
    let state = state_with_credences(&[Some(72), Some(60), Some(66), Some(48)]);

    // Act
    let rows = state.credence_rounds();

    // Assert
    assert_eq!(rows.len(), 2);
    assert_eq!(rows[0].round, 1);
    assert_eq!(rows[0].a.map(Credence::value), Some(72));
    assert_eq!(rows[0].b.map(Credence::value), Some(60));
    assert_eq!(rows[0].gap(), Some(32));
    assert_eq!(rows[1].gap(), Some(14));
}

#[test]
fn credence_rounds_skips_rounds_where_neither_side_parsed() {
    // Arrange: rounds 1 and 2 unreadable, round 3 fine.
    let state = state_with_credences(&[None, None, None, None, Some(66), Some(48)]);

    // Act
    let rows = state.credence_rounds();

    // Assert: one row, correctly labelled round 3.
    assert_eq!(rows.len(), 1);
    assert_eq!(rows[0].round, 3);
}

#[test]
fn credence_rounds_leaves_a_gap_absent_when_one_side_is_missing() {
    // Arrange: only A stated a confidence this round.
    let state = state_with_credences(&[Some(70), None]);

    // Act
    let rows = state.credence_rounds();

    // Assert
    assert_eq!(rows.len(), 1);
    assert_eq!(rows[0].b, None);
    assert_eq!(rows[0].gap(), None);
}

#[test]
fn unreadable_turns_are_counted() {
    // Arrange: four of six turns produced no readable block.
    let state = state_with_credences(&[None, None, None, None, Some(66), Some(48)]);

    // Act and assert
    assert_eq!(state.unreadable_turns(), 4);
}

#[test]
fn credence_rejects_values_above_one_hundred() {
    // Act and assert
    assert!(Credence::new(100).is_some());
    assert!(Credence::new(101).is_none());
}

#[test]
fn credence_clamps_out_of_range_model_output() {
    // Arrange: models occasionally emit values outside the range.
    // Act and assert
    assert_eq!(Credence::clamped(-5).value(), 0);
    assert_eq!(Credence::clamped(140).value(), 100);
    assert_eq!(Credence::clamped(64).value(), 64);
}

#[test]
fn agreement_gap_treats_opposite_confidences_as_agreement() {
    // Arrange: A abandons its position, B is sure of its own. Both now
    // believe the same thing.
    let a = Credence::clamped(3);
    let b = Credence::clamped(99);

    // Act and assert: the raw difference is 96, which would report maximum
    // disagreement at the moment the debate actually succeeded.
    assert_eq!(Credence::agreement_gap(a, b), 2);
    assert_eq!(a.distance(b), 96);
}

#[test]
fn agreement_gap_treats_matching_confidences_as_disagreement() {
    // Arrange: both certain of opposing positions.
    let a = Credence::clamped(90);
    let b = Credence::clamped(90);

    // Act and assert: identical numbers, total disagreement.
    assert_eq!(Credence::agreement_gap(a, b), 80);
    assert_eq!(a.distance(b), 0);
}

#[test]
fn agreement_gap_is_symmetric() {
    // Arrange
    let a = Credence::clamped(30);
    let b = Credence::clamped(55);

    // Act and assert
    assert_eq!(Credence::agreement_gap(a, b), Credence::agreement_gap(b, a));
}

#[test]
fn agreement_gap_is_zero_when_the_pair_sums_to_one_hundred() {
    // Arrange and act and assert
    for value in [0u8, 25, 50, 75, 100] {
        let a = Credence::clamped(i64::from(value));
        let b = Credence::clamped(i64::from(100 - value));
        assert_eq!(Credence::agreement_gap(a, b), 0, "failed at {value}");
    }
}

#[test]
fn credence_distance_is_symmetric() {
    // Arrange
    let low = Credence::clamped(20);
    let high = Credence::clamped(85);

    // Act and assert
    assert_eq!(low.distance(high), 65);
    assert_eq!(high.distance(low), 65);
}

#[test]
fn movement_spans_the_first_and_last_readable_readings() {
    // Arrange: A opens at 80 and ends at 70, B opens at 20 and ends at 35.
    let state = state_with_credences(&[Some(80), Some(20), Some(70), Some(35)]);

    // Act
    let a = state.movement(Side::A).expect("A stated confidences");
    let b = state.movement(Side::B).expect("B stated confidences");

    // Assert: the sign carries the direction, which is the point.
    assert_eq!((a.opened.value(), a.closed.value()), (80, 70));
    assert_eq!(a.delta(), -10);
    assert_eq!(b.delta(), 15);
    assert_eq!(a.readings, 2);
}

#[test]
fn movement_skips_turns_whose_structure_was_unreadable() {
    // Arrange: A states 90, then a turn that could not be read, then 40.
    // Counting the unreadable turn as unchanged would invent a steadiness
    // the side never expressed.
    let state = state_with_credences(&[Some(90), None, None, None, Some(40), None]);

    // Act
    let a = state.movement(Side::A).expect("A stated confidences");

    // Assert
    assert_eq!(a.delta(), -50);
    assert_eq!(a.readings, 2, "the unreadable turn must not count");
}

#[test]
fn a_side_that_never_stated_a_confidence_has_no_movement() {
    // Arrange
    let state = state_with_credences(&[None, None]);

    // Act and assert
    assert!(state.movement(Side::A).is_none());
}

#[test]
fn a_single_reading_is_reported_as_one_rather_than_as_no_change() {
    // Arrange: one readable turn. Delta is zero, but that is unknown
    // movement, not a side holding firm, so the count says which.
    let state = state_with_credences(&[Some(65), None]);

    // Act
    let a = state.movement(Side::A).expect("A stated one confidence");

    // Assert
    assert_eq!(a.readings, 1);
    assert_eq!(a.delta(), 0);
}

#[test]
fn concessions_are_gathered_in_order_with_their_side_and_round() {
    // Arrange
    let mut state = DebateState::new(Topic::new("q", "a", "b"), 3);
    let mut first = TurnAnalysis::empty(ParseStatus::Readable);
    first.conceded = vec!["the 2019 figure was superseded".into(), "   ".into()];
    let mut second = TurnAnalysis::empty(ParseStatus::Readable);
    second.conceded = vec!["  the effect size is smaller  ".into()];

    for (side, analysis) in [(Side::A, first), (Side::B, second)] {
        state.push_turn(
            side,
            "argument".into(),
            analysis,
            Vec::new(),
            Tokens::default(),
            usd(0.0),
        );
    }

    // Act
    let conceded = state.concessions();

    // Assert: blank entries are dropped and text is trimmed.
    assert_eq!(conceded.len(), 2);
    assert_eq!(conceded[0].side, Side::A);
    assert_eq!(conceded[0].round, 1);
    assert_eq!(conceded[0].text, "the 2019 figure was superseded");
    assert_eq!(conceded[1].text, "the effect size is smaller");
}

#[test]
fn the_key_claim_is_the_last_one_a_side_stated() {
    // Arrange: a side that revised what its argument depends on has told
    // us something, and the closing position is the one that survived.
    let mut state = DebateState::new(Topic::new("q", "a", "b"), 3);
    for claim in ["the first thing", "the thing it settled on"] {
        let mut analysis = TurnAnalysis::empty(ParseStatus::Readable);
        analysis.key_claim = Some(claim.to_string());
        state.push_turn(
            Side::A,
            "argument".into(),
            analysis,
            Vec::new(),
            Tokens::default(),
            usd(0.0),
        );
    }

    // Act and assert
    assert_eq!(state.key_claim(Side::A), Some("the thing it settled on"));
    assert_eq!(state.key_claim(Side::B), None);
}

#[test]
fn tools_are_tallied_most_used_first() {
    // Arrange
    let mut state = DebateState::new(Topic::new("q", "a", "b"), 3);
    let call = |tool: &str| ToolCall {
        tool: tool.to_string(),
        status: "completed".to_string(),
        detail: String::new(),
    };
    state.push_turn(
        Side::A,
        "argument".into(),
        TurnAnalysis::empty(ParseStatus::Readable),
        vec![call("websearch"), call("bash"), call("websearch")],
        Tokens::default(),
        usd(0.0),
    );
    state.push_turn(
        Side::B,
        "argument".into(),
        TurnAnalysis::empty(ParseStatus::Readable),
        vec![call("websearch"), call("read")],
        Tokens::default(),
        usd(0.0),
    );

    // Act
    assert!(state.can_tally());
    let tally = state.tool_tally();

    // Assert: ties break by name so the order is stable across runs.
    assert_eq!(tally, vec![("websearch", 3), ("bash", 1), ("read", 1)]);
}

#[test]
fn totals_accumulate_across_turns() {
    // Arrange: four turns at a tenth of a cent each.
    let state = state_with_credences(&[Some(80), Some(20), Some(70), Some(35)]);

    // Act
    let usage = state.usage();

    // Act and assert
    assert_eq!(usage.turns, 4);
    assert!((total(&usage.costs) - 0.004).abs() < 1e-9);
}

#[test]
fn usage_splits_by_side() {
    // Arrange: turns alternate from A, so four turns is two each.
    let state = state_with_credences(&[Some(80), Some(20), Some(70), Some(35)]);

    // Act
    let (a, b) = (state.usage_for(Side::A), state.usage_for(Side::B));

    // Assert: the halves must account for the whole, or the split is
    // dropping or double counting turns.
    assert_eq!(a.turns, 2);
    assert_eq!(b.turns, 2);
    assert!((total(&a.costs) + total(&b.costs) - total(&state.usage().costs)).abs() < 1e-9);
}

#[test]
fn usage_of_a_debate_with_no_turns_is_zero() {
    // Arrange: a debate that failed before either side spoke.
    let state = DebateState::new(Topic::new("q", "a", "b"), 3);

    // Act and assert
    assert_eq!(state.usage(), Usage::default());
    assert_eq!(state.usage_for(Side::A).turns, 0);
}

#[test]
fn reasoning_tokens_are_counted_separately_from_output() {
    // Arrange: a thinking model bills reasoning apart from output, so
    // folding the two together would understate what it produced.
    let mut state = DebateState::new(Topic::new("q", "a", "b"), 3);
    state.push_turn(
        Side::A,
        "argument".into(),
        TurnAnalysis::empty(ParseStatus::Readable),
        Vec::new(),
        Tokens {
            input: 100,
            output: 20,
            reasoning: 500,
        },
        usd(0.001),
    );

    // Act
    let usage = state.usage();

    // Assert
    assert_eq!(usage.tokens.output, 20);
    assert_eq!(usage.tokens.reasoning, 500);
}

#[test]
fn side_other_is_an_involution() {
    // Guards against a typo swapping only one direction.
    assert_eq!(Side::A.other(), Side::B);
    assert_eq!(Side::B.other(), Side::A);
    assert_eq!(Side::A.other().other(), Side::A);
}

#[test]
fn topic_returns_the_position_for_each_side() {
    // Arrange
    let topic = Topic::new("q", "case for", "case against");

    // Act and assert
    assert_eq!(topic.position(Side::A), "case for");
    assert_eq!(topic.position(Side::B), "case against");
}

#[test]
fn a_tally_counts_every_call_and_orders_names_by_their_letters() {
    let mut state = DebateState::new(Topic::new("q", "a", "b"), 3);
    let calls = ["b", "a", "c", "B", "c"]
        .iter()
        .map(|tool| ToolCall {
            tool: tool.to_string(),
            status: String::new(),
            detail: String::new(),
        })
        .collect();
    state.push_turn(
        Side::A,
        String::new(),
        TurnAnalysis::empty(ParseStatus::Readable),
        calls,
        Tokens::default(),
        usd(0.0),
    );
    assert_eq!(
        state.tool_tally(),
        vec![("c", 2), ("B", 1), ("a", 1), ("b", 1)]
    );
    assert!(DebateState::new(Topic::new("q", "a", "b"), 3).tool_tally().is_empty());
}

#[test]
fn a_blank_key_claim_does_not_hide_an_earlier_one() {
    let mut state = DebateState::new(Topic::new("q", "a", "b"), 3);
    for claim in ["first", " stated ", "  "] {
        let mut analysis = TurnAnalysis::empty(ParseStatus::Readable);
        analysis.key_claim = Some(claim.to_string());
        state.push_turn(
            Side::A,
            String::new(),
            analysis,
            Vec::new(),
            Tokens::default(),
            usd(0.0),
        );
    }
    assert_eq!(state.key_claim(Side::A), Some("stated"));
}

#[test]
fn labels_and_letters() {
    assert_eq!((Side::A.label(), Side::B.label()), ("a", "b"));
    assert_eq!((Side::A.to_string(), Side::B.to_string()), ("A".to_string(), "B".to_string()));
    assert_eq!(Credence::clamped(7).to_string(), "7");
}

#[test]
fn a_malformed_block_is_not_readable() {
    assert!(ParseStatus::Readable.is_ok());
    assert!(!ParseStatus::Missing.is_ok());
    assert!(!ParseStatus::Malformed { reason: "x".to_string() }.is_ok());
}
