//! The credence-updating format.

use coin::debate::credence::{CredenceFormat, CONVERGENCE_THRESHOLD};
use coin::debate::format::{shared_mandate, DebateFormat, FormatId};
use coin::debate::state::{
    Credence, DebateState, ParseStatus, Side, StopReason, Topic, TurnAnalysis,
};
use coin::opencode::types::{Cost, Tokens};

/// Build a state whose turns carry the given credences, A first.
fn state_with(credences: &[u8]) -> DebateState {
    let mut state = DebateState::new(Topic::new("q", "yes", "no"), 6);
    for (index, value) in credences.iter().enumerate() {
        let side = if index % 2 == 0 { Side::A } else { Side::B };
        let mut analysis = TurnAnalysis::empty(ParseStatus::Readable);
        analysis.credence = Credence::new(*value);
        state.push_turn(
            side,
            format!("argument {index}"),
            analysis,
            Vec::new(),
            Tokens::default(),
            Cost::default(),
        );
    }
    state
}

#[test]
fn converged_confidences_stop_the_debate() {
    // Arrange: A ends at 40 confident in A, B at 55 confident in B. Each
    // side's view of A's position is then 40 and 45: near agreement.
    let state = state_with(&[85, 20, 40, 55]);

    // Act and assert
    assert_eq!(
        CredenceFormat.should_stop(&state),
        Some(StopReason::Converged { gap: 5 })
    );
}

#[test]
fn a_wide_gap_does_not_stop_the_debate() {
    // Arrange: both sides remain confident in their own position, which is
    // the definition of disagreement. 80 + 75 is far from 100.
    let state = state_with(&[85, 80, 80, 75]);

    // Act and assert
    assert_eq!(CredenceFormat.should_stop(&state), None);
}

#[test]
fn one_side_conceding_to_the_other_counts_as_agreement() {
    // Arrange: taken from a real run. A verified the facts, found they
    // contradicted its assigned position, and dropped to 3 while B rose to
    // 99. Both now believe B's position, which is total agreement.
    //
    // Comparing the raw numbers would report a 96 point gap and call this
    // maximum disagreement, at the exact moment the debate had succeeded.
    let state = state_with(&[85, 20, 3, 99]);

    // Act and assert
    assert_eq!(
        CredenceFormat.should_stop(&state),
        Some(StopReason::Converged { gap: 2 })
    );
}

#[test]
fn two_sides_equally_confident_in_opposite_positions_have_not_converged() {
    // Arrange: numerically identical credences, maximum real disagreement.
    // The inverse of the case above, and the reason a naive equality test
    // is wrong in both directions.
    let state = state_with(&[90, 90, 90, 90]);

    // Act and assert
    assert_eq!(CredenceFormat.should_stop(&state), None);
}

#[test]
fn early_agreement_does_not_end_the_debate_in_one_round() {
    // Arrange: both sides agree immediately, which would otherwise produce
    // a debate containing no actual exchange of evidence.
    let state = state_with(&[50, 50]);

    // Act and assert
    assert_eq!(CredenceFormat.should_stop(&state), None);
}

#[test]
fn agreement_counts_once_a_second_round_has_happened() {
    // Arrange: the same agreement, one round later.
    let state = state_with(&[50, 50, 50, 50]);

    // Act and assert
    assert_eq!(
        CredenceFormat.should_stop(&state),
        Some(StopReason::Converged { gap: 0 })
    );
}

#[test]
fn the_threshold_boundary_counts_as_converged() {
    // Arrange: 50 and 65 sum to 115, exactly the threshold away from 100.
    let state = state_with(&[50, 65, 50, 65]);

    // Act and assert
    assert_eq!(
        CredenceFormat.should_stop(&state),
        Some(StopReason::Converged {
            gap: CONVERGENCE_THRESHOLD
        })
    );
}

#[test]
fn one_point_beyond_the_threshold_does_not_converge() {
    // Arrange: 50 and 66 sum to 116, one point too far.
    let state = state_with(&[50, 66, 50, 66]);

    // Act and assert
    assert_eq!(CredenceFormat.should_stop(&state), None);
}

#[test]
fn a_credence_of_zero_is_treated_as_conceding() {
    // Arrange: side B abandons its position outright.
    let state = state_with(&[85, 20, 84, 0]);

    // Act and assert
    assert_eq!(
        CredenceFormat.should_stop(&state),
        Some(StopReason::Conceded { side: Side::B })
    );
}

#[test]
fn a_concession_ends_the_debate_even_in_the_first_round() {
    // Arrange: the minimum-rounds guard must not suppress a real
    // concession, which is a genuine resolution rather than false agreement.
    let state = state_with(&[85, 0]);

    // Act and assert
    assert_eq!(
        CredenceFormat.should_stop(&state),
        Some(StopReason::Conceded { side: Side::B })
    );
}

#[test]
fn missing_credences_never_stop_the_debate() {
    // Arrange: neither side stated a readable confidence.
    let mut state = DebateState::new(Topic::new("q", "yes", "no"), 6);
    for index in 0..4 {
        let side = if index % 2 == 0 { Side::A } else { Side::B };
        state.push_turn(
            side,
            "prose only".into(),
            TurnAnalysis::empty(ParseStatus::Missing),
            Vec::new(),
            Tokens::default(),
            Cost::default(),
        );
    }

    // Act and assert: the round cap will end it instead.
    assert_eq!(CredenceFormat.should_stop(&state), None);
}

#[test]
fn the_opening_prompt_asks_for_a_starting_confidence() {
    // Arrange
    let state = DebateState::new(Topic::new("q", "yes", "no"), 6);

    // Act
    let prompt = CredenceFormat.turn_prompt(&state, Side::A);

    // Assert
    assert!(prompt.contains("Open the debate"));
    assert!(prompt.contains("starting confidence"));
    assert!(prompt.contains("```json"));
}

#[test]
fn later_prompts_quote_the_opponent_and_the_previous_confidence() {
    // Arrange
    let state = state_with(&[85]);

    // Act
    let prompt = CredenceFormat.turn_prompt(&state, Side::B);

    // Assert
    assert!(prompt.contains("DEBATER A JUST ARGUED"));
    assert!(prompt.contains("their confidence: 85"));
    assert!(prompt.contains("argument 0"));
}

#[test]
fn the_system_prompt_pushes_back_on_unchanged_confidence() {
    // Arrange
    let topic = Topic::new("q", "yes", "no");

    // Act
    let prompt = CredenceFormat.system_prompt(Side::A, &topic);

    // Assert: this is the format's main failure mode, so it is called out.
    assert!(prompt.contains("Restating the same number"));
}

#[test]
fn the_whole_prompt_of_a_later_turn() {
    let state = state_with(&[85, 20]);
    let expected = "DEBATER B JUST ARGUED (their confidence: 20)\nargument 1\n\n\
         Round 2. Your previous confidence was 85.\n\n\
         Respond to their argument. Address their strongest point directly \
         rather than the weakest one. Then restate your confidence, and \
         explain what moved it or why nothing did.\n\n\
         End your reply with a fenced json block, and nothing after it:\n\n\
         ```json\n\
         {\n\
         \x20 \"credence\": <integer 0-100>,\n\
         \x20 \"moved_because\": \"<why your confidence changed, or why it did not>\",\n\
         \x20 \"conceded\": [\"<points you now accept>\"],\n\
         \x20 \"key_claim\": \"<the single claim your case most depends on>\"\n\
         }\n\
         ```";
    assert_eq!(CredenceFormat.turn_prompt(&state, Side::A), expected);
}

#[test]
fn a_side_that_stated_nothing_is_told_so() {
    let mut state = state_with(&[85]);
    state.turns[0].analysis.credence = None;
    let prompt = CredenceFormat.turn_prompt(&state, Side::B);
    assert!(prompt.contains("(their confidence: not stated)"), "{prompt}");
    assert!(
        prompt.contains("Your previous confidence was you have not stated one yet."),
        "{prompt}"
    );
}

#[test]
fn the_system_prompt_starts_with_the_mandate() {
    let topic = Topic::new("q", "yes", "no");
    let prompt = CredenceFormat.system_prompt(Side::B, &topic);
    assert!(prompt.starts_with(&shared_mandate(Side::B, &topic)));
    assert!(prompt.ends_with("who converge on the truth have both succeeded."));
    assert_eq!(CredenceFormat.id(), FormatId::Credence);
}
