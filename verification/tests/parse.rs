//! Extraction of the structured block a turn ends with.

use coin::debate::parse::{
    block_text, find_last_opening_fence, parse_turn, strip_structured_block, RawClaim,
    StructuredBlock,
};
use coin::debate::state::{ClaimKind, Credence, ParseStatus, TurnAnalysis};

/// An optional text of a block.
fn text_field(value: &serde_json::Value, name: &str) -> Result<Option<String>, String> {
    match value.get(name) {
        None | Some(serde_json::Value::Null) => Ok(None),
        Some(serde_json::Value::String(text)) => Ok(Some(text.clone())),
        Some(other) => Err(format!("{name} is not a string: {other}")),
    }
}

/// A list of a block.
fn list_field(value: &serde_json::Value, name: &str) -> Result<Vec<serde_json::Value>, String> {
    match value.get(name) {
        None => Ok(Vec::new()),
        Some(serde_json::Value::Array(items)) => Ok(items.clone()),
        Some(other) => Err(format!("{name} is not a list: {other}")),
    }
}

/// Read the text of a block as JSON.
fn decode(text: &str) -> Result<StructuredBlock, String> {
    let value: serde_json::Value = serde_json::from_str(text).map_err(|e| e.to_string())?;
    if !value.is_object() {
        return Err(format!("not an object: {value}"));
    }
    let credence = match value.get("credence") {
        None | Some(serde_json::Value::Null) => None,
        Some(number) => Some(number.as_i64().ok_or("credence is not an integer".to_string())?),
    };
    let mut conceded = Vec::new();
    for item in list_field(&value, "conceded")? {
        conceded.push(item.as_str().ok_or("a point is not a string")?.to_string());
    }
    let mut claims = Vec::new();
    for item in list_field(&value, "claims")? {
        claims.push(RawClaim {
            text: text_field(&item, "text")?.unwrap_or_default(),
            kind: text_field(&item, "kind")?.unwrap_or_default(),
        });
    }
    Ok(StructuredBlock {
        credence,
        moved_because: text_field(&value, "moved_because")?,
        conceded,
        key_claim: text_field(&value, "key_claim")?,
        crux: text_field(&value, "crux")?,
        claims,
    })
}

/// Read a reply's block, then split the reply.
fn read_turn(raw: &str) -> (String, TurnAnalysis) {
    let decoded = match block_text(raw) {
        Some(text) => decode(&text),
        None => Err("there is no block".to_string()),
    };
    parse_turn(raw, decoded)
}

#[test]
fn parses_a_well_formed_block() {
    // Arrange
    let raw = "The data supports my position.\n\n```json\n\
               {\"credence\": 64, \"moved_because\": \"new figure\"}\n```";

    // Act
    let (prose, analysis) = read_turn(raw);

    // Assert
    assert_eq!(prose, "The data supports my position.");
    assert_eq!(analysis.credence.map(Credence::value), Some(64));
    assert_eq!(analysis.moved_because.as_deref(), Some("new figure"));
    assert!(analysis.parse_status.is_ok());
}

#[test]
fn a_missing_block_degrades_to_prose_only() {
    // Arrange: the model ignored the format instruction entirely.
    let raw = "I simply disagree, and here is why.";

    // Act
    let (prose, analysis) = read_turn(raw);

    // Assert: the turn survives, flagged rather than failed.
    assert_eq!(prose, "I simply disagree, and here is why.");
    assert_eq!(analysis.parse_status, ParseStatus::Missing);
    assert!(analysis.credence.is_none());
}

#[test]
fn a_malformed_block_keeps_the_prose_and_records_why() {
    // Arrange: a trailing comma, which models emit routinely.
    let raw = "My case.\n```json\n{\"credence\": 64,}\n```";

    // Act
    let (prose, analysis) = read_turn(raw);

    // Assert
    assert_eq!(prose, "My case.");
    assert!(matches!(
        analysis.parse_status,
        ParseStatus::Malformed { .. }
    ));
}

#[test]
fn accepts_an_unlabelled_fence() {
    // Arrange: models frequently omit the language tag.
    let raw = "My case.\n```\n{\"credence\": 40}\n```";

    // Act
    let (_, analysis) = read_turn(raw);

    // Assert
    assert_eq!(analysis.credence.map(Credence::value), Some(40));
}

#[test]
fn takes_the_last_block_when_the_argument_contains_an_example() {
    // Arrange: an illustrative block mid-argument, the real one at the end.
    let raw = "Consider this:\n```json\n{\"credence\": 99}\n```\n\
               That was an example. My actual position:\n\
               ```json\n{\"credence\": 30}\n```";

    // Act
    let (_, analysis) = read_turn(raw);

    // Assert
    assert_eq!(analysis.credence.map(Credence::value), Some(30));
}

#[test]
fn recovers_from_an_unterminated_fence() {
    // Arrange: the model stopped before closing the block.
    let raw = "My case.\n```json\n{\"credence\": 55}";

    // Act
    let (prose, analysis) = read_turn(raw);

    // Assert
    assert_eq!(prose, "My case.");
    assert_eq!(analysis.credence.map(Credence::value), Some(55));
}

#[test]
fn clamps_an_out_of_range_credence() {
    // Arrange: 150 is not a confidence, but the turn is still usable.
    let raw = "```json\n{\"credence\": 150}\n```";

    // Act
    let (_, analysis) = read_turn(raw);

    // Assert
    assert_eq!(analysis.credence.map(Credence::value), Some(100));
}

#[test]
fn a_negative_credence_clamps_to_zero() {
    // Arrange
    let raw = "```json\n{\"credence\": -20}\n```";

    // Act
    let (_, analysis) = read_turn(raw);

    // Assert
    assert_eq!(analysis.credence.map(Credence::value), Some(0));
}

#[test]
fn unknown_fields_do_not_prevent_parsing() {
    // Arrange: a model volunteering extra structure must not break the turn.
    let raw = "```json\n{\"credence\": 50, \"mood\": \"confident\"}\n```";

    // Act
    let (_, analysis) = read_turn(raw);

    // Assert
    assert!(analysis.parse_status.is_ok());
    assert_eq!(analysis.credence.map(Credence::value), Some(50));
}

#[test]
fn a_block_absent_of_known_fields_still_parses() {
    // Arrange: one format's block lacks another format's fields.
    let raw = "```json\n{\"claims\": []}\n```";

    // Act
    let (_, analysis) = read_turn(raw);

    // Assert
    assert!(analysis.parse_status.is_ok());
    assert!(analysis.credence.is_none());
}

#[test]
fn claims_map_their_kind_and_drop_empty_text() {
    // Arrange
    let raw = "```json\n{\"claims\": [\
               {\"text\": \"inflation rose\", \"kind\": \"agreed\"},\
               {\"text\": \"cause was fiscal\", \"kind\": \"DISPUTED\"},\
               {\"text\": \"effect size\", \"kind\": \"nonsense\"},\
               {\"text\": \"   \", \"kind\": \"agreed\"}]}\n```";

    // Act
    let (_, analysis) = read_turn(raw);

    // Assert: kind matching is case insensitive, unknown kinds become
    // unresolved rather than being discarded, and blank claims are dropped.
    assert_eq!(analysis.claims.len(), 3);
    assert_eq!(analysis.claims[0].kind, ClaimKind::Agreed);
    assert_eq!(analysis.claims[1].kind, ClaimKind::Disputed);
    assert_eq!(analysis.claims[2].kind, ClaimKind::Unresolved);
}

#[test]
fn strips_the_block_but_keeps_multi_paragraph_prose() {
    // Arrange
    let raw = "First paragraph.\n\nSecond paragraph.\n\n```json\n{}\n```";

    // Act
    let prose = strip_structured_block(raw);

    // Assert
    assert_eq!(prose, "First paragraph.\n\nSecond paragraph.");
}

#[test]
fn prose_without_any_fence_is_returned_intact() {
    // Arrange
    let raw = "  Just an argument.  ";

    // Act and assert
    assert_eq!(strip_structured_block(raw), "Just an argument.");
}

#[test]
fn an_empty_reply_does_not_panic() {
    // Arrange: an aborted or empty turn must be handled, not crash.
    let (prose, analysis) = read_turn("");

    // Assert
    assert_eq!(prose, "");
    assert_eq!(analysis.parse_status, ParseStatus::Missing);
}

#[test]
fn a_bare_fence_with_no_body_does_not_panic() {
    // Arrange
    let (_, analysis) = read_turn("```");

    // Assert
    assert!(!analysis.parse_status.is_ok());
}

#[test]
fn the_reason_a_block_cannot_be_read_is_kept() {
    let raw = "My case.\n```json\nnot json\n```";
    let (prose, analysis) = parse_turn(raw, Err("expected value".to_string()));
    assert_eq!(prose, "My case.");
    assert_eq!(
        analysis.parse_status,
        ParseStatus::Malformed { reason: "expected value".to_string() }
    );
}

#[test]
fn fields_count_for_nothing_without_a_block() {
    let decoded = Ok(StructuredBlock { credence: Some(50), ..StructuredBlock::default() });
    let (_, analysis) = parse_turn("no fence at all", decoded);
    assert_eq!(analysis, TurnAnalysis::empty(ParseStatus::Missing));
}

#[test]
fn the_text_to_read_is_the_last_body_without_white_space() {
    assert_eq!(block_text("a ```json\n\n {} \n``` b").as_deref(), Some("{}"));
    assert_eq!(block_text("a ```json\n1\n``` b ```\n2").as_deref(), Some("2"));
    assert_eq!(block_text("a ```json"), None);
    assert_eq!(block_text("a `` b"), None);
    assert_eq!(block_text("```\n```").as_deref(), Some(""));
}

#[test]
fn an_example_block_stays_in_the_prose() {
    let raw = "Consider:\n```\n1\n```\nSo:\n```json\n{}\n```\n";
    assert_eq!(strip_structured_block(raw), "Consider:\n```\n1\n```\nSo:");
}

#[test]
fn a_fence_within_a_line_swallows_what_follows_it() {
    // The first fence opens on its line, so the block runs on to the next one,
    // which is the fence that was meant to open the real block.
    let raw = "inline ```x``` code\nprose\n```json\n{}\n```";
    assert_eq!(block_text(raw).as_deref(), Some("prose"));
}

#[test]
fn wide_characters_shift_the_fence_but_not_the_prose() {
    let raw = "Caf\u{e9} \u{1f600}\n```json\n{\"credence\": 1}\n```";
    assert_eq!(find_last_opening_fence(raw), Some(11));
    assert_eq!(find_last_opening_fence(raw), raw.find("```"));
    let (prose, analysis) = read_turn(raw);
    assert_eq!(prose, "Caf\u{e9} \u{1f600}");
    assert_eq!(analysis.credence.map(Credence::value), Some(1));
}

#[test]
fn the_opening_fence_is_indexed_in_bytes() {
    assert_eq!(find_last_opening_fence("no fence"), None);
    assert_eq!(find_last_opening_fence("```"), Some(0));
    assert_eq!(find_last_opening_fence("\u{20ac}```"), Some(3));
    // Pairs: the second to last of four opens the final block.
    let raw = "\u{e9}\n```\n1\n```\n\u{20ac}\n```\n2\n```";
    let at = find_last_opening_fence(raw).expect("there are fences");
    assert_eq!(at, 17);
    assert!(raw.is_char_boundary(at));
    assert_eq!(&raw[at..], "```\n2\n```");
    // Three: the last one is open.
    assert_eq!(find_last_opening_fence("\u{e9}\n```\n1\n```\n```\n2"), Some(13));
}

#[test]
fn every_field_reaches_the_analysis() {
    let raw = "x\n```json\n{\"credence\": 5, \"moved_because\": \"m\", \"conceded\": [\"c\", \" \"], \
               \"key_claim\": \"k\", \"crux\": \"r\", \
               \"claims\": [{\"text\": \" t \", \"kind\": \"Agreed\"}]}\n```";
    let (_, analysis) = read_turn(raw);
    assert_eq!(analysis.moved_because.as_deref(), Some("m"));
    assert_eq!(analysis.conceded, vec!["c", " "]);
    assert_eq!(analysis.key_claim.as_deref(), Some("k"));
    assert_eq!(analysis.crux.as_deref(), Some("r"));
    assert_eq!(analysis.claims.len(), 1);
    assert_eq!(analysis.claims[0].text, " t ");
    assert_eq!(analysis.claims[0].kind, ClaimKind::Agreed);
}
