//! The debate formats and the mandate they share.

use coin::debate::format::{shared_mandate, unknown_format, FormatId};
use coin::debate::format_for;
use coin::debate::state::{Side, Topic};

#[test]
fn format_slugs_round_trip_through_parsing() {
    // Act and assert
    for format in FormatId::ALL {
        let parsed: FormatId = format
            .slug()
            .parse()
            .expect("every slug must parse back to its format");
        assert_eq!(parsed, format);
    }
}

#[test]
fn format_parsing_is_case_insensitive() {
    // Act and assert
    assert_eq!("CREDENCE".parse::<FormatId>(), Ok(FormatId::Credence));
}

#[test]
fn an_unknown_format_lists_the_valid_ones() {
    // Act
    let error = "socratic".parse::<FormatId>().expect_err("must reject");

    // Assert: the message has to be actionable at a CLI.
    assert!(error.contains("credence"), "got {error}");
    assert!(error.contains("socratic"), "got {error}");
}

#[test]
fn the_mandate_names_both_positions_and_forbids_fabrication() {
    // Arrange
    let topic = Topic::new("Is X true?", "X is true", "X is false");

    // Act
    let prompt = shared_mandate(Side::A, &topic);

    // Assert
    assert!(prompt.contains("X is true"));
    assert!(prompt.contains("X is false"));
    assert!(prompt.contains("Never manufacture"));
}

#[test]
fn the_mandate_gives_each_side_its_own_position() {
    // Arrange
    let topic = Topic::new("q", "first case", "second case");

    // Act
    let for_a = shared_mandate(Side::A, &topic);
    let for_b = shared_mandate(Side::B, &topic);

    // Assert: the assigned position appears before the opposing one.
    let a_yours = for_a.find("first case").expect("A must see its position");
    let a_theirs = for_a
        .find("second case")
        .expect("A must see the opposition");
    assert!(a_yours < a_theirs);

    let b_yours = for_b.find("second case").expect("B must see its position");
    let b_theirs = for_b.find("first case").expect("B must see the opposition");
    assert!(b_yours < b_theirs);
}

#[test]
fn the_complaint_quotes_the_name_and_lists_the_formats() {
    assert_eq!(
        FormatId::parse("so\"c\n").expect_err("must reject"),
        "unknown format \"so\\\"c\\n\"; expected one of crux, credence, classic, ledger"
    );
    assert_eq!(
        unknown_format("X"),
        "unknown format X; expected one of crux, credence, classic, ledger"
    );
}

#[test]
fn only_the_credence_format_is_built() {
    for id in FormatId::ALL {
        match format_for(id) {
            Some(format) => {
                assert_eq!(id, FormatId::Credence);
                assert_eq!(format.id(), id);
            }
            None => assert_ne!(id, FormatId::Credence),
        }
    }
}

#[test]
fn every_format_says_how_it_ends() {
    let endings: Vec<&str> = FormatId::ALL.iter().map(|id| id.stop_description()).collect();
    assert_eq!(
        endings,
        vec![
            "both sides name the same crux",
            "stated confidences converge",
            "after closing statements",
            "a round introduces no new claims"
        ]
    );
    assert_eq!(FormatId::Ledger.to_string(), "ledger");
}

#[test]
fn the_whole_mandate_of_a_side() {
    let topic = Topic::new("Q", "P", "R");
    let expected = "You are Debater B in a structured debate.\n\n\
         QUESTION UNDER DISPUTE\nQ\n\n\
         YOUR ASSIGNED POSITION\nR\n\n\
         THE OPPOSING POSITION\nP\n\n\
         YOUR ACTUAL GOAL\n\
         This is not a contest. The goal is to determine what is actually true. \
         You have been assigned a position to argue, but you are not required to \
         defend it past the point where the evidence stops supporting it.\n\n\
         Rules that matter more than winning:\n\
         - Conceding a point you cannot support is a success, not a loss.\n\
         - If the evidence turns against your assigned position, say so plainly.\n\
         - Never manufacture evidence, statistics, citations, or quotations.\n\
         - Attack the strongest version of the opposing case, not a weak one.\n\
         - Distinguish what you know from what you are inferring.\n\
         - You have tools available. Use them to check claims rather than \
         asserting from memory. A verified fact outranks a confident assertion, \
         including your own.\n\n\
         Write in plain prose. Be concise: a few short paragraphs at most. Do \
         not use headings or bullet lists.";
    assert_eq!(shared_mandate(Side::B, &topic), expected);
}
