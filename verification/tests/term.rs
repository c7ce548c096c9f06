//! Terminal styling.

use coin::debate::state::Side;
use coin::term::{paint, reset, should_colorize, start, Style};

#[test]
fn a_terminal_gets_colour_by_default() {
    assert!(should_colorize(None, None, true));
}

#[test]
fn redirected_output_is_left_plain() {
    // Piping a debate to a file must not embed escape sequences.
    assert!(!should_colorize(None, None, false));
}

#[test]
fn no_color_overrides_a_terminal() {
    assert!(!should_colorize(Some("1"), None, true));
}

#[test]
fn an_empty_no_color_is_ignored() {
    // The convention treats only a non-empty value as set.
    assert!(should_colorize(Some(""), None, true));
}

#[test]
fn clicolor_force_overrides_redirection() {
    assert!(should_colorize(None, Some("1"), false));
}

#[test]
fn no_color_beats_clicolor_force() {
    // Suppression is the safer default when the two conflict.
    assert!(!should_colorize(Some("1"), Some("1"), true));
}

#[test]
fn start_and_reset_agree_with_paint() {
    // The streaming path must render identically to the wrapped path.
    for enabled in [false, true] {
        let combined = format!(
            "{}{}{}",
            start(enabled, Style::SideA),
            "text",
            reset(enabled)
        );
        assert_eq!(combined, paint(enabled, Style::SideA, "text"));
    }
}

#[test]
fn the_two_sides_are_visually_distinct() {
    // The whole point is telling the debaters apart at a glance.
    assert_ne!(
        Style::for_side(Side::A).code(),
        Style::for_side(Side::B).code()
    );
}

#[test]
fn every_style_emits_a_distinct_sequence() {
    let styles = [
        Style::SideA,
        Style::SideB,
        Style::Dim,
        Style::Heading,
        Style::Value,
    ];
    for (index, style) in styles.iter().enumerate() {
        for other in styles.iter().skip(index + 1) {
            assert_ne!(style.code(), other.code(), "{style:?} matches {other:?}");
        }
    }
}

#[test]
fn styled_text_is_wrapped_and_plain_text_is_not() {
    assert_eq!(paint(true, Style::Dim, "x"), "\x1b[2mx\x1b[0m");
    assert_eq!(paint(false, Style::Dim, "plain"), "plain");
    assert_eq!(start(true, Style::SideB), "\x1b[35m");
    assert_eq!(reset(true), "\x1b[0m");
    assert_eq!((start(false, Style::SideB), reset(false)), ("", ""));
}

#[test]
fn only_a_one_forces_colour() {
    assert!(!should_colorize(None, Some("0"), false));
    assert!(!should_colorize(None, Some(""), false));
}
