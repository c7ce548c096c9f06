//! Terminal styling for the command line interface.
//!
//! A debate streams two voices into one terminal, so distinguishing them by
//! colour is what makes the transcript readable as it arrives rather than
//! something to untangle afterwards.
//!
//! Styling is suppressed when output is redirected, so piping a debate to a
//! file or another program yields clean text rather than escape sequences.
//! [`should_colorize`] is that policy; what it decides is passed to everything
//! that styles.

use vstd::prelude::*;

use crate::debate::state::Side;
use crate::text;

verus! {

/// Escape sequence returning the terminal to its default appearance.
pub const RESET: &'static str = "\x1b[0m";

/// A visual role, mapped to an escape sequence.
#[derive(Debug, Clone, Copy, PartialEq, Eq, Structural)]
pub enum Style {
    /// Side A's argument.
    SideA,
    /// Side B's argument.
    SideB,
    /// Supporting detail such as tool invocations.
    Dim,
    /// Section headings.
    Heading,
    /// Values worth picking out, such as a confidence reading.
    Value,
}

/// The escape sequence introducing a style.
pub open spec fn code_of(style: Style) -> Seq<char> {
    match style {
        Style::SideA => "\x1b[36m"@,
        Style::SideB => "\x1b[35m"@,
        Style::Dim => "\x1b[2m"@,
        Style::Heading => "\x1b[1m"@,
        Style::Value => "\x1b[33m"@,
    }
}

/// The style used for a debater's argument.
pub open spec fn style_of(side: Side) -> Style {
    match side {
        Side::A => Style::SideA,
        Side::B => Style::SideB,
    }
}

impl Style {
    /// The escape sequence introducing this style.
    pub fn code(self) -> (r: &'static str)
        ensures
            r@ == code_of(self),
    {
        match self {
            Style::SideA => "\x1b[36m",
            Style::SideB => "\x1b[35m",
            Style::Dim => "\x1b[2m",
            Style::Heading => "\x1b[1m",
            Style::Value => "\x1b[33m",
        }
    }

    /// The style used for a debater's argument.
    pub fn for_side(side: Side) -> (r: Style)
        ensures
            r == style_of(side),
    {
        match side {
            Side::A => Style::SideA,
            Side::B => Style::SideB,
        }
    }
}

/// Decide whether to emit escape sequences, given what `NO_COLOR` and
/// `CLICOLOR_FORCE` are set to and whether output goes to a terminal.
///
/// `NO_COLOR` counts whenever it is present and non-empty, and beats
/// `CLICOLOR_FORCE`, which counts when it is `1`.
pub fn should_colorize(no_color: Option<&str>, force: Option<&str>, is_tty: bool) -> (r: bool)
    ensures
        r == {
            let suppressed = no_color matches Some(v) && v@.len() > 0;
            let forced = force matches Some(v) && v@ == "1"@;
            !suppressed && (forced || is_tty)
        },
{
    if let Some(value) = no_color {
        if !value.is_empty() {
            return false;
        }
    }
    if let Some(value) = force {
        if text::same(value, "1") {
            return true;
        }
    }
    is_tty
}

/// What opens a style: nothing while styling is off.
pub open spec fn opening(enabled: bool, style: Style) -> Seq<char> {
    if enabled {
        code_of(style)
    } else {
        Seq::empty()
    }
}

/// What closes a style: nothing while styling is off.
pub open spec fn closing(enabled: bool) -> Seq<char> {
    if enabled {
        RESET@
    } else {
        Seq::empty()
    }
}

/// A text wrapped in a style, or as it is while styling is off.
pub open spec fn painted(enabled: bool, style: Style, s: Seq<char>) -> Seq<char> {
    if enabled {
        code_of(style) + s + RESET@
    } else {
        s
    }
}

/// Wrap text in a style, or return it unchanged when styling is off.
pub fn paint(enabled: bool, style: Style, text: &str) -> (r: String)
    ensures
        r@ == painted(enabled, style, text@),
{
    if enabled {
        let mut s = style.code().to_owned();
        s.append(text);
        s.append(RESET);
        s
    } else {
        text.to_owned()
    }
}

/// Open a style that later text inherits, without closing it.
///
/// Streamed output arrives one token at a time. Wrapping each fragment with
/// [`paint`] would emit an escape pair per token, bloating the transcript for
/// no visual gain. Opening the style once per turn and closing it with
/// [`reset`] produces the same appearance from two sequences.
pub fn start(enabled: bool, style: Style) -> (r: &'static str)
    ensures
        r@ == opening(enabled, style),
{
    if enabled {
        style.code()
    } else {
        proof {
            reveal_strlit("");
            assert(""@ =~= Seq::<char>::empty());
        }
        ""
    }
}

/// Close any style opened by [`start`].
pub fn reset(enabled: bool) -> (r: &'static str)
    ensures
        r@ == closing(enabled),
{
    if enabled {
        RESET
    } else {
        proof {
            reveal_strlit("");
            assert(""@ =~= Seq::<char>::empty());
        }
        ""
    }
}

/// Opening a style, writing a text, and closing the style renders exactly like
/// wrapping the text.
pub proof fn law_start_and_reset_agree_with_paint(enabled: bool, style: Style, s: Seq<char>)
    ensures
        opening(enabled, style) + s + closing(enabled) == painted(enabled, style, s),
{
    assert(opening(enabled, style) + s + closing(enabled) =~= painted(enabled, style, s));
}

/// No two styles look alike, so the sides can be told apart at a glance.
pub proof fn law_every_style_is_distinct(a: Style, b: Style)
    ensures
        code_of(a) == code_of(b) ==> a == b,
        code_of(style_of(Side::A)) != code_of(style_of(Side::B)),
{
    reveal_strlit("\x1b[36m");
    reveal_strlit("\x1b[35m");
    reveal_strlit("\x1b[2m");
    reveal_strlit("\x1b[1m");
    reveal_strlit("\x1b[33m");
    assert(code_of(Style::SideA)[3] == '6');
    assert(code_of(Style::SideB)[3] == '5');
    assert(code_of(Style::Value)[3] == '3');
    assert(code_of(Style::Dim)[2] == '2');
    assert(code_of(Style::Heading)[2] == '1');
}

/// Redirected output carries no escape sequences at all.
pub proof fn law_plain_output_is_the_text_itself(style: Style, s: Seq<char>)
    ensures
        painted(false, style, s) == s,
        opening(false, style).len() == 0,
        closing(false).len() == 0,
{
}


/// How each role looks, and that a styled text is the text itself between the
/// sequence of its style and the one that ends all styles.
pub proof fn law_a_styled_text_keeps_its_words(style: Style, s: Seq<char>)
    ensures
        code_of(Style::SideA) == "\x1b[36m"@,
        code_of(Style::SideB) == "\x1b[35m"@,
        code_of(Style::Dim) == "\x1b[2m"@,
        code_of(Style::Heading) == "\x1b[1m"@,
        code_of(Style::Value) == "\x1b[33m"@,
        RESET@ == "\x1b[0m"@,
        style_of(Side::A) == Style::SideA,
        style_of(Side::B) == Style::SideB,
        text::occurs_at(painted(true, style, s), s, code_of(style).len() as int),
        painted(true, style, s).take(code_of(style).len() as int) == code_of(style),
        painted(true, style, s).skip((code_of(style).len() + s.len()) as int) == "\x1b[0m"@,
        opening(true, style) == code_of(style),
        closing(true) == "\x1b[0m"@,
{
    let whole = painted(true, style, s);
    let n = code_of(style).len() as int;
    assert(whole.subrange(n, n + s.len()) =~= s);
    assert(whole.take(n) =~= code_of(style));
    assert(whole.skip(n + s.len()) =~= RESET@);
}

} // verus!
