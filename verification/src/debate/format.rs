//! The debate format abstraction.
//!
//! Format is chosen per debate rather than fixed, because the right structure
//! depends on the question: an empirical dispute with a checkable answer wants
//! credence tracking, a definitional one wants classic rounds. Each format
//! implements [`DebateFormat`], so adding a fifth is purely additive.

use vstd::prelude::*;

use crate::debate::parse::StructuredBlock;
use crate::debate::state::{
    self, AnalysisView, DebateState, Side, StateView, StopReason, StopView, Topic, TopicView,
    TurnAnalysis,
};
use crate::text;

verus! {

/// Which format a debate is running.
#[derive(Debug, Clone, Copy, PartialEq, Eq, Structural)]
pub enum FormatId {
    /// Narrow toward the single load-bearing disagreement.
    Crux,
    /// Track and justify a stated confidence each turn.
    Credence,
    /// Opening, rebuttal, cross-examination, closing.
    Classic,
    /// Accumulate claims into a shared ledger.
    Ledger,
}

/// The identifier of a format.
pub open spec fn slug_of(id: FormatId) -> Seq<char> {
    match id {
        FormatId::Crux => "crux"@,
        FormatId::Credence => "credence"@,
        FormatId::Classic => "classic"@,
        FormatId::Ledger => "ledger"@,
    }
}

/// How a format ends.
pub open spec fn ending_of(id: FormatId) -> Seq<char> {
    match id {
        FormatId::Crux => "both sides name the same crux"@,
        FormatId::Credence => "stated confidences converge"@,
        FormatId::Classic => "after closing statements"@,
        FormatId::Ledger => "a round introduces no new claims"@,
    }
}

/// The identifiers of all formats.
pub open spec fn slugs() -> Seq<Seq<char>> {
    FormatId::ALL@.map_values(|id: FormatId| slug_of(id))
}

/// The format that a text names, whatever the case of its letters.
pub open spec fn format_named(s: Seq<char>) -> Option<FormatId> {
    if text::same_ignoring_case(s, slug_of(FormatId::Crux)) {
        Some(FormatId::Crux)
    } else if text::same_ignoring_case(s, slug_of(FormatId::Credence)) {
        Some(FormatId::Credence)
    } else if text::same_ignoring_case(s, slug_of(FormatId::Classic)) {
        Some(FormatId::Classic)
    } else if text::same_ignoring_case(s, slug_of(FormatId::Ledger)) {
        Some(FormatId::Ledger)
    } else {
        None
    }
}

/// What is reported of a name that no format has, given the name in quotes.
pub open spec fn format_complaint(quoted: Seq<char>) -> Seq<char> {
    "unknown format "@ + quoted + "; expected one of "@ + text::joined(slugs(), ", "@)
}

/// A text in quotes, with what cannot stand in a string literal escaped, as
/// `Debug` writes it.
pub uninterp spec fn debug_text(s: Seq<char>) -> Seq<char>;

/// Writes a text as `<str as Debug>::fmt` does. Trusted: what is written
/// depends on the text alone, and is named [`debug_text`].
#[verifier::external_body]
fn quoted(value: &str) -> (r: String)
    ensures
        r@ == debug_text(value@),
{
    format!("{value:?}")
}

/// What is reported of a name that no format has, given the name in quotes.
/// The message has to be actionable at a command line, so it lists the names
/// that would have been understood.
pub fn unknown_format(quoted: &str) -> (r: String)
    ensures
        r@ == format_complaint(quoted@),
{
    let mut names: Vec<String> = Vec::new();
    let mut i: usize = 0;
    while i < 4
        invariant
            i <= 4,
            names.len() == i,
            FormatId::ALL@.len() == 4,
            forall|j: int| 0 <= j < i ==> (#[trigger] names@[j])@ == slug_of(FormatId::ALL@[j]),
        decreases 4 - i,
    {
        names.push(FormatId::ALL[i].slug().to_owned());
        i += 1;
    }
    assert(text::texts(names@) =~= slugs());
    let mut s = "unknown format ".to_owned();
    s.append(quoted);
    s.append("; expected one of ");
    s.append(text::join(&names, ", ").as_str());
    s
}

impl FormatId {
    /// Every format, for populating a picker.
    pub const ALL: [FormatId; 4] = [
        FormatId::Crux,
        FormatId::Credence,
        FormatId::Classic,
        FormatId::Ledger,
    ];

    /// Stable identifier used in configuration and on the wire.
    pub fn slug(self) -> (r: &'static str)
        ensures
            r@ == slug_of(self),
    {
        match self {
            FormatId::Crux => "crux",
            FormatId::Credence => "credence",
            FormatId::Classic => "classic",
            FormatId::Ledger => "ledger",
        }
    }

    /// One-line description of how the format ends.
    pub fn stop_description(self) -> (r: &'static str)
        ensures
            r@ == ending_of(self),
    {
        match self {
            FormatId::Crux => "both sides name the same crux",
            FormatId::Credence => "stated confidences converge",
            FormatId::Classic => "after closing statements",
            FormatId::Ledger => "a round introduces no new claims",
        }
    }

    /// The format that a text names, whatever the case of its letters, or a
    /// message listing the names that would have been understood.
    pub fn parse(value: &str) -> (r: Result<FormatId, String>)
        ensures
            match r {
                Ok(id) => format_named(value@) == Some(id),
                Err(message) => format_named(value@) is None && message@ == format_complaint(
                    debug_text(value@),
                ),
            },
    {
        if text::same_but_case(value, FormatId::Crux.slug()) {
            Ok(FormatId::Crux)
        } else if text::same_but_case(value, FormatId::Credence.slug()) {
            Ok(FormatId::Credence)
        } else if text::same_but_case(value, FormatId::Classic.slug()) {
            Ok(FormatId::Classic)
        } else if text::same_but_case(value, FormatId::Ledger.slug()) {
            Ok(FormatId::Ledger)
        } else {
            Err(unknown_format(quoted(value).as_str()))
        }
    }

    /// The identifier, as text.
    pub fn to_string(&self) -> (r: String)
        ensures
            r@ == slug_of(*self),
    {
        self.slug().to_owned()
    }
}

impl std::str::FromStr for FormatId {
    type Err = String;

    /// The format that a text names, as [`FormatId::parse`] reads it.
    fn from_str(value: &str) -> (r: Result<FormatId, String>)
        ensures
            match r {
                Ok(id) => format_named(value@) == Some(id),
                Err(message) => format_named(value@) is None && message@ == format_complaint(
                    debug_text(value@),
                ),
            },
    {
        FormatId::parse(value)
    }
}

/// Every identifier reads back as the format it stands for, so no two formats
/// share one.
pub proof fn law_slugs_read_back(id: FormatId)
    ensures
        format_named(slug_of(id)) == Some(id),
{
    reveal_strlit("crux");
    reveal_strlit("credence");
    reveal_strlit("classic");
    reveal_strlit("ledger");
    assert(slug_of(FormatId::Crux).len() == 4);
    assert(slug_of(FormatId::Credence).len() == 8);
    assert(slug_of(FormatId::Classic).len() == 7);
    assert(slug_of(FormatId::Ledger).len() == 6);
}

/// Reading a format's name does not depend on the case of its letters.
pub proof fn law_format_names_ignore_case(a: Seq<char>, b: Seq<char>)
    requires
        text::same_ignoring_case(a, b),
    ensures
        format_named(a) == format_named(b),
{
    lemma_same_letters(a, b, slug_of(FormatId::Crux));
    lemma_same_letters(a, b, slug_of(FormatId::Credence));
    lemma_same_letters(a, b, slug_of(FormatId::Classic));
    lemma_same_letters(a, b, slug_of(FormatId::Ledger));
}

/// Texts with the same letters compare the same with any other text.
proof fn lemma_same_letters(a: Seq<char>, b: Seq<char>, c: Seq<char>)
    requires
        text::same_ignoring_case(a, b),
    ensures
        text::same_ignoring_case(a, c) == text::same_ignoring_case(b, c),
{
    if a.len() == c.len() {
        assert forall|i: int| 0 <= i < a.len() implies text::ascii_lower(#[trigger] a[i])
            == text::ascii_lower(b[i]) by {}
        if text::same_ignoring_case(a, c) {
            assert forall|i: int| 0 <= i < b.len() implies text::ascii_lower(#[trigger] b[i])
                == text::ascii_lower(c[i]) by {
                assert(text::ascii_lower(a[i]) == text::ascii_lower(c[i]));
            }
        }
        if text::same_ignoring_case(b, c) {
            assert forall|i: int| 0 <= i < a.len() implies text::ascii_lower(#[trigger] a[i])
                == text::ascii_lower(c[i]) by {
                assert(text::ascii_lower(b[i]) == text::ascii_lower(c[i]));
            }
        }
    }
}

/// What every debater is told of the goal and the rules, whatever its side.
pub const MANDATE_RULES: &'static str = "\n\nYOUR ACTUAL GOAL\n\
    This is not a contest. The goal is to determine what is actually true. \
    You have been assigned a position to argue, but you are not required to \
    defend it past the point where the evidence stops supporting it.\n\n\
    Rules that matter more than winning:\n\
    - Conceding a point you cannot support is a success, not a loss.\n\
    - If the evidence turns against your assigned position, say so plainly.\n\
    - Never manufacture evidence, statistics, citations, or quotations.\n\
    - Attack the strongest version of the opposing case, not a weak one.\n\
    - Distinguish what you know from what you are inferring.\n\
    - You have tools available. Use them to check claims rather than \
    asserting from memory. A verified fact outranks a confident assertion, \
    including your own.\n\n\
    Write in plain prose. Be concise: a few short paragraphs at most. Do \
    not use headings or bullet lists.";

/// What a mandate says before the position a side is assigned.
pub open spec fn mandate_opening(side: Side, topic: TopicView) -> Seq<char> {
    "You are Debater "@ + state::side_text(side)
        + " in a structured debate.\n\nQUESTION UNDER DISPUTE\n"@ + topic.question
        + "\n\nYOUR ASSIGNED POSITION\n"@
}

/// The mandate of one side: who it is, what is disputed, what it argues, what
/// it argues against, and the rules.
pub open spec fn mandate_text(side: Side, topic: TopicView) -> Seq<char> {
    mandate_opening(side, topic) + state::position_of(topic, side)
        + "\n\nTHE OPPOSING POSITION\n"@ + state::position_of(topic, state::opposite(side))
        + MANDATE_RULES@
}

/// The truth-seeking mandate shared by every format.
///
/// This is the heart of the project: the debaters are told that being right
/// matters more than winning, and that conceding is a success rather than a
/// loss. Formats append their own structural instructions to it.
pub fn shared_mandate(side: Side, topic: &Topic) -> (r: String)
    ensures
        r@ == mandate_text(side, topic@),
{
    let mut s = "You are Debater ".to_owned();
    s.append(side.to_string().as_str());
    s.append(" in a structured debate.\n\nQUESTION UNDER DISPUTE\n");
    s.append(topic.question.as_str());
    s.append("\n\nYOUR ASSIGNED POSITION\n");
    s.append(topic.position(side));
    s.append("\n\nTHE OPPOSING POSITION\n");
    s.append(topic.position(side.other()));
    s.append(MANDATE_RULES);
    s
}

/// A mandate names both positions, the side's own one first, and gives the
/// rules last.
pub proof fn law_the_mandate_gives_each_side_its_own_position(
    side: Side,
    topic: TopicView,
) -> (at: (int, int))
    ensures
        text::occurs_at(mandate_text(side, topic), state::position_of(topic, side), at.0),
        text::occurs_at(
            mandate_text(side, topic),
            state::position_of(topic, state::opposite(side)),
            at.1,
        ),
        at.0 + state::position_of(topic, side).len() < at.1,
        text::occurs_at(
            mandate_text(side, topic),
            MANDATE_RULES@,
            mandate_text(side, topic).len() - MANDATE_RULES@.len(),
        ),
{
    let m = mandate_text(side, topic);
    let own = state::position_of(topic, side);
    let theirs = state::position_of(topic, state::opposite(side));
    let i = mandate_opening(side, topic).len() as int;
    let j = i + own.len() + "\n\nTHE OPPOSING POSITION\n"@.len();
    reveal_strlit("\n\nTHE OPPOSING POSITION\n");
    assert(m.subrange(i, i + own.len()) =~= own);
    assert(m.subrange(j, j + theirs.len()) =~= theirs);
    assert(m.subrange(m.len() - MANDATE_RULES@.len(), m.len() as int) =~= MANDATE_RULES@);
    (i, j)
}

/// A debate format: how turns are structured and when the debate ends.
pub trait DebateFormat: Send + Sync {
    /// Which format this is.
    spec fn format_id(&self) -> FormatId;

    /// The system prompt of a side.
    spec fn persona(&self, side: Side, topic: TopicView) -> Seq<char>;

    /// The prompt of a side's next turn.
    spec fn question(&self, debate: StateView, side: Side) -> Seq<char>;

    /// The prose of a reply.
    spec fn prose(&self, raw: Seq<char>) -> Seq<char>;

    /// The structure of a reply, given what came of reading its block.
    spec fn structure(
        &self,
        raw: Seq<char>,
        decoded: Result<StructuredBlock, String>,
    ) -> AnalysisView;

    /// Why the debate has reached its natural end, once it has.
    spec fn verdict(&self, debate: StateView) -> Option<StopView>;

    /// Which format this is.
    fn id(&self) -> (r: FormatId)
        ensures
            r == self.format_id(),
    ;

    /// System prompt establishing the persona and the mandate for one side.
    fn system_prompt(&self, side: Side, topic: &Topic) -> (r: String)
        ensures
            r@ == self.persona(side, topic@),
    ;

    /// Prompt for this side's next turn.
    fn turn_prompt(&self, debate: &DebateState, side: Side) -> (r: String)
        ensures
            r@ == self.question(debate@, side),
    ;

    /// Extract format-specific structure from a completed turn: the prose with
    /// any structured block removed, and the analysis. `decoded` is what came
    /// of reading the reply's block.
    fn parse_turn(&self, raw: &str, decoded: Result<StructuredBlock, String>) -> (r: (
        String,
        TurnAnalysis,
    ))
        ensures
            r.0@ == self.prose(raw@),
            r.1@ == self.structure(raw@, decoded),
    ;

    /// Whether the debate has reached its natural end.
    ///
    /// The engine applies the hard round cap separately, so a format need only
    /// express its own stop condition.
    fn should_stop(&self, debate: &DebateState) -> (r: Option<StopReason>)
        ensures
            state::opt_stop(r) == self.verdict(debate@),
    ;
}

/// Two implementations that ask, read, and end alike.
pub open spec fn same_format<F: DebateFormat + ?Sized, G: DebateFormat + ?Sized>(
    f: &F,
    g: &G,
) -> bool {
    &&& f.format_id() == g.format_id()
    &&& forall|side: Side, topic: TopicView|
        #[trigger] f.persona(side, topic) == g.persona(side, topic)
    &&& forall|debate: StateView, side: Side|
        #[trigger] f.question(debate, side) == g.question(debate, side)
    &&& forall|raw: Seq<char>| #[trigger] f.prose(raw) == g.prose(raw)
    &&& forall|raw: Seq<char>, decoded: Result<StructuredBlock, String>|
        #[trigger] f.structure(raw, decoded) == g.structure(raw, decoded)
    &&& forall|debate: StateView| #[trigger] f.verdict(debate) == g.verdict(debate)
}


/// Which format a text names, and that no other text names one.
pub proof fn law_names_and_formats_belong_together(s: Seq<char>)
    ensures
        slug_of(FormatId::Crux) == "crux"@,
        slug_of(FormatId::Credence) == "credence"@,
        slug_of(FormatId::Classic) == "classic"@,
        slug_of(FormatId::Ledger) == "ledger"@,
        format_named(s) == Some(FormatId::Crux) <==> text::same_ignoring_case(s, "crux"@),
        format_named(s) == Some(FormatId::Credence) <==> text::same_ignoring_case(s, "credence"@),
        format_named(s) == Some(FormatId::Classic) <==> text::same_ignoring_case(s, "classic"@),
        format_named(s) == Some(FormatId::Ledger) <==> text::same_ignoring_case(s, "ledger"@),
{
    reveal_strlit("crux");
    reveal_strlit("credence");
    reveal_strlit("classic");
    reveal_strlit("ledger");
    assert("crux"@.len() == 4);
    assert("credence"@.len() == 8);
    assert("classic"@.len() == 7);
    assert("ledger"@.len() == 6);
}

/// How each format says that it ends.
pub proof fn law_every_format_says_how_it_ends()
    ensures
        ending_of(FormatId::Crux) == "both sides name the same crux"@,
        ending_of(FormatId::Credence) == "stated confidences converge"@,
        ending_of(FormatId::Classic) == "after closing statements"@,
        ending_of(FormatId::Ledger) == "a round introduces no new claims"@,
{
}

/// A name that no format has is reported with the name itself and every name
/// that would have been understood, in order.
pub proof fn law_an_unknown_format_is_told_the_known_ones(quoted: Seq<char>)
    ensures
        format_complaint(quoted) == "unknown format "@ + quoted + "; expected one of "@
            + ("crux"@ + ", "@ + "credence"@ + ", "@ + "classic"@ + ", "@ + "ledger"@),
{
    let names = slugs();
    assert(names =~= seq!["crux"@, "credence"@, "classic"@, "ledger"@]);
    assert(names.drop_last() =~= seq!["crux"@, "credence"@, "classic"@]);
    assert(names.drop_last().drop_last() =~= seq!["crux"@, "credence"@]);
    assert(names.drop_last().drop_last().drop_last() =~= seq!["crux"@]);
    reveal_with_fuel(text::joined, 5);
    assert(text::joined(names, ", "@) == "crux"@ + ", "@ + "credence"@ + ", "@ + "classic"@ + ", "@
        + "ledger"@);
}

/// What a side is told: its letter and the question, its own position, then the
/// opposing one, then the rules that hold for both sides.
pub proof fn law_the_mandate_of_each_side(topic: TopicView)
    ensures
        mandate_text(Side::A, topic) == "You are Debater "@ + "A"@
            + " in a structured debate.\n\nQUESTION UNDER DISPUTE\n"@ + topic.question
            + "\n\nYOUR ASSIGNED POSITION\n"@ + topic.position_a + "\n\nTHE OPPOSING POSITION\n"@
            + topic.position_b + MANDATE_RULES@,
        mandate_text(Side::B, topic) == "You are Debater "@ + "B"@
            + " in a structured debate.\n\nQUESTION UNDER DISPUTE\n"@ + topic.question
            + "\n\nYOUR ASSIGNED POSITION\n"@ + topic.position_b + "\n\nTHE OPPOSING POSITION\n"@
            + topic.position_a + MANDATE_RULES@,
{
}


/// Implementations of the same format cannot be told apart by anything they ask,
/// read, or decide.
pub proof fn law_the_same_format_does_the_same<F: DebateFormat + ?Sized, G: DebateFormat + ?Sized>(
    f: &F,
    g: &G,
    debate: StateView,
    side: Side,
    topic: TopicView,
    raw: Seq<char>,
    decoded: Result<StructuredBlock, String>,
)
    requires
        same_format(f, g),
    ensures
        f.format_id() == g.format_id(),
        f.persona(side, topic) == g.persona(side, topic),
        f.question(debate, side) == g.question(debate, side),
        f.prose(raw) == g.prose(raw),
        f.structure(raw, decoded) == g.structure(raw, decoded),
        f.verdict(debate) == g.verdict(debate),
{
}

} // verus!
