//! Transcript rendering.
//!
//! Every debate is saved without being asked for. A debate costs real money and
//! several minutes, and the interesting part is often a single concession
//! buried mid-argument, so losing one to a closed terminal is a genuine loss.
//!
//! Two formats are written side by side because they serve different readers.
//! JSON carries the complete state; Markdown is for people, and is what this
//! module renders.

use vstd::prelude::*;

use crate::debate::format::FormatId;
use crate::debate::state::{
    self, AnalysisView, CredenceRound, DebateState, ParseView, RowView, StateView, StopReason,
    StopView, Turn, TurnAnalysis, TurnView,
};
use crate::opencode::types::{self, ModelRef, ModelView, ToolCall, ToolCallView};
use crate::text;

verus! {

/// Schema version, so a later reader can recognise an older transcript.
pub const TRANSCRIPT_VERSION: u32 = 1;

/// File name of the saved JSON transcript.
pub const JSON_FILE: &'static str = "transcript.json";

/// File name of the saved Markdown transcript.
pub const MARKDOWN_FILE: &'static str = "transcript.md";

/// A debate, its configuration, and when it ran.
///
/// [`DebateState`] alone does not record which format or models produced it,
/// which is exactly what a reader needs to judge a result months later.
#[derive(Debug)]
pub struct Transcript<'a> {
    /// Schema version of this file.
    pub version: u32,
    /// When the debate finished, as an RFC 3339 timestamp.
    pub saved_at: String,
    /// Format the debate ran under.
    pub format: FormatId,
    /// Model that argued side A.
    pub model_a: Option<&'a ModelRef>,
    /// Model that argued side B.
    pub model_b: Option<&'a ModelRef>,
    /// The debate itself.
    pub state: &'a DebateState,
}

/// What a [`Transcript`] says.
#[verifier::ext_equal]
pub struct TranscriptView {
    pub version: u32,
    pub saved_at: Seq<char>,
    pub format: FormatId,
    pub model_a: Option<ModelView>,
    pub model_b: Option<ModelView>,
    pub state: StateView,
}

/// The model behind an optional reference to one.
pub open spec fn model_behind(m: Option<&ModelRef>) -> Option<ModelView> {
    match m {
        Some(v) => Some(v@),
        None => None,
    }
}

impl<'a> View for Transcript<'a> {
    type V = TranscriptView;

    open spec fn view(&self) -> TranscriptView {
        TranscriptView {
            version: self.version,
            saved_at: self.saved_at@,
            format: self.format,
            model_a: model_behind(self.model_a),
            model_b: model_behind(self.model_b),
            state: self.state@,
        }
    }
}

/// How a model is named to a reader.
pub open spec fn shown_model(m: Option<ModelView>) -> Seq<char> {
    match m {
        Some(v) => types::model_name(v),
        None => "server default"@,
    }
}

/// The models in use, on one line when both sides share one.
pub open spec fn models_text(a: Option<ModelView>, b: Option<ModelView>) -> Seq<char> {
    if a == b {
        "- **Model**: "@ + shown_model(a) + "\n"@
    } else {
        "- **Model A**: "@ + shown_model(a) + "\n- **Model B**: "@ + shown_model(b) + "\n"@
    }
}

/// The topic, the configuration, and the positions.
pub open spec fn header_text(t: TranscriptView) -> Seq<char> {
    "# "@ + text::trimmed(t.state.topic.question) + "\n\n- **Side A**: "@ + t.state.topic.position_a
        + "\n- **Side B**: "@ + t.state.topic.position_b + "\n- **Format**: "@
        + crate::debate::format::slug_of(t.format) + "\n"@ + models_text(t.model_a, t.model_b)
        + "- **Recorded**: "@ + t.saved_at + "\n"@
}

/// One line per tool call.
pub open spec fn tool_text(call: ToolCallView) -> Seq<char> {
    let head = "- tool `"@ + call.tool + "` ("@ + call.status;
    if call.detail.len() == 0 {
        head + ")\n"@
    } else {
        head + "): "@ + call.detail + "\n"@
    }
}

/// The lines of a list of tool calls.
pub open spec fn tool_lines(calls: Seq<ToolCallView>) -> Seq<char>
    decreases calls.len(),
{
    if calls.len() == 0 {
        Seq::empty()
    } else {
        tool_lines(calls.drop_last()) + tool_text(calls.last())
    }
}

/// The tool calls of a turn, set off by an empty line where there are any.
pub open spec fn tools_text(calls: Seq<ToolCallView>) -> Seq<char> {
    if calls.len() == 0 {
        Seq::empty()
    } else {
        tool_lines(calls) + "\n"@
    }
}

/// One line per conceded point.
pub open spec fn point_lines(points: Seq<Seq<char>>) -> Seq<char>
    decreases points.len(),
{
    if points.len() == 0 {
        Seq::empty()
    } else {
        point_lines(points.drop_last()) + "- "@ + points.last() + "\n"@
    }
}

/// What was extracted from a turn.
pub open spec fn analysis_text(a: AnalysisView) -> Seq<char> {
    let confidence = match a.credence {
        Some(value) => "**Confidence: "@ + text::decimal(value as nat) + "**\n\n"@,
        None => Seq::empty(),
    };
    let moved = match a.moved_because {
        Some(reason) => "*Moved because:* "@ + reason + "\n\n"@,
        None => Seq::empty(),
    };
    let conceded = if a.conceded.len() == 0 {
        Seq::empty()
    } else {
        "*Conceded:*\n\n"@ + point_lines(a.conceded) + "\n"@
    };
    let unread = if a.parse_status == ParseView::Readable {
        Seq::empty()
    } else {
        "*No readable structured block in this turn.*\n\n"@
    };
    confidence + moved + conceded + unread
}

/// One turn: who spoke when, what they checked, what they argued, and what was
/// extracted from it.
pub open spec fn turn_section(turn: TurnView) -> Seq<char> {
    "\n## Round "@ + text::decimal(turn.round as nat) + ", Debater "@ + state::side_text(turn.side)
        + "\n\n"@ + tools_text(turn.tool_calls) + text::trimmed(turn.text) + "\n\n"@
        + analysis_text(turn.analysis)
}

/// All turns, in order.
pub open spec fn turn_sections(turns: Seq<TurnView>) -> Seq<char>
    decreases turns.len(),
{
    if turns.len() == 0 {
        Seq::empty()
    } else {
        turn_sections(turns.drop_last()) + turn_section(turns.last())
    }
}

/// A cell of the convergence table.
pub open spec fn cell(value: Option<int>) -> Seq<char> {
    match value {
        Some(v) => text::decimal(v as nat),
        None => "-"@,
    }
}

/// A row of the convergence table. Each side states confidence in its own
/// position, so the gap column restates them on one proposition.
pub open spec fn row_text(row: RowView) -> Seq<char> {
    "| "@ + text::decimal(row.round as nat) + " | "@ + cell(row.a) + " | "@ + cell(row.b) + " | "@
        + cell(state::row_gap(row)) + " |\n"@
}

/// The rows of the convergence table.
pub open spec fn row_lines(rows: Seq<RowView>) -> Seq<char>
    decreases rows.len(),
{
    if rows.len() == 0 {
        Seq::empty()
    } else {
        row_lines(rows.drop_last()) + row_text(rows.last())
    }
}

/// The convergence table, where anyone stated a confidence.
pub open spec fn table_text(rows: Seq<RowView>) -> Seq<char> {
    if rows.len() == 0 {
        Seq::empty()
    } else {
        "| Round | A | B | Gap |\n|---|---|---|---|\n"@ + row_lines(rows) + "\n"@
    }
}

/// What warns of turns that the table omits, where there are any.
pub open spec fn caution_of(turns: Seq<TurnView>) -> Option<Seq<char>> {
    let unreadable = state::unreadable_count(turns);
    if unreadable > 0 {
        Some(
            "caution: "@ + text::decimal(unreadable as nat) + " of "@ + text::decimal(turns.len())
                + " turns produced no readable structured block, so the table omits them"@,
        )
    } else {
        None
    }
}

/// Why a debate ended, in a full sentence.
pub open spec fn stop_text(reason: Option<StopView>) -> Seq<char> {
    match reason {
        Some(StopView::Converged { gap }) => "confidences converged, "@ + text::decimal(gap as nat)
            + " points apart"@,
        Some(StopView::Conceded { side }) => "Debater "@ + state::side_text(side) + " conceded"@,
        Some(StopView::RoundCap) => "round cap reached"@,
        Some(StopView::CruxIsolated) => "both sides named the same crux"@,
        Some(StopView::NoNewClaims) => "a round introduced no new claims"@,
        Some(StopView::FormatComplete) => "the format's rounds finished"@,
        Some(StopView::Aborted) => "stopped by the operator"@,
        Some(StopView::Failed { side, message }) => "Debater "@ + state::side_text(side)
            + " could not answer: "@ + message,
        None => "did not finish"@,
    }
}

/// The convergence table, what it omits, the outcome, and the totals, given the
/// total cost as text.
pub open spec fn result_text(s: StateView, cost: Seq<char>) -> Seq<char> {
    let caution = match caution_of(s.turns) {
        Some(sentence) => sentence + "\n\n"@,
        None => Seq::empty(),
    };
    "\n## Result\n\n"@ + table_text(state::rounds_of(s.turns)) + caution + "**Outcome:** "@
        + stop_text(s.stop_reason) + "\n\n"@ + text::decimal(s.turns.len()) + " turns, "@
        + text::decimal(state::input_total(s.turns) as nat) + " tokens in, "@ + text::decimal(
        state::output_total(s.turns) as nat,
    ) + " out, $"@ + cost + "\n"@
}

/// A transcript as Markdown, given the total cost as text.
pub open spec fn markdown_text(t: TranscriptView, cost: Seq<char>) -> Seq<char> {
    header_text(t) + turn_sections(t.state.turns) + result_text(t.state, cost)
}

/// So many characters, all of them decimal digits.
pub open spec fn is_digits(s: Seq<char>, count: int) -> bool {
    &&& s.len() == count
    &&& forall|i: int| 0 <= i < s.len() ==> '0' <= #[trigger] s[i] <= '9'
}

/// A year: four digits, or a sign and at least as many.
pub open spec fn is_year(s: Seq<char>) -> bool {
    ||| is_digits(s, 4)
    ||| s.len() >= 5 && (s[0] == '+' || s[0] == '-') && is_digits(s.skip(1), s.len() - 1)
}

/// The month, the day and the time to the second, two digits each, each behind
/// the character that sets it off.
pub open spec fn is_day_and_time(s: Seq<char>) -> bool {
    &&& s.len() == 15
    &&& forall|i: int|
        0 <= i < 15 ==> if i == 0 || i == 3 {
            #[trigger] s[i] == '-'
        } else if i == 6 {
            s[i] == 'T'
        } else if i == 9 || i == 12 {
            s[i] == ':'
        } else {
            '0' <= s[i] <= '9'
        }
}

/// A fraction of a second: none at all, or thousandths, millionths or
/// billionths behind a point.
pub open spec fn is_fraction(s: Seq<char>) -> bool {
    ||| s.len() == 0
    ||| s[0] == '.' && (is_digits(s.skip(1), 3) || is_digits(s.skip(1), 6) || is_digits(
        s.skip(1),
        9,
    ))
}

/// An offset from UTC in hours and minutes.
pub open spec fn is_offset(s: Seq<char>) -> bool {
    &&& s.len() == 6
    &&& s[0] == '+' || s[0] == '-'
    &&& is_digits(s.subrange(1, 3), 2)
    &&& s[3] == ':'
    &&& is_digits(s.subrange(4, 6), 2)
}

/// A point in time as RFC 3339 writes it.
pub open spec fn is_timestamp(s: Seq<char>) -> bool {
    exists|year: Seq<char>, rest: Seq<char>, fraction: Seq<char>, offset: Seq<char>|
        {
            &&& #[trigger] is_year(year)
            &&& #[trigger] is_day_and_time(rest)
            &&& #[trigger] is_fraction(fraction)
            &&& #[trigger] is_offset(offset)
            &&& s == year + rest + fraction + offset
        }
}

/// Calls `chrono::Local::now` and `DateTime::to_rfc3339`. Trusted for the form
/// of the result only: which time it is depends on the clock, and how far that
/// is from UTC on the time zone of the machine.
#[verifier::external_body]
fn timestamp() -> (r: String)
    ensures
        is_timestamp(r@),
{
    chrono::Local::now().to_rfc3339()
}

/// How a model is named to a reader.
pub fn show_model(model: Option<&ModelRef>) -> (r: String)
    ensures
        r@ == shown_model(model_behind(model)),
{
    match model {
        Some(m) => m.to_string(),
        None => "server default".to_owned(),
    }
}

/// Whether two sides argue with the same model.
pub fn same_model(a: Option<&ModelRef>, b: Option<&ModelRef>) -> (r: bool)
    ensures
        r == (model_behind(a) == model_behind(b)),
{
    match (a, b) {
        (Some(x), Some(y)) => x.same(y),
        (None, None) => true,
        _ => false,
    }
}

/// One tool call as a line.
fn tool_entry(call: &ToolCall) -> (r: String)
    ensures
        r@ == tool_text(call@),
{
    let mut s = "- tool `".to_owned();
    s.append(call.tool.as_str());
    s.append("` (");
    s.append(call.status.as_str());
    if call.detail.as_str().is_empty() {
        s.append(")\n");
    } else {
        s.append("): ");
        s.append(call.detail.as_str());
        s.append("\n");
    }
    s
}

/// The tool calls of a turn.
fn tool_entries(calls: &Vec<ToolCall>) -> (r: String)
    ensures
        r@ == tools_text(types::tool_views(calls@)),
{
    let ghost views = types::tool_views(calls@);
    let mut s = String::new();
    if calls.len() == 0 {
        assert(s@ =~= tools_text(views));
        return s;
    }
    let mut i: usize = 0;
    while i < calls.len()
        invariant
            i <= calls.len(),
            views == types::tool_views(calls@),
            s@ == tool_lines(views.take(i as int)),
        decreases calls.len() - i,
    {
        assert(views.take(i + 1).drop_last() =~= views.take(i as int));
        s.append(tool_entry(&calls[i]).as_str());
        i += 1;
    }
    assert(views.take(i as int) =~= views);
    s.append("\n");
    s
}

/// What was extracted from a turn.
fn analysis_entry(analysis: &TurnAnalysis) -> (r: String)
    ensures
        r@ == analysis_text(analysis@),
{
    let mut confidence = String::new();
    if let Some(credence) = analysis.credence {
        confidence = "**Confidence: ".to_owned();
        confidence.append(credence.to_string().as_str());
        confidence.append("**\n\n");
    }
    let mut moved = String::new();
    if let Some(reason) = &analysis.moved_because {
        moved = "*Moved because:* ".to_owned();
        moved.append(reason.as_str());
        moved.append("\n\n");
    }
    let mut conceded = String::new();
    if analysis.conceded.len() > 0 {
        let ghost points = text::texts(analysis.conceded@);
        let mut list = String::new();
        let mut i: usize = 0;
        while i < analysis.conceded.len()
            invariant
                i <= analysis.conceded.len(),
                points == text::texts(analysis.conceded@),
                list@ == point_lines(points.take(i as int)),
            decreases analysis.conceded.len() - i,
        {
            assert(points.take(i + 1).drop_last() =~= points.take(i as int));
            list.append("- ");
            list.append(analysis.conceded[i].as_str());
            list.append("\n");
            i += 1;
        }
        assert(points.take(i as int) =~= points);
        conceded = "*Conceded:*\n\n".to_owned();
        conceded.append(list.as_str());
        conceded.append("\n");
    }
    let mut s = confidence;
    s.append(moved.as_str());
    s.append(conceded.as_str());
    if !analysis.parse_status.is_ok() {
        s.append("*No readable structured block in this turn.*\n\n");
    }
    assert(s@ =~= analysis_text(analysis@));
    s
}

/// One turn.
fn turn_entry(turn: &Turn) -> (r: String)
    ensures
        r@ == turn_section(turn@),
{
    let mut s = "\n## Round ".to_owned();
    s.append(text::number(turn.round as u64).as_str());
    s.append(", Debater ");
    s.append(turn.side.to_string().as_str());
    s.append("\n\n");
    s.append(tool_entries(&turn.tool_calls).as_str());
    s.append(text::trim(turn.text.as_str()));
    s.append("\n\n");
    s.append(analysis_entry(&turn.analysis).as_str());
    s
}

/// A cell of the convergence table.
fn cell_entry(value: Option<u8>) -> (r: String)
    ensures
        r@ == cell(
            match value {
                Some(v) => Some(v as int),
                None => None,
            },
        ),
{
    match value {
        Some(v) => text::number(v as u64),
        None => "-".to_owned(),
    }
}

/// A row of the convergence table.
fn row_entry(row: &CredenceRound) -> (r: String)
    ensures
        r@ == row_text(row@),
{
    let a: Option<u8> = match row.a {
        Some(c) => Some(c.value()),
        None => None,
    };
    let b: Option<u8> = match row.b {
        Some(c) => Some(c.value()),
        None => None,
    };
    let mut s = "| ".to_owned();
    s.append(text::number(row.round as u64).as_str());
    s.append(" | ");
    s.append(cell_entry(a).as_str());
    s.append(" | ");
    s.append(cell_entry(b).as_str());
    s.append(" | ");
    s.append(cell_entry(row.gap()).as_str());
    s.append(" |\n");
    s
}

/// The convergence table.
fn table(state: &DebateState) -> (r: String)
    ensures
        r@ == table_text(state::rounds_of(state@.turns)),
{
    let rows = state.credence_rounds();
    let ghost views = state::row_views(rows@);
    assert(views.len() == rows.len());
    let mut s = String::new();
    if rows.len() == 0 {
        assert(s@ =~= table_text(views));
        return s;
    }
    let mut i: usize = 0;
    while i < rows.len()
        invariant
            i <= rows.len(),
            views == state::row_views(rows@),
            s@ == row_lines(views.take(i as int)),
        decreases rows.len() - i,
    {
        assert(views.take(i + 1).drop_last() =~= views.take(i as int));
        s.append(row_entry(&rows[i]).as_str());
        i += 1;
    }
    assert(views.take(i as int) =~= views);
    let mut whole = "| Round | A | B | Gap |\n|---|---|---|---|\n".to_owned();
    whole.append(s.as_str());
    whole.append("\n");
    whole
}

/// What warns of turns that the convergence table omits, where there are any.
///
/// A debate can complete with most of its structure unreadable, which silently
/// weakens every number drawn from it. A sparse table must not pass for a short
/// debate.
pub fn caution(state: &DebateState) -> (r: Option<String>)
    ensures
        text::opt_text(r) == caution_of(state@.turns),
{
    let unreadable: usize = state.unreadable_turns();
    if unreadable > 0 {
        let mut s = "caution: ".to_owned();
        s.append(text::number(unreadable as u64).as_str());
        s.append(" of ");
        s.append(text::number(state.turns.len() as u64).as_str());
        s.append(" turns produced no readable structured block, so the table omits them");
        Some(s)
    } else {
        None
    }
}

/// Describe why a debate ended, in a full sentence suitable for a transcript or
/// a terminal.
pub fn describe_stop(reason: &Option<StopReason>) -> (r: String)
    ensures
        r@ == stop_text(state::opt_stop(*reason)),
{
    match reason {
        Some(StopReason::Converged { gap }) => {
            let mut s = "confidences converged, ".to_owned();
            s.append(text::number(*gap as u64).as_str());
            s.append(" points apart");
            s
        },
        Some(StopReason::Conceded { side }) => {
            let mut s = "Debater ".to_owned();
            s.append(side.to_string().as_str());
            s.append(" conceded");
            s
        },
        // Deliberately not "without convergence": the credence format
        // suppresses convergence until two rounds have completed, so a
        // single-round debate hits the cap even when the sides fully agree.
        // The gap column shows how close they got.
        Some(StopReason::RoundCap) => "round cap reached".to_owned(),
        Some(StopReason::CruxIsolated) => "both sides named the same crux".to_owned(),
        Some(StopReason::NoNewClaims) => "a round introduced no new claims".to_owned(),
        Some(StopReason::FormatComplete) => "the format's rounds finished".to_owned(),
        Some(StopReason::Aborted) => "stopped by the operator".to_owned(),
        Some(StopReason::Failed { side, message }) => {
            let mut s = "Debater ".to_owned();
            s.append(side.to_string().as_str());
            s.append(" could not answer: ");
            s.append(message.as_str());
            s
        },
        None => "did not finish".to_owned(),
    }
}

impl<'a> Transcript<'a> {
    /// Assemble a transcript from a finished debate, stamped with the current
    /// time. Which time that is depends on the clock; its form does not.
    pub fn new(
        state: &'a DebateState,
        format: FormatId,
        model_a: Option<&'a ModelRef>,
        model_b: Option<&'a ModelRef>,
    ) -> (r: Transcript<'a>)
        ensures
            is_timestamp(r@.saved_at),
            r@ == (TranscriptView {
                version: TRANSCRIPT_VERSION,
                saved_at: r@.saved_at,
                format,
                model_a: model_behind(model_a),
                model_b: model_behind(model_b),
                state: state@,
            }),
    {
        Transcript::recorded_at(timestamp(), state, format, model_a, model_b)
    }

    /// Assemble a transcript from a finished debate and the time it was
    /// recorded at.
    pub fn recorded_at(
        saved_at: String,
        state: &'a DebateState,
        format: FormatId,
        model_a: Option<&'a ModelRef>,
        model_b: Option<&'a ModelRef>,
    ) -> (r: Transcript<'a>)
        ensures
            r@ == (TranscriptView {
                version: TRANSCRIPT_VERSION,
                saved_at: saved_at@,
                format,
                model_a: model_behind(model_a),
                model_b: model_behind(model_b),
                state: state@,
            }),
    {
        Transcript { version: TRANSCRIPT_VERSION, saved_at, format, model_a, model_b, state }
    }

    /// The topic, configuration, and positions.
    fn header(&self) -> (r: String)
        ensures
            r@ == header_text(self@),
    {
        let mut s = "# ".to_owned();
        s.append(text::trim(self.state.topic.question.as_str()));
        s.append("\n\n- **Side A**: ");
        s.append(self.state.topic.position_a.as_str());
        s.append("\n- **Side B**: ");
        s.append(self.state.topic.position_b.as_str());
        s.append("\n- **Format**: ");
        s.append(self.format.slug());
        s.append("\n");
        let ghost before = s@;
        if same_model(self.model_a, self.model_b) {
            s.append("- **Model**: ");
            s.append(show_model(self.model_a).as_str());
            s.append("\n");
        } else {
            s.append("- **Model A**: ");
            s.append(show_model(self.model_a).as_str());
            s.append("\n- **Model B**: ");
            s.append(show_model(self.model_b).as_str());
            s.append("\n");
        }
        assert(s@ =~= before + models_text(self@.model_a, self@.model_b));
        s.append("- **Recorded**: ");
        s.append(self.saved_at.as_str());
        s.append("\n");
        s
    }

    /// The convergence table and closing totals.
    fn result(&self, cost: &str) -> (r: String)
        requires
            state::totals_fit(self@.state.turns),
        ensures
            r@ == result_text(self@.state, cost@),
    {
        let usage = self.state.usage();
        let mut s = "\n## Result\n\n".to_owned();
        s.append(table(self.state).as_str());
        let ghost before = s@;
        if let Some(sentence) = caution(self.state) {
            s.append(sentence.as_str());
            s.append("\n\n");
        }
        assert(s@ =~= before + match caution_of(self@.state.turns) {
            Some(sentence) => sentence + "\n\n"@,
            None => Seq::empty(),
        });
        s.append("**Outcome:** ");
        s.append(describe_stop(&self.state.stop_reason).as_str());
        s.append("\n\n");
        s.append(text::number(self.state.turns.len() as u64).as_str());
        s.append(" turns, ");
        s.append(text::number(usage.tokens.input).as_str());
        s.append(" tokens in, ");
        s.append(text::number(usage.tokens.output).as_str());
        s.append(" out, $");
        s.append(cost);
        s.append("\n");
        s
    }

    /// Render as Markdown for reading: the topic, each turn in order with its
    /// tool use and analysis, and the closing convergence table. `cost` is the
    /// total in USD, as it is to be shown.
    pub fn to_markdown(&self, cost: &str) -> (r: String)
        requires
            state::totals_fit(self@.state.turns),
        ensures
            r@ == markdown_text(self@, cost@),
    {
        let ghost turns = self@.state.turns;
        let mut sections = String::new();
        let mut i: usize = 0;
        while i < self.state.turns.len()
            invariant
                i <= self.state.turns.len(),
                turns == state::turn_views(self.state.turns@),
                sections@ == turn_sections(turns.take(i as int)),
            decreases self.state.turns.len() - i,
        {
            assert(turns.take(i + 1).drop_last() =~= turns.take(i as int));
            sections.append(turn_entry(&self.state.turns[i]).as_str());
            i += 1;
        }
        assert(turns.take(i as int) =~= turns);
        let mut s = self.header();
        s.append(sections.as_str());
        s.append(self.result(cost).as_str());
        s
    }
}

/// Which of its two forms a transcript is saved in.
#[derive(Debug, Clone, Copy, PartialEq, Eq, Structural)]
pub enum TranscriptForm {
    /// The complete state, for programs.
    Json,
    /// The readable rendering, for people.
    Markdown,
}

/// The form that a file's extension asks for: `json` selects JSON, anything
/// else selects Markdown.
pub fn form_for(extension: Option<&str>) -> (r: TranscriptForm)
    ensures
        r == TranscriptForm::Json <==> (extension matches Some(x) && text::same_ignoring_case(
            x@,
            "json"@,
        )),
{
    match extension {
        Some(x) => if text::same_but_case(x, "json") {
            TranscriptForm::Json
        } else {
            TranscriptForm::Markdown
        },
        None => TranscriptForm::Markdown,
    }
}

/// Every turn stands in the Markdown, whole and in order: the sections of the
/// first turns are the start of what comes after the header.
pub proof fn law_markdown_keeps_every_turn_in_order(t: TranscriptView, cost: Seq<char>, n: int)
    requires
        0 <= n < t.state.turns.len(),
    ensures
        ({
            let at = (header_text(t) + turn_sections(t.state.turns.take(n))).len() as int;
            let section = turn_section(t.state.turns[n]);
            &&& text::occurs_at(markdown_text(t, cost), section, at)
            &&& at + section.len() == (header_text(t) + turn_sections(
                t.state.turns.take(n + 1),
            )).len()
        }),
{
    let turns = t.state.turns;
    let rest = lemma_sections_split(turns, n);
    assert(turns.take(n + 1).drop_last() =~= turns.take(n));
    lemma_a_stretch_occurs(
        header_text(t),
        turn_sections(turns.take(n)),
        turn_section(turns[n]),
        rest,
        result_text(t.state, cost),
    );
}

/// A stretch of a text occurs where everything before it ends.
proof fn lemma_a_stretch_occurs(
    start: Seq<char>,
    before: Seq<char>,
    stretch: Seq<char>,
    after: Seq<char>,
    end: Seq<char>,
)
    ensures
        text::occurs_at(
            start + (before + stretch + after) + end,
            stretch,
            (start + before).len() as int,
        ),
{
    let whole = start + (before + stretch + after) + end;
    let at = (start + before).len() as int;
    assert(whole.subrange(at, at + stretch.len()) =~= stretch);
}

/// The sections of all turns start with those of the first ones.
proof fn lemma_sections_split(turns: Seq<TurnView>, n: int) -> (rest: Seq<char>)
    requires
        0 <= n < turns.len(),
    ensures
        turn_sections(turns) == turn_sections(turns.take(n)) + turn_section(turns[n]) + rest,
    decreases turns.len(),
{
    let less = turns.drop_last();
    if n == less.len() {
        assert(less =~= turns.take(n));
        let rest = Seq::<char>::empty();
        assert(turn_sections(turns) =~= turn_sections(turns.take(n)) + turn_section(turns[n])
            + rest);
        rest
    } else {
        let before = lemma_sections_split(less, n);
        assert(less.take(n) =~= turns.take(n));
        let rest = before + turn_section(turns.last());
        assert(turn_sections(turns) =~= turn_sections(turns.take(n)) + turn_section(turns[n])
            + rest);
        rest
    }
}


/// A model is named as its provider and itself, and where none was chosen that
/// is said.
pub proof fn law_models_are_named_to_a_reader(m: ModelView, a: Option<ModelView>, b: Option<ModelView>)
    ensures
        shown_model(None) == "server default"@,
        shown_model(Some(m)) == m.provider_id + "/"@ + m.model_id,
        models_text(a, a) == "- **Model**: "@ + shown_model(a) + "\n"@,
        a != b ==> models_text(a, b) == "- **Model A**: "@ + shown_model(a) + "\n- **Model B**: "@
            + shown_model(b) + "\n"@,
{
}

/// A transcript opens with the question as its title, then each side's own
/// position under its letter, the format, the models, and when it was recorded.
pub proof fn law_the_header_introduces_the_debate(t: TranscriptView)
    ensures
        header_text(t) == "# "@ + text::trimmed(t.state.topic.question) + "\n\n- **Side A**: "@
            + t.state.topic.position_a + "\n- **Side B**: "@ + t.state.topic.position_b
            + "\n- **Format**: "@ + crate::debate::format::slug_of(t.format) + "\n"@ + models_text(
            t.model_a,
            t.model_b,
        ) + "- **Recorded**: "@ + t.saved_at + "\n"@,
{
}

/// Tool calls stand one to a line, in order, each with its tool, its status, and
/// what it was about where that is known; where there are any, an empty line
/// follows.
pub proof fn law_every_tool_call_has_its_line(
    a: Seq<ToolCallView>,
    b: Seq<ToolCallView>,
    call: ToolCallView,
)
    ensures
        tool_lines(Seq::empty()).len() == 0,
        tool_lines(seq![call]) == if call.detail.len() == 0 {
            "- tool `"@ + call.tool + "` ("@ + call.status + ")\n"@
        } else {
            "- tool `"@ + call.tool + "` ("@ + call.status + "): "@ + call.detail + "\n"@
        },
        tool_lines(a + b) == tool_lines(a) + tool_lines(b),
        tools_text(Seq::empty()).len() == 0,
        a.len() > 0 ==> tools_text(a) == tool_lines(a) + "\n"@,
    decreases b.len(),
{
    assert(seq![call].drop_last() =~= Seq::<ToolCallView>::empty());
    assert(seq![call].last() == call);
    assert(tool_lines(Seq::empty()) =~= Seq::<char>::empty());
    assert(tool_lines(seq![call]) =~= tool_text(call));
    if b.len() == 0 {
        assert(a + b =~= a);
        assert(tool_lines(a) + tool_lines(b) =~= tool_lines(a));
    } else {
        law_every_tool_call_has_its_line(a, b.drop_last(), call);
        assert((a + b).drop_last() =~= a + b.drop_last());
        assert((a + b).last() == b.last());
        assert(tool_lines(a + b) =~= tool_lines(a) + tool_lines(b));
    }
}

/// Conceded points stand one to a line, in order, each as it was put.
pub proof fn law_every_point_has_its_line(a: Seq<Seq<char>>, b: Seq<Seq<char>>, point: Seq<char>)
    ensures
        point_lines(Seq::empty()).len() == 0,
        point_lines(seq![point]) == "- "@ + point + "\n"@,
        point_lines(a + b) == point_lines(a) + point_lines(b),
    decreases b.len(),
{
    assert(seq![point].drop_last() =~= Seq::<Seq<char>>::empty());
    assert(seq![point].last() == point);
    assert(point_lines(Seq::empty()) =~= Seq::<char>::empty());
    assert(point_lines(seq![point]) =~= "- "@ + point + "\n"@);
    if b.len() == 0 {
        assert(a + b =~= a);
        assert(point_lines(a) + point_lines(b) =~= point_lines(a));
    } else {
        law_every_point_has_its_line(a, b.drop_last(), point);
        assert((a + b).drop_last() =~= a + b.drop_last());
        assert((a + b).last() == b.last());
        assert(point_lines(a + b) =~= point_lines(a) + point_lines(b));
    }
}

/// What a transcript shows of a turn's structure, in this order: the confidence,
/// what moved it, and the points conceded, each where there is any, and a note
/// where the block could not be read.
pub proof fn law_a_transcript_shows_what_was_stated(a: AnalysisView)
    ensures
        ({
            let confidence = if a.credence is Some {
                "**Confidence: "@ + text::decimal(a.credence->0 as nat) + "**\n\n"@
            } else {
                Seq::empty()
            };
            let moved = if a.moved_because is Some {
                "*Moved because:* "@ + a.moved_because->0 + "\n\n"@
            } else {
                Seq::empty()
            };
            let conceded = if a.conceded.len() > 0 {
                "*Conceded:*\n\n"@ + point_lines(a.conceded) + "\n"@
            } else {
                Seq::empty()
            };
            let note = if a.parse_status is Readable {
                Seq::empty()
            } else {
                "*No readable structured block in this turn.*\n\n"@
            };
            analysis_text(a) == confidence + moved + conceded + note
        }),
{
}

/// A turn's section names its round and its side, and holds its tool calls, its
/// argument without the white space around it, and its structure, in that order.
/// Sections follow the turns.
pub proof fn law_every_turn_has_its_section(a: Seq<TurnView>, b: Seq<TurnView>, turn: TurnView)
    ensures
        turn_sections(Seq::empty()).len() == 0,
        turn_sections(seq![turn]) == "\n## Round "@ + text::decimal(turn.round as nat)
            + ", Debater "@ + (if turn.side == state::Side::A {
            "A"@
        } else {
            "B"@
        }) + "\n\n"@ + tools_text(turn.tool_calls) + text::trimmed(turn.text) + "\n\n"@
            + analysis_text(turn.analysis),
        turn_sections(a + b) == turn_sections(a) + turn_sections(b),
    decreases b.len(),
{
    assert(seq![turn].drop_last() =~= Seq::<TurnView>::empty());
    assert(seq![turn].last() == turn);
    assert(turn_sections(Seq::empty()) =~= Seq::<char>::empty());
    assert(turn_sections(seq![turn]) =~= turn_section(turn));
    if b.len() == 0 {
        assert(a + b =~= a);
        assert(turn_sections(a) + turn_sections(b) =~= turn_sections(a));
    } else {
        law_every_turn_has_its_section(a, b.drop_last(), turn);
        assert((a + b).drop_last() =~= a + b.drop_last());
        assert((a + b).last() == b.last());
        assert(turn_sections(a + b) =~= turn_sections(a) + turn_sections(b));
    }
}

/// A row of the convergence table shows its round, both confidences, and the
/// number of points by which they together miss one hundred, with a dash for
/// what was not stated. Rows follow the table, under one heading.
pub proof fn law_every_round_has_its_row(a: Seq<RowView>, b: Seq<RowView>, row: RowView)
    ensures
        row_lines(Seq::empty()).len() == 0,
        ({
            let shown_a = match row.a {
                Some(v) => text::decimal(v as nat),
                None => "-"@,
            };
            let shown_b = match row.b {
                Some(v) => text::decimal(v as nat),
                None => "-"@,
            };
            let sum = row.a->0 + row.b->0;
            let gap = if row.a is None || row.b is None {
                "-"@
            } else if sum < 100 {
                text::decimal((100 - sum) as nat)
            } else {
                text::decimal((sum - 100) as nat)
            };
            row_lines(seq![row]) == "| "@ + text::decimal(row.round as nat) + " | "@ + shown_a
                + " | "@ + shown_b + " | "@ + gap + " |\n"@
        }),
        row_lines(a + b) == row_lines(a) + row_lines(b),
        table_text(Seq::empty()).len() == 0,
        a.len() > 0 ==> table_text(a) == "| Round | A | B | Gap |\n|---|---|---|---|\n"@
            + row_lines(a) + "\n"@,
    decreases b.len(),
{
    assert(seq![row].drop_last() =~= Seq::<RowView>::empty());
    assert(seq![row].last() == row);
    assert(row_lines(Seq::empty()) =~= Seq::<char>::empty());
    assert(row_lines(seq![row]) =~= row_text(row));
    if b.len() == 0 {
        assert(a + b =~= a);
        assert(row_lines(a) + row_lines(b) =~= row_lines(a));
    } else {
        law_every_round_has_its_row(a, b.drop_last(), row);
        assert((a + b).drop_last() =~= a + b.drop_last());
        assert((a + b).last() == b.last());
        assert(row_lines(a + b) =~= row_lines(a) + row_lines(b));
    }
}

/// A reader is warned exactly when some turn had no readable block, and told how
/// many of how many.
pub proof fn law_a_sparse_table_comes_with_a_caution(turns: Seq<TurnView>)
    ensures
        caution_of(turns) is None <==> forall|i: int|
            0 <= i < turns.len() ==> (#[trigger] turns[i]).analysis.parse_status is Readable,
        caution_of(turns) is Some ==> caution_of(turns)->0 == "caution: "@ + text::decimal(
            state::unreadable_count(turns) as nat,
        ) + " of "@ + text::decimal(turns.len())
            + " turns produced no readable structured block, so the table omits them"@,
{
    lemma_unread_turns(turns);
}

/// No turn is counted as unread exactly when every turn was read.
proof fn lemma_unread_turns(turns: Seq<TurnView>)
    ensures
        state::unreadable_count(turns) >= 0,
        state::unreadable_count(turns) == 0 <==> forall|i: int|
            0 <= i < turns.len() ==> (#[trigger] turns[i]).analysis.parse_status is Readable,
    decreases turns.len(),
{
    let none = Seq::<TurnView>::empty();
    if turns.len() == 0 {
        crate::debate::readings::law_unread_turns_are_counted(none, none, arbitrary());
        assert(turns =~= none);
    } else {
        let less = turns.drop_last();
        let turn = turns.last();
        lemma_unread_turns(less);
        crate::debate::readings::law_unread_turns_are_counted(less, seq![turn], turn);
        assert(less + seq![turn] =~= turns);
        assert forall|i: int| 0 <= i < less.len() implies #[trigger] less[i] == turns[i] by {}
        assert(turns[turns.len() - 1] == turn);
        if forall|i: int|
            0 <= i < turns.len() ==> (#[trigger] turns[i]).analysis.parse_status is Readable {
            assert forall|i: int| 0 <= i < less.len() implies (
            #[trigger] less[i]).analysis.parse_status is Readable by {
                assert(turns[i].analysis.parse_status is Readable);
            }
        }
        if state::unreadable_count(turns) == 0 {
            assert forall|i: int| 0 <= i < turns.len() implies (
            #[trigger] turns[i]).analysis.parse_status is Readable by {
                if i < less.len() {
                    assert(less[i].analysis.parse_status is Readable);
                }
            }
        }
    }
}

/// Every reason to stop has its own sentence, which names the side and the
/// numbers that go with it.
pub proof fn law_every_ending_is_told(gap: nat, message: Seq<char>)
    ensures
        stop_text(None) == "did not finish"@,
        stop_text(Some(StopView::Converged { gap: gap as int })) == "confidences converged, "@
            + text::decimal(gap) + " points apart"@,
        stop_text(Some(StopView::Conceded { side: state::Side::A })) == "Debater "@ + "A"@
            + " conceded"@,
        stop_text(Some(StopView::Conceded { side: state::Side::B })) == "Debater "@ + "B"@
            + " conceded"@,
        stop_text(Some(StopView::Failed { side: state::Side::A, message })) == "Debater "@ + "A"@
            + " could not answer: "@ + message,
        stop_text(Some(StopView::Failed { side: state::Side::B, message })) == "Debater "@ + "B"@
            + " could not answer: "@ + message,
        stop_text(Some(StopView::RoundCap)) == "round cap reached"@,
        stop_text(Some(StopView::CruxIsolated)) == "both sides named the same crux"@,
        stop_text(Some(StopView::NoNewClaims)) == "a round introduced no new claims"@,
        stop_text(Some(StopView::FormatComplete)) == "the format's rounds finished"@,
        stop_text(Some(StopView::Aborted)) == "stopped by the operator"@,
{
}

/// A transcript closes with the table, the caution where there is one, how the
/// debate ended, how many turns it took, what they consumed, and what they cost;
/// before that come the header and the turns.
pub proof fn law_a_transcript_closes_with_the_result(t: TranscriptView, cost: Seq<char>)
    ensures
        ({
            let turns = t.state.turns;
            let usage = state::usage_of(turns);
            let caution = if caution_of(turns) is Some {
                caution_of(turns)->0 + "\n\n"@
            } else {
                Seq::empty()
            };
            let result = "\n## Result\n\n"@ + table_text(state::rounds_of(turns)) + caution
                + "**Outcome:** "@ + stop_text(t.state.stop_reason) + "\n\n"@ + text::decimal(
                usage.turns as nat,
            ) + " turns, "@ + text::decimal(usage.input as nat) + " tokens in, "@ + text::decimal(
                usage.output as nat,
            ) + " out, $"@ + cost + "\n"@;
            markdown_text(t, cost) == header_text(t) + turn_sections(turns) + result
        }),
{
}

/// A transcript is seen as it is.
pub proof fn law_a_transcript_is_seen_as_it_is(t: Transcript<'_>)
    ensures
        t@.version == t.version,
        t@.saved_at == t.saved_at@,
        t@.format == t.format,
        t@.state == t.state@,
        t@.model_a is Some <==> t.model_a is Some,
        t.model_a matches Some(m) ==> t@.model_a == Some(m@),
        t@.model_b is Some <==> t.model_b is Some,
        t.model_b matches Some(m) ==> t@.model_b == Some(m@),
{
}


/// A model that may be missing is seen as it is.
pub proof fn law_a_missing_model_stays_missing(m: &ModelRef)
    ensures
        model_behind(None) is None,
        model_behind(Some(m)) == Some(m@),
{
}

} // verus!
