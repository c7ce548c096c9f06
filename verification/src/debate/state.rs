//! Core debate data model.
//!
//! [`DebateState`] is the single source of truth for a running debate. Formats
//! read it to build the next prompt and to decide whether to stop.

use vstd::prelude::*;

use crate::opencode::types::{self, Cost, Tokens, ToolCall, ToolCallView};
use crate::text;

verus! {

/// Which side of the argument a turn belongs to.
#[derive(Debug, Clone, Copy, PartialEq, Eq, Structural)]
pub enum Side {
    /// The side arguing the first position.
    A,
    /// The side arguing the second position.
    B,
}

/// The opposing side.
pub open spec fn opposite(side: Side) -> Side {
    match side {
        Side::A => Side::B,
        Side::B => Side::A,
    }
}

/// The letter a side is shown as.
pub open spec fn side_text(side: Side) -> Seq<char> {
    match side {
        Side::A => "A"@,
        Side::B => "B"@,
    }
}

/// The letter a side is identified by.
pub open spec fn side_label(side: Side) -> Seq<char> {
    match side {
        Side::A => "a"@,
        Side::B => "b"@,
    }
}

impl Side {
    /// The opposing side.
    pub fn other(self) -> (r: Side)
        ensures
            r == opposite(self),
    {
        match self {
            Side::A => Side::B,
            Side::B => Side::A,
        }
    }

    /// Short lowercase label, used for agent names and identifiers.
    pub fn label(self) -> (r: &'static str)
        ensures
            r@ == side_label(self),
    {
        match self {
            Side::A => "a",
            Side::B => "b",
        }
    }

    /// The letter a side is shown as.
    pub fn to_string(&self) -> (r: String)
        ensures
            r@ == side_text(*self),
    {
        match self {
            Side::A => "A".to_owned(),
            Side::B => "B".to_owned(),
        }
    }
}

/// The opposite of the opposite is the side itself, and never the side's own
/// opposite.
pub proof fn law_other_is_an_involution(side: Side)
    ensures
        opposite(opposite(side)) == side,
        opposite(side) != side,
{
}

/// The proposition under dispute and the two assigned positions.
#[derive(Debug, Clone, PartialEq, Eq)]
pub struct Topic {
    /// The question being settled.
    pub question: String,
    /// The case assigned to side A.
    pub position_a: String,
    /// The case assigned to side B.
    pub position_b: String,
}

/// What a [`Topic`] says.
#[verifier::ext_equal]
pub struct TopicView {
    pub question: Seq<char>,
    pub position_a: Seq<char>,
    pub position_b: Seq<char>,
}

impl View for Topic {
    type V = TopicView;

    open spec fn view(&self) -> TopicView {
        TopicView {
            question: self.question@,
            position_a: self.position_a@,
            position_b: self.position_b@,
        }
    }
}

/// The position assigned to a side.
pub open spec fn position_of(topic: TopicView, side: Side) -> Seq<char> {
    match side {
        Side::A => topic.position_a,
        Side::B => topic.position_b,
    }
}

impl Topic {
    /// Build a topic from a question and both positions.
    pub fn new(question: &str, position_a: &str, position_b: &str) -> (r: Topic)
        ensures
            r@ == (TopicView {
                question: question@,
                position_a: position_a@,
                position_b: position_b@,
            }),
    {
        Topic {
            question: question.to_owned(),
            position_a: position_a.to_owned(),
            position_b: position_b.to_owned(),
        }
    }

    /// The position assigned to the given side.
    pub fn position(&self, side: Side) -> (r: &str)
        ensures
            r@ == position_of(self@, side),
    {
        match side {
            Side::A => self.position_a.as_str(),
            Side::B => self.position_b.as_str(),
        }
    }

    /// A second copy of the topic.
    pub fn duplicate(&self) -> (r: Topic)
        ensures
            r == *self,
    {
        Topic {
            question: self.question.clone(),
            position_a: self.position_a.clone(),
            position_b: self.position_b.clone(),
        }
    }
}

/// A confidence value between 0 and 100 inclusive.
///
/// A type of its own rather than a bare `u8`, so that no value outside the
/// range can reach the convergence table.
#[derive(Debug, Clone, Copy, PartialEq, Eq, PartialOrd, Ord, Structural)]
pub struct Credence(u8);

impl View for Credence {
    type V = int;

    closed spec fn view(&self) -> int {
        self.0 as int
    }
}

/// The percentage of an optional credence.
pub open spec fn opt_percent(c: Option<Credence>) -> Option<int> {
    match c {
        Some(v) => Some(v@),
        None => None,
    }
}

/// The nearest number to `value` that lies between 0 and 100.
pub open spec fn clamp_percent(value: int) -> int {
    if value < 0 {
        0
    } else if value > 100 {
        100
    } else {
        value
    }
}

/// The distance between two numbers.
pub open spec fn distance_between(x: int, y: int) -> int {
    if x < y {
        y - x
    } else {
        x - y
    }
}

/// How far apart two sides are, given each states confidence in its own
/// position: the distance between A's confidence and what B's confidence says
/// of A's position.
pub open spec fn gap_between(a: int, b: int) -> int {
    distance_between(a, 100 - b)
}

impl Credence {
    /// Largest permitted value.
    pub const MAX: u8 = 100;

    /// A confidence is always a percentage.
    #[verifier::type_invariant]
    spec fn in_range(self) -> bool {
        self.0 <= 100
    }

    /// Build a credence, rejecting values above 100.
    pub fn new(value: u8) -> (r: Option<Credence>)
        ensures
            r is Some <==> value <= 100,
            r matches Some(c) ==> c@ == value,
    {
        if value <= Credence::MAX {
            Some(Credence(value))
        } else {
            None
        }
    }

    /// Clamp a signed model-supplied value into range.
    ///
    /// Models occasionally emit values slightly outside 0-100. Clamping keeps
    /// a debate running where rejection would strand it.
    pub fn clamped(value: i64) -> (r: Credence)
        ensures
            r@ == clamp_percent(value as int),
    {
        if value < 0 {
            Credence(0)
        } else if value > 100 {
            Credence(100)
        } else {
            Credence(value as u8)
        }
    }

    /// The underlying percentage.
    pub fn value(self) -> (r: u8)
        ensures
            r == self@,
            r <= 100,
    {
        proof {
            use_type_invariant(&self);
        }
        self.0
    }

    /// Absolute distance from another credence, in percentage points.
    pub fn distance(self, other: Credence) -> (r: u8)
        ensures
            r == distance_between(self@, other@),
            r <= 100,
    {
        let x: u8 = self.value();
        let y: u8 = other.value();
        if x < y {
            y - x
        } else {
            x - y
        }
    }

    /// How far apart two sides are, given each states confidence in its
    /// **own** assigned position, where 0 is complete agreement.
    ///
    /// When the sides agree, one number is near 0 and the other near 100, so
    /// comparing them directly would report maximum disagreement at the exact
    /// moment they have converged.
    pub fn agreement_gap(a: Credence, b: Credence) -> (r: u8)
        ensures
            r == gap_between(a@, b@),
            r <= 100,
    {
        let total: u8 = a.value() + b.value();
        if total < 100 {
            100 - total
        } else {
            total - 100
        }
    }

    /// The percentage as text.
    pub fn to_string(&self) -> (r: String)
        ensures
            r@ == text::decimal(self@ as nat),
    {
        text::number(self.value() as u64)
    }
}

/// The order of the sides does not change how far apart they are.
pub proof fn law_gap_is_symmetric(a: int, b: int)
    ensures
        gap_between(a, b) == gap_between(b, a),
{
}

/// The sides agree completely exactly when their confidences sum to one
/// hundred.
pub proof fn law_gap_is_zero_exactly_at_one_hundred(a: int, b: int)
    ensures
        gap_between(a, b) == 0 <==> a + b == 100,
{
}

/// The distance between two confidences does not depend on their order, and
/// is nothing exactly when they are the same.
pub proof fn law_distance_is_symmetric(x: int, y: int)
    ensures
        distance_between(x, y) == distance_between(y, x),
        distance_between(x, y) == 0 <==> x == y,
{
}

/// Clamping always lands in range, leaves what is in range alone, and changes
/// nothing when repeated.
pub proof fn law_clamping(value: int)
    ensures
        0 <= clamp_percent(value) <= 100,
        0 <= value <= 100 ==> clamp_percent(value) == value,
        clamp_percent(clamp_percent(value)) == clamp_percent(value),
{
}

/// How a claim stands between the two sides.
#[derive(Debug, Clone, Copy, PartialEq, Eq, Structural)]
pub enum ClaimKind {
    /// Both sides accept it.
    Agreed,
    /// The sides disagree about it.
    Disputed,
    /// Raised but not yet addressed.
    Unresolved,
}

/// A discrete claim extracted from a turn.
#[derive(Debug, Clone, PartialEq, Eq)]
pub struct Claim {
    /// The claim itself.
    pub text: String,
    /// Its standing between the sides.
    pub kind: ClaimKind,
}

/// What a [`Claim`] says.
#[verifier::ext_equal]
pub struct ClaimView {
    pub text: Seq<char>,
    pub kind: ClaimKind,
}

impl View for Claim {
    type V = ClaimView;

    open spec fn view(&self) -> ClaimView {
        ClaimView { text: self.text@, kind: self.kind }
    }
}

/// What a list of claims says.
pub open spec fn claim_views(claims: Seq<Claim>) -> Seq<ClaimView> {
    claims.map_values(|c: Claim| c@)
}

/// Whether a turn's structured block could be read.
#[derive(Debug, Clone, PartialEq, Eq)]
pub enum ParseStatus {
    /// The block was present and understood.
    Readable,
    /// No structured block was present.
    Missing,
    /// A block was present but could not be read.
    Malformed {
        /// Why it could not be read.
        reason: String,
    },
}

/// What a [`ParseStatus`] says.
#[verifier::ext_equal]
pub enum ParseView {
    Readable,
    Missing,
    Malformed { reason: Seq<char> },
}

impl View for ParseStatus {
    type V = ParseView;

    open spec fn view(&self) -> ParseView {
        match *self {
            ParseStatus::Readable => ParseView::Readable,
            ParseStatus::Missing => ParseView::Missing,
            ParseStatus::Malformed { reason } => ParseView::Malformed { reason: reason@ },
        }
    }
}

impl ParseStatus {
    /// Whether the structured block was successfully read.
    pub fn is_ok(&self) -> (r: bool)
        ensures
            r == (self@ == ParseView::Readable),
    {
        match self {
            ParseStatus::Readable => true,
            _ => false,
        }
    }

    /// A second copy of the status.
    pub fn duplicate(&self) -> (r: ParseStatus)
        ensures
            r == *self,
    {
        match self {
            ParseStatus::Readable => ParseStatus::Readable,
            ParseStatus::Missing => ParseStatus::Missing,
            ParseStatus::Malformed { reason } => ParseStatus::Malformed { reason: reason.clone() },
        }
    }
}

/// Structure extracted from a turn, over and above its prose.
///
/// Every field is optional. A turn whose structured block is missing or
/// malformed still counts as a turn: the debate degrades to prose rather than
/// failing.
#[derive(Debug, Clone, PartialEq, Eq)]
pub struct TurnAnalysis {
    /// Stated confidence, for formats that track it.
    pub credence: Option<Credence>,
    /// The side's justification for any movement in confidence.
    pub moved_because: Option<String>,
    /// Points explicitly conceded this turn.
    pub conceded: Vec<String>,
    /// The claim this side's case most depends on.
    pub key_claim: Option<String>,
    /// The disagreement the side believes the dispute reduces to.
    pub crux: Option<String>,
    /// Claims extracted for the ledger format.
    pub claims: Vec<Claim>,
    /// Whether the structured block was readable.
    pub parse_status: ParseStatus,
}

/// What a [`TurnAnalysis`] says.
#[verifier::ext_equal]
pub struct AnalysisView {
    pub credence: Option<int>,
    pub moved_because: Option<Seq<char>>,
    pub conceded: Seq<Seq<char>>,
    pub key_claim: Option<Seq<char>>,
    pub crux: Option<Seq<char>>,
    pub claims: Seq<ClaimView>,
    pub parse_status: ParseView,
}

impl View for TurnAnalysis {
    type V = AnalysisView;

    open spec fn view(&self) -> AnalysisView {
        AnalysisView {
            credence: opt_percent(self.credence),
            moved_because: text::opt_text(self.moved_because),
            conceded: text::texts(self.conceded@),
            key_claim: text::opt_text(self.key_claim),
            crux: text::opt_text(self.crux),
            claims: claim_views(self.claims@),
            parse_status: self.parse_status@,
        }
    }
}

/// An analysis carrying no structure.
pub open spec fn no_structure(parse_status: ParseView) -> AnalysisView {
    AnalysisView {
        credence: None,
        moved_because: None,
        conceded: Seq::empty(),
        key_claim: None,
        crux: None,
        claims: Seq::empty(),
        parse_status,
    }
}

impl TurnAnalysis {
    /// An analysis carrying no structure, for a turn with no readable block.
    pub fn empty(parse_status: ParseStatus) -> (r: TurnAnalysis)
        ensures
            r@ == no_structure(parse_status@),
    {
        let r = TurnAnalysis {
            credence: None,
            moved_because: None,
            conceded: Vec::new(),
            key_claim: None,
            crux: None,
            claims: Vec::new(),
            parse_status,
        };
        assert(r@ =~= no_structure(parse_status@));
        r
    }

    /// A second copy of the analysis.
    pub fn duplicate(&self) -> (r: TurnAnalysis)
        ensures
            r@ == self@,
    {
        let mut claims: Vec<Claim> = Vec::new();
        let mut i: usize = 0;
        while i < self.claims.len()
            invariant
                i <= self.claims.len(),
                claims@ == self.claims@.take(i as int),
            decreases self.claims.len() - i,
        {
            let claim = &self.claims[i];
            claims.push(Claim { text: claim.text.clone(), kind: claim.kind });
            assert(claims@ =~= self.claims@.take(i + 1));
            i += 1;
        }
        assert(self.claims@.take(i as int) =~= self.claims@);
        let r = TurnAnalysis {
            credence: self.credence,
            moved_because: self.moved_because.clone(),
            conceded: self.conceded.clone(),
            key_claim: self.key_claim.clone(),
            crux: self.crux.clone(),
            claims,
            parse_status: self.parse_status.duplicate(),
        };
        assert(r@ =~= self@);
        r
    }
}

/// One completed turn by one side.
#[derive(Debug, Clone, PartialEq, Eq)]
pub struct Turn {
    /// Position in the debate, counting from zero.
    pub index: usize,
    /// Round this turn belongs to, counting from one.
    pub round: usize,
    /// Which side spoke.
    pub side: Side,
    /// The visible argument, with any structured block stripped.
    pub text: String,
    /// Structure extracted from the turn.
    pub analysis: TurnAnalysis,
    /// Tools invoked while producing the turn.
    pub tool_calls: Vec<ToolCall>,
    /// Tokens consumed across every message in the turn.
    pub tokens: Tokens,
    /// Cost in USD across every message in the turn.
    pub cost: Cost,
}

/// What a [`Turn`] says.
#[verifier::ext_equal]
pub struct TurnView {
    pub index: int,
    pub round: int,
    pub side: Side,
    pub text: Seq<char>,
    pub analysis: AnalysisView,
    pub tool_calls: Seq<ToolCallView>,
    pub tokens: Tokens,
    pub cost: Cost,
}

impl View for Turn {
    type V = TurnView;

    open spec fn view(&self) -> TurnView {
        TurnView {
            index: self.index as int,
            round: self.round as int,
            side: self.side,
            text: self.text@,
            analysis: self.analysis@,
            tool_calls: types::tool_views(self.tool_calls@),
            tokens: self.tokens,
            cost: self.cost,
        }
    }
}

impl Turn {
    /// A second copy of the turn.
    pub fn duplicate(&self) -> (r: Turn)
        ensures
            r@ == self@,
    {
        Turn {
            index: self.index,
            round: self.round,
            side: self.side,
            text: self.text.clone(),
            analysis: self.analysis.duplicate(),
            tool_calls: types::duplicate_calls(&self.tool_calls),
            tokens: self.tokens,
            cost: self.cost,
        }
    }
}

/// What a list of turns says.
pub open spec fn turn_views(turns: Seq<Turn>) -> Seq<TurnView> {
    turns.map_values(|t: Turn| t@)
}

/// How one side's stated confidence moved across a debate.
#[derive(Debug, Clone, Copy, PartialEq, Eq, Structural)]
pub struct Movement {
    /// The side measured.
    pub side: Side,
    /// Its first readable confidence.
    pub opened: Credence,
    /// Its last readable confidence.
    pub closed: Credence,
    /// How many readable confidences it stated. One means the movement is
    /// unknown rather than zero.
    pub readings: usize,
}

impl Movement {
    /// Change in stated confidence, in percentage points.
    ///
    /// Signed, because the direction is the point: a side that talked itself
    /// down has done something different from one that dug in.
    pub fn delta(&self) -> (r: i16)
        ensures
            r == self.closed@ - self.opened@,
            -100 <= r <= 100,
    {
        self.closed.value() as i16 - self.opened.value() as i16
    }
}

/// A point one side gave up.
#[derive(Debug, Clone, PartialEq, Eq)]
pub struct Concession {
    /// The side that conceded it.
    pub side: Side,
    /// Round it was conceded in.
    pub round: usize,
    /// What was conceded, as the side put it.
    pub text: String,
}

/// What a [`Concession`] says.
#[verifier::ext_equal]
pub struct ConcessionView {
    pub side: Side,
    pub round: int,
    pub text: Seq<char>,
}

impl View for Concession {
    type V = ConcessionView;

    open spec fn view(&self) -> ConcessionView {
        ConcessionView { side: self.side, round: self.round as int, text: self.text@ }
    }
}

/// Token and cost accounting over a set of turns.
///
/// Reasoning tokens are carried separately from output because models that
/// report them bill them separately.
#[derive(Debug, Clone, PartialEq, Eq)]
pub struct Usage {
    /// Turns counted.
    pub turns: usize,
    /// Tokens consumed across them.
    pub tokens: Tokens,
    /// What each of them cost, in the order they were taken.
    pub costs: Vec<Cost>,
}

/// What a [`Usage`] says.
#[verifier::ext_equal]
pub struct UsageView {
    pub turns: int,
    pub input: int,
    pub output: int,
    pub reasoning: int,
    pub costs: Seq<Cost>,
}

impl View for Usage {
    type V = UsageView;

    open spec fn view(&self) -> UsageView {
        UsageView {
            turns: self.turns as int,
            input: self.tokens.input as int,
            output: self.tokens.output as int,
            reasoning: self.tokens.reasoning as int,
            costs: self.costs@,
        }
    }
}

impl Default for Usage {
    /// The accounting of no turns at all.
    fn default() -> (r: Usage)
        ensures
            r@ == usage_of(Seq::empty()),
    {
        let r = Usage { turns: 0, tokens: Tokens::default(), costs: Vec::new() };
        assert(r@ =~= usage_of(Seq::empty()));
        r
    }
}

/// One row of the convergence table.
#[derive(Debug, Clone, Copy, PartialEq, Eq, Structural)]
pub struct CredenceRound {
    /// Round these readings come from, counting from one.
    pub round: usize,
    /// Side A's stated confidence in side A's position, if it stated one.
    pub a: Option<Credence>,
    /// Side B's stated confidence in side B's position, if it stated one.
    pub b: Option<Credence>,
}

/// What a [`CredenceRound`] says.
#[verifier::ext_equal]
pub struct RowView {
    pub round: int,
    pub a: Option<int>,
    pub b: Option<int>,
}

impl View for CredenceRound {
    type V = RowView;

    open spec fn view(&self) -> RowView {
        RowView { round: self.round as int, a: opt_percent(self.a), b: opt_percent(self.b) }
    }
}

/// How far apart the sides are in a row, when both stated a confidence.
pub open spec fn row_gap(row: RowView) -> Option<int> {
    match (row.a, row.b) {
        (Some(a), Some(b)) => Some(gap_between(a, b)),
        _ => None,
    }
}

impl CredenceRound {
    /// How far apart the two sides are, when both stated a confidence.
    pub fn gap(&self) -> (r: Option<u8>)
        ensures
            r is Some <==> row_gap(self@) is Some,
            r matches Some(g) ==> row_gap(self@) == Some(g as int) && g <= 100,
    {
        match (self.a, self.b) {
            (Some(a), Some(b)) => Some(Credence::agreement_gap(a, b)),
            _ => None,
        }
    }
}

/// Why a debate ended.
#[derive(Debug, Clone, PartialEq, Eq)]
pub enum StopReason {
    /// The sides' stated confidences came within the format's threshold.
    Converged {
        /// Final gap in percentage points.
        gap: u8,
    },
    /// A side conceded the question.
    Conceded {
        /// The side that conceded.
        side: Side,
    },
    /// Both sides named the same crux.
    CruxIsolated,
    /// A full round introduced no new claims.
    NoNewClaims,
    /// The format's scripted rounds finished.
    FormatComplete,
    /// The hard round cap was reached.
    RoundCap,
    /// The operator stopped it.
    Aborted,
    /// A side could not produce a turn, so there was nothing left to debate.
    ///
    /// Distinct from every other reason here: the debate did not reach a
    /// result, and whatever numbers it did collect are partial.
    Failed {
        /// The side whose turn could not be produced.
        side: Side,
        /// What went wrong, as reported by opencode or the provider.
        message: String,
    },
}

/// What a [`StopReason`] says.
#[verifier::ext_equal]
pub enum StopView {
    Converged { gap: int },
    Conceded { side: Side },
    CruxIsolated,
    NoNewClaims,
    FormatComplete,
    RoundCap,
    Aborted,
    Failed { side: Side, message: Seq<char> },
}

impl View for StopReason {
    type V = StopView;

    open spec fn view(&self) -> StopView {
        match *self {
            StopReason::Converged { gap } => StopView::Converged { gap: gap as int },
            StopReason::Conceded { side } => StopView::Conceded { side },
            StopReason::CruxIsolated => StopView::CruxIsolated,
            StopReason::NoNewClaims => StopView::NoNewClaims,
            StopReason::FormatComplete => StopView::FormatComplete,
            StopReason::RoundCap => StopView::RoundCap,
            StopReason::Aborted => StopView::Aborted,
            StopReason::Failed { side, message } => StopView::Failed { side, message: message@ },
        }
    }
}

/// The reason behind an optional one.
pub open spec fn opt_stop(r: Option<StopReason>) -> Option<StopView> {
    match r {
        Some(v) => Some(v@),
        None => None,
    }
}

impl StopReason {
    /// A second copy of the reason.
    pub fn duplicate(&self) -> (r: StopReason)
        ensures
            r == *self,
    {
        match self {
            StopReason::Converged { gap } => StopReason::Converged { gap: *gap },
            StopReason::Conceded { side } => StopReason::Conceded { side: *side },
            StopReason::CruxIsolated => StopReason::CruxIsolated,
            StopReason::NoNewClaims => StopReason::NoNewClaims,
            StopReason::FormatComplete => StopReason::FormatComplete,
            StopReason::RoundCap => StopReason::RoundCap,
            StopReason::Aborted => StopReason::Aborted,
            StopReason::Failed { side, message } => StopReason::Failed {
                side: *side,
                message: message.clone(),
            },
        }
    }
}

/// Everything known about a debate in progress.
#[derive(Debug, Clone, PartialEq, Eq)]
pub struct DebateState {
    /// The proposition and both positions.
    pub topic: Topic,
    /// Hard cap on rounds, regardless of format.
    pub max_rounds: usize,
    /// Completed turns, in order.
    pub turns: Vec<Turn>,
    /// Why the debate ended, once it has.
    pub stop_reason: Option<StopReason>,
}

/// What a [`DebateState`] says.
#[verifier::ext_equal]
pub struct StateView {
    pub topic: TopicView,
    pub max_rounds: int,
    pub turns: Seq<TurnView>,
    pub stop_reason: Option<StopView>,
}

impl View for DebateState {
    type V = StateView;

    open spec fn view(&self) -> StateView {
        StateView {
            topic: self.topic@,
            max_rounds: self.max_rounds as int,
            turns: turn_views(self.turns@),
            stop_reason: opt_stop(self.stop_reason),
        }
    }
}

/// The side that speaks at a position when the sides take turns and A opens.
pub open spec fn speaker(index: int) -> Side {
    if index % 2 == 0 {
        Side::A
    } else {
        Side::B
    }
}

/// The round a position belongs to, counting from one: a round is one turn
/// from each side.
pub open spec fn round_at(index: int) -> int {
    index / 2 + 1
}

/// The position of the most recent turn taken by a side.
pub open spec fn last_index(turns: Seq<TurnView>, side: Side) -> Option<int>
    decreases turns.len(),
{
    if turns.len() == 0 {
        None
    } else if turns.last().side == side {
        Some(turns.len() - 1)
    } else {
        last_index(turns.drop_last(), side)
    }
}

/// Every confidence stated by a side with the round it comes from, oldest
/// first.
pub open spec fn series_of(turns: Seq<TurnView>, side: Side) -> Seq<(int, int)>
    decreases turns.len(),
{
    if turns.len() == 0 {
        Seq::empty()
    } else {
        let before = series_of(turns.drop_last(), side);
        let turn = turns.last();
        match turn.analysis.credence {
            Some(value) if turn.side == side => before.push((turn.round, value)),
            _ => before,
        }
    }
}

/// The most recent confidence stated by a side.
pub open spec fn latest_of(turns: Seq<TurnView>, side: Side) -> Option<int> {
    let series = series_of(turns, side);
    if series.len() == 0 {
        None
    } else {
        Some(series.last().1)
    }
}

/// Where a round stands in the table.
pub open spec fn row_index(rows: Seq<RowView>, round: int) -> Option<int>
    decreases rows.len(),
{
    if rows.len() == 0 {
        None
    } else {
        match row_index(rows.drop_last(), round) {
            Some(i) => Some(i),
            None => if rows.last().round == round {
                Some(rows.len() - 1)
            } else {
                None
            },
        }
    }
}

/// A row with one side's confidence entered.
pub open spec fn with_reading(row: RowView, side: Side, value: int) -> RowView {
    match side {
        Side::A => RowView { round: row.round, a: Some(value), b: row.b },
        Side::B => RowView { round: row.round, a: row.a, b: Some(value) },
    }
}

/// The table after one more reading: entered in its round's row, which is
/// added at the end where the round has none yet.
pub open spec fn with_entry(rows: Seq<RowView>, round: int, side: Side, value: int) -> Seq<
    RowView,
> {
    match row_index(rows, round) {
        Some(i) => rows.update(i, with_reading(rows[i], side, value)),
        None => rows.push(with_reading(RowView { round, a: None, b: None }, side, value)),
    }
}

/// The convergence table: one row per round in which either side stated a
/// confidence.
pub open spec fn rounds_of(turns: Seq<TurnView>) -> Seq<RowView>
    decreases turns.len(),
{
    if turns.len() == 0 {
        Seq::empty()
    } else {
        let before = rounds_of(turns.drop_last());
        let turn = turns.last();
        match turn.analysis.credence {
            Some(value) => with_entry(before, turn.round, turn.side, value),
            None => before,
        }
    }
}

/// How many turns produced no readable structured block.
pub open spec fn unreadable_count(turns: Seq<TurnView>) -> int {
    turns.filter(|t: TurnView| t.analysis.parse_status != ParseView::Readable).len() as int
}

/// The conceded points of one turn that say anything, without the white space
/// around them.
pub open spec fn points_of(conceded: Seq<Seq<char>>, side: Side, round: int) -> Seq<ConcessionView>
    decreases conceded.len(),
{
    if conceded.len() == 0 {
        Seq::empty()
    } else {
        let before = points_of(conceded.drop_last(), side, round);
        if text::is_blank(conceded.last()) {
            before
        } else {
            before.push(ConcessionView { side, round, text: text::trimmed(conceded.last()) })
        }
    }
}

/// Every point either side gave up, in the order it was conceded.
pub open spec fn concessions_of(turns: Seq<TurnView>) -> Seq<ConcessionView>
    decreases turns.len(),
{
    if turns.len() == 0 {
        Seq::empty()
    } else {
        let turn = turns.last();
        concessions_of(turns.drop_last()) + points_of(
            turn.analysis.conceded,
            turn.side,
            turn.round,
        )
    }
}

/// The last claim a side stated that its case depends on. A blank one states
/// nothing.
pub open spec fn last_claim(turns: Seq<TurnView>, side: Side) -> Option<Seq<char>>
    decreases turns.len(),
{
    if turns.len() == 0 {
        None
    } else {
        let turn = turns.last();
        match turn.analysis.key_claim {
            Some(claim) if turn.side == side && !text::is_blank(claim) => Some(claim),
            _ => last_claim(turns.drop_last(), side),
        }
    }
}

/// The claim a side's case finally rested on, without the white space around
/// it.
pub open spec fn key_claim_of(turns: Seq<TurnView>, side: Side) -> Option<Seq<char>> {
    match last_claim(turns, side) {
        Some(claim) => Some(text::trimmed(claim)),
        None => None,
    }
}

/// The turns one side took, oldest first.
pub open spec fn of_side(turns: Seq<TurnView>, side: Side) -> Seq<TurnView> {
    turns.filter(|t: TurnView| t.side == side)
}

/// Prompt tokens across turns.
pub open spec fn input_total(turns: Seq<TurnView>) -> int
    decreases turns.len(),
{
    if turns.len() == 0 {
        0
    } else {
        input_total(turns.drop_last()) + turns.last().tokens.input
    }
}

/// Completion tokens across turns.
pub open spec fn output_total(turns: Seq<TurnView>) -> int
    decreases turns.len(),
{
    if turns.len() == 0 {
        0
    } else {
        output_total(turns.drop_last()) + turns.last().tokens.output
    }
}

/// Reasoning tokens across turns.
pub open spec fn reasoning_total(turns: Seq<TurnView>) -> int
    decreases turns.len(),
{
    if turns.len() == 0 {
        0
    } else {
        reasoning_total(turns.drop_last()) + turns.last().tokens.reasoning
    }
}

/// Every token total fits the counter that holds it.
pub open spec fn totals_fit(turns: Seq<TurnView>) -> bool {
    &&& input_total(turns) <= u64::MAX
    &&& output_total(turns) <= u64::MAX
    &&& reasoning_total(turns) <= u64::MAX
}

/// The accounting of a list of turns.
pub open spec fn usage_of(turns: Seq<TurnView>) -> UsageView {
    UsageView {
        turns: turns.len() as int,
        input: input_total(turns),
        output: output_total(turns),
        reasoning: reasoning_total(turns),
        costs: turns.map_values(|t: TurnView| t.cost),
    }
}

/// Shows that looking at one more turn extends what was seen by that turn.
proof fn lemma_take_turn(turns: Seq<Turn>, i: int)
    requires
        0 <= i < turns.len(),
    ensures
        turn_views(turns).take(i + 1).drop_last() == turn_views(turns).take(i),
        turn_views(turns).take(i + 1).last() == turns[i]@,
        turn_views(turns).take(i + 1) == turn_views(turns).take(i).push(turns[i]@),
{
    assert(turn_views(turns).take(i + 1).drop_last() =~= turn_views(turns).take(i));
    assert(turn_views(turns).take(i + 1) =~= turn_views(turns).take(i).push(turns[i]@));
}

/// Token totals only grow as turns are added.
proof fn lemma_totals_grow(turns: Seq<TurnView>, n: int)
    requires
        0 <= n <= turns.len(),
    ensures
        0 <= input_total(turns.take(n)) <= input_total(turns),
        0 <= output_total(turns.take(n)) <= output_total(turns),
        0 <= reasoning_total(turns.take(n)) <= reasoning_total(turns),
    decreases turns.len(),
{
    if n == turns.len() {
        assert(turns.take(n) =~= turns);
        if n > 0 {
            lemma_totals_grow(turns.drop_last(), n - 1);
            assert(turns.drop_last().take(n - 1) =~= turns.drop_last());
        }
    } else {
        lemma_totals_grow(turns.drop_last(), n);
        assert(turns.drop_last().take(n) =~= turns.take(n));
    }
}

/// Filtering commutes with adding one element at the end.
pub proof fn lemma_filter_one_more<T>(s: Seq<T>, x: T, keep: spec_fn(T) -> bool)
    ensures
        s.push(x).filter(keep) == if keep(x) {
            s.filter(keep).push(x)
        } else {
            s.filter(keep)
        },
{
    reveal(Seq::filter);
    assert(s.push(x).drop_last() =~= s);
}

impl Usage {
    /// Account for the turns of one side, or of both where none is named.
    fn of(turns: &Vec<Turn>, side: Option<Side>) -> (r: Usage)
        requires
            totals_fit(
                match side {
                    Some(s) => of_side(turn_views(turns@), s),
                    None => turn_views(turns@),
                },
            ),
        ensures
            r@ == usage_of(
                match side {
                    Some(s) => of_side(turn_views(turns@), s),
                    None => turn_views(turns@),
                },
            ),
    {
        let ghost all = turn_views(turns@);
        let ghost wanted = match side {
            Some(s) => of_side(all, s),
            None => all,
        };
        let mut count: usize = 0;
        let mut input: u64 = 0;
        let mut output: u64 = 0;
        let mut reasoning: u64 = 0;
        let mut costs: Vec<Cost> = Vec::new();
        let ghost mut seen: Seq<TurnView> = Seq::empty();
        proof {
            reveal(Seq::filter);
            assert(all.take(0) =~= Seq::<TurnView>::empty());
            assert(costs@ =~= usage_of(seen).costs);
        }
        let mut i: usize = 0;
        while i < turns.len()
            invariant
                i <= turns.len(),
                all == turn_views(turns@),
                totals_fit(wanted),
                wanted == (match side {
                    Some(s) => of_side(all, s),
                    None => all,
                }),
                seen == (match side {
                    Some(s) => of_side(all.take(i as int), s),
                    None => all.take(i as int),
                }),
                count <= i,
                count == seen.len(),
                input == input_total(seen),
                output == output_total(seen),
                reasoning == reasoning_total(seen),
                costs@ == usage_of(seen).costs,
            decreases turns.len() - i,
        {
            let turn = &turns[i];
            let counts: bool = match side {
                Some(s) => turn.side == s,
                None => true,
            };
            proof {
                lemma_take_turn(turns@, i as int);
                if let Some(s) = side {
                    lemma_filter_one_more(
                        all.take(i as int),
                        turn@,
                        |t: TurnView| t.side == s,
                    );
                    lemma_filter_prefix(all, i + 1, |t: TurnView| t.side == s);
                }
            }
            if counts {
                let ghost more = seen.push(turn@);
                proof {
                    assert(more.drop_last() =~= seen);
                    match side {
                        Some(s) => {
                            assert(more == of_side(all.take(i + 1), s));
                        },
                        None => {
                            assert(more == all.take(i + 1));
                            assert(wanted.take(i + 1) == more);
                        },
                    }
                    lemma_totals_grow(wanted, more.len() as int);
                    assert(wanted.take(more.len() as int) == more);
                }
                count += 1;
                input = input + turn.tokens.input;
                output = output + turn.tokens.output;
                reasoning = reasoning + turn.tokens.reasoning;
                costs.push(turn.cost);
                proof {
                    assert(costs@ =~= usage_of(more).costs);
                    seen = more;
                }
            }
            i += 1;
        }
        assert(all.take(i as int) =~= all);
        let r = Usage { turns: count, tokens: Tokens { input, output, reasoning }, costs };
        assert(r@ =~= usage_of(wanted));
        r
    }
}

/// What survives a filter of a prefix stands at the start of what survives the
/// filter of the whole.
pub proof fn lemma_filter_prefix<T>(s: Seq<T>, n: int, keep: spec_fn(T) -> bool)
    requires
        0 <= n <= s.len(),
    ensures
        s.take(n).filter(keep).len() <= s.filter(keep).len(),
        s.filter(keep).take(s.take(n).filter(keep).len() as int) == s.take(n).filter(keep),
    decreases s.len() - n,
{
    let kept = s.take(n).filter(keep);
    if n == s.len() {
        assert(s.take(n) =~= s);
        assert(kept.take(kept.len() as int) =~= kept);
    } else {
        lemma_filter_prefix(s, n + 1, keep);
        lemma_filter_one_more(s.take(n), s[n], keep);
        assert(s.take(n + 1) =~= s.take(n).push(s[n]));
        let next = s.take(n + 1).filter(keep);
        let all = s.filter(keep);
        assert(next.take(kept.len() as int) =~= kept);
        assert(all.take(next.len() as int).take(kept.len() as int) =~= all.take(kept.len() as int));
    }
}

impl DebateState {
    /// Begin a debate with no turns taken.
    pub fn new(topic: Topic, max_rounds: usize) -> (r: DebateState)
        ensures
            r.topic == topic,
            r@ == (StateView {
                topic: topic@,
                max_rounds: max_rounds as int,
                turns: Seq::empty(),
                stop_reason: None,
            }),
    {
        let r = DebateState { topic, max_rounds, turns: Vec::new(), stop_reason: None };
        assert(r@.turns =~= Seq::<TurnView>::empty());
        r
    }

    /// The round the next turn belongs to, counting from one.
    ///
    /// A round is one turn from each side, so it advances every two turns.
    pub fn current_round(&self) -> (r: usize)
        ensures
            r == round_at(self@.turns.len() as int),
    {
        self.turns.len() / 2 + 1
    }

    /// Number of complete rounds, where both sides have spoken.
    pub fn completed_rounds(&self) -> (r: usize)
        ensures
            r == self@.turns.len() / 2,
    {
        self.turns.len() / 2
    }

    /// Which side speaks next. Side A opens.
    pub fn next_side(&self) -> (r: Side)
        ensures
            r == speaker(self@.turns.len() as int),
    {
        if self.turns.len() % 2 == 0 {
            Side::A
        } else {
            Side::B
        }
    }

    /// The most recent turn taken by the given side.
    pub fn last_turn(&self, side: Side) -> (r: Option<&Turn>)
        ensures
            match last_index(self@.turns, side) {
                Some(i) => 0 <= i < self.turns@.len() && r == Some(&self.turns@[i]),
                None => r is None,
            },
    {
        let mut i: usize = self.turns.len();
        assert(self@.turns.take(i as int) =~= self@.turns);
        while i > 0
            invariant
                i <= self.turns.len(),
                self@.turns == turn_views(self.turns@),
                last_index(self@.turns.take(i as int), side) == last_index(self@.turns, side),
            decreases i,
        {
            i -= 1;
            proof {
                lemma_take_turn(self.turns@, i as int);
            }
            if self.turns[i].side == side {
                return Some(&self.turns[i]);
            }
        }
        None
    }

    /// The most recent turn by either side.
    pub fn last_turn_any(&self) -> (r: Option<&Turn>)
        ensures
            r is Some <==> self.turns@.len() > 0,
            r matches Some(t) ==> *t == self.turns@.last(),
    {
        if self.turns.len() == 0 {
            None
        } else {
            Some(&self.turns[self.turns.len() - 1])
        }
    }

    /// The most recent credence stated by the given side.
    pub fn latest_credence(&self, side: Side) -> (r: Option<Credence>)
        ensures
            opt_percent(r) == latest_of(self@.turns, side),
    {
        let mut i: usize = self.turns.len();
        assert(self@.turns.take(i as int) =~= self@.turns);
        while i > 0
            invariant
                i <= self.turns.len(),
                self@.turns == turn_views(self.turns@),
                series_of(self@.turns.take(i as int), side) == series_of(self@.turns, side),
            decreases i,
        {
            i -= 1;
            proof {
                lemma_take_turn(self.turns@, i as int);
            }
            if self.turns[i].side == side && self.turns[i].analysis.credence.is_some() {
                return self.turns[i].analysis.credence;
            }
        }
        None
    }

    /// Every credence stated by the given side, paired with its round, oldest
    /// first.
    ///
    /// The round must travel with the value. Turns whose structured block was
    /// unreadable state no credence, so the Nth reading is not necessarily the
    /// Nth round.
    pub fn credence_series(&self, side: Side) -> (r: Vec<(usize, Credence)>)
        ensures
            reading_views(r@) == series_of(self@.turns, side),
    {
        let mut series: Vec<(usize, Credence)> = Vec::new();
        let mut i: usize = 0;
        assert(self@.turns.take(0) =~= Seq::<TurnView>::empty());
        assert(reading_views(series@) =~= Seq::<(int, int)>::empty());
        while i < self.turns.len()
            invariant
                i <= self.turns.len(),
                self@.turns == turn_views(self.turns@),
                reading_views(series@) == series_of(self@.turns.take(i as int), side),
            decreases self.turns.len() - i,
        {
            proof {
                lemma_take_turn(self.turns@, i as int);
            }
            let turn = &self.turns[i];
            if turn.side == side {
                if let Some(value) = turn.analysis.credence {
                    let ghost before = series@;
                    series.push((turn.round, value));
                    assert(reading_views(series@) =~= reading_views(before).push(
                        (turn.round as int, value@),
                    ));
                }
            }
            i += 1;
        }
        assert(self@.turns.take(i as int) =~= self@.turns);
        series
    }

    /// The convergence table: one row per round in which either side stated a
    /// credence, each carrying whichever readings exist.
    pub fn credence_rounds(&self) -> (r: Vec<CredenceRound>)
        ensures
            row_views(r@) == rounds_of(self@.turns),
    {
        let mut rows: Vec<CredenceRound> = Vec::new();
        let mut i: usize = 0;
        assert(self@.turns.take(0) =~= Seq::<TurnView>::empty());
        assert(row_views(rows@) =~= Seq::<RowView>::empty());
        while i < self.turns.len()
            invariant
                i <= self.turns.len(),
                self@.turns == turn_views(self.turns@),
                row_views(rows@) == rounds_of(self@.turns.take(i as int)),
            decreases self.turns.len() - i,
        {
            proof {
                lemma_take_turn(self.turns@, i as int);
            }
            let turn = &self.turns[i];
            if let Some(value) = turn.analysis.credence {
                let ghost before = rows@;
                let at: usize = match find_row(&rows, turn.round) {
                    Some(at) => at,
                    None => {
                        rows.push(CredenceRound { round: turn.round, a: None, b: None });
                        rows.len() - 1
                    },
                };
                let row = rows[at];
                let filled = match turn.side {
                    Side::A => CredenceRound { round: row.round, a: Some(value), b: row.b },
                    Side::B => CredenceRound { round: row.round, a: row.a, b: Some(value) },
                };
                rows.set(at, filled);
                assert(row_views(rows@) =~= with_entry(
                    row_views(before),
                    turn.round as int,
                    turn.side,
                    value@,
                ));
            }
            i += 1;
        }
        assert(self@.turns.take(i as int) =~= self@.turns);
        rows
    }

    /// How many turns produced no readable structured block.
    ///
    /// A debate can run to completion with most of its structure unreadable,
    /// which weakens every conclusion drawn from the numbers, so the count is
    /// surfaced rather than hidden.
    pub fn unreadable_turns(&self) -> (r: usize)
        ensures
            r == unreadable_count(self@.turns),
    {
        let ghost unread = |t: TurnView| t.analysis.parse_status != ParseView::Readable;
        let mut count: usize = 0;
        let mut i: usize = 0;
        proof {
            reveal(Seq::filter);
            assert(self@.turns.take(0) =~= Seq::<TurnView>::empty());
        }
        while i < self.turns.len()
            invariant
                i <= self.turns.len(),
                self@.turns == turn_views(self.turns@),
                unread == (|t: TurnView| t.analysis.parse_status != ParseView::Readable),
                count <= i,
                count == self@.turns.take(i as int).filter(unread).len(),
            decreases self.turns.len() - i,
        {
            proof {
                lemma_take_turn(self.turns@, i as int);
                lemma_filter_one_more(self@.turns.take(i as int), self.turns@[i as int]@, unread);
            }
            if !self.turns[i].analysis.parse_status.is_ok() {
                count += 1;
            }
            i += 1;
        }
        assert(self@.turns.take(i as int) =~= self@.turns);
        count
    }

    /// How one side's stated confidence moved across the debate.
    ///
    /// Measured between the first and last **readable** readings, not the
    /// first and last turns. `None` when the side never stated a readable
    /// confidence.
    pub fn movement(&self, side: Side) -> (r: Option<Movement>)
        ensures
            r is Some <==> series_of(self@.turns, side).len() > 0,
            r matches Some(m) ==> {
                &&& m.side == side
                &&& m.opened@ == series_of(self@.turns, side).first().1
                &&& m.closed@ == series_of(self@.turns, side).last().1
                &&& m.readings == series_of(self@.turns, side).len()
            },
    {
        let series = self.credence_series(side);
        if series.len() == 0 {
            assert(reading_views(series@).len() == 0);
            return None;
        }
        assert(reading_views(series@).len() == series.len());
        assert(reading_views(series@).first().1 == series@[0].1@);
        assert(reading_views(series@).last().1 == series@.last().1@);
        Some(
            Movement {
                side,
                opened: series[0].1,
                closed: series[series.len() - 1].1,
                readings: series.len(),
            },
        )
    }

    /// Every point either side gave up, in the order it was conceded, blank
    /// entries dropped.
    pub fn concessions(&self) -> (r: Vec<Concession>)
        ensures
            concession_views(r@) == concessions_of(self@.turns),
    {
        let mut points: Vec<Concession> = Vec::new();
        let mut i: usize = 0;
        assert(self@.turns.take(0) =~= Seq::<TurnView>::empty());
        assert(concession_views(points@) =~= Seq::<ConcessionView>::empty());
        while i < self.turns.len()
            invariant
                i <= self.turns.len(),
                self@.turns == turn_views(self.turns@),
                concession_views(points@) == concessions_of(self@.turns.take(i as int)),
            decreases self.turns.len() - i,
        {
            proof {
                lemma_take_turn(self.turns@, i as int);
            }
            let turn = &self.turns[i];
            let ghost conceded = text::texts(turn.analysis.conceded@);
            let ghost earlier = concession_views(points@);
            let mut j: usize = 0;
            assert(earlier + points_of(conceded.take(0), turn.side, turn.round as int)
                =~= earlier);
            while j < turn.analysis.conceded.len()
                invariant
                    j <= turn.analysis.conceded.len(),
                    conceded == text::texts(turn.analysis.conceded@),
                    concession_views(points@) == earlier + points_of(
                        conceded.take(j as int),
                        turn.side,
                        turn.round as int,
                    ),
                decreases turn.analysis.conceded.len() - j,
            {
                let point = turn.analysis.conceded[j].as_str();
                proof {
                    assert(conceded.take(j + 1).drop_last() =~= conceded.take(j as int));
                    assert(conceded.take(j + 1).last() == point@);
                }
                if !text::blank(point) {
                    let ghost before = points@;
                    let entry = Concession {
                        side: turn.side,
                        round: turn.round,
                        text: text::trim(point).to_owned(),
                    };
                    points.push(entry);
                    assert(concession_views(points@) =~= concession_views(before).push(entry@));
                    assert(concession_views(points@) =~= earlier + points_of(
                        conceded.take(j + 1),
                        turn.side,
                        turn.round as int,
                    ));
                }
                j += 1;
            }
            assert(conceded.take(j as int) =~= conceded);
            i += 1;
        }
        assert(self@.turns.take(i as int) =~= self@.turns);
        points
    }

    /// The claim a side's case finally rested on.
    ///
    /// The **last** one stated, not the first: the closing position is the one
    /// that survived the debate.
    pub fn key_claim(&self, side: Side) -> (r: Option<&str>)
        ensures
            r is Some <==> key_claim_of(self@.turns, side) is Some,
            r matches Some(claim) ==> key_claim_of(self@.turns, side) == Some(claim@),
    {
        let mut i: usize = self.turns.len();
        assert(self@.turns.take(i as int) =~= self@.turns);
        while i > 0
            invariant
                i <= self.turns.len(),
                self@.turns == turn_views(self.turns@),
                last_claim(self@.turns.take(i as int), side) == last_claim(self@.turns, side),
            decreases i,
        {
            i -= 1;
            proof {
                lemma_take_turn(self.turns@, i as int);
            }
            if self.turns[i].side == side {
                if let Some(claim) = &self.turns[i].analysis.key_claim {
                    if !text::blank(claim.as_str()) {
                        return Some(text::trim(claim.as_str()));
                    }
                }
            }
        }
        None
    }

    /// Whether the token totals of all turns fit the counters that hold them,
    /// so that they can be accounted for.
    pub fn can_total(&self) -> (r: bool)
        ensures
            r == totals_fit(self@.turns),
    {
        let mut input: u64 = 0;
        let mut output: u64 = 0;
        let mut reasoning: u64 = 0;
        let mut i: usize = 0;
        assert(self@.turns.take(0) =~= Seq::<TurnView>::empty());
        while i < self.turns.len()
            invariant
                i <= self.turns.len(),
                self@.turns == turn_views(self.turns@),
                input == input_total(self@.turns.take(i as int)),
                output == output_total(self@.turns.take(i as int)),
                reasoning == reasoning_total(self@.turns.take(i as int)),
            decreases self.turns.len() - i,
        {
            let tokens = self.turns[i].tokens;
            proof {
                lemma_take_turn(self.turns@, i as int);
                lemma_totals_grow(self@.turns, i + 1);
            }
            match (
                input.checked_add(tokens.input),
                output.checked_add(tokens.output),
                reasoning.checked_add(tokens.reasoning),
            ) {
                (Some(a), Some(b), Some(c)) => {
                    input = a;
                    output = b;
                    reasoning = c;
                },
                _ => {
                    return false;
                },
            }
            i += 1;
        }
        assert(self@.turns.take(i as int) =~= self@.turns);
        true
    }

    /// Accounting across every turn.
    pub fn usage(&self) -> (r: Usage)
        requires
            totals_fit(self@.turns),
        ensures
            r@ == usage_of(self@.turns),
    {
        Usage::of(&self.turns, None)
    }

    /// Accounting for the turns one side took.
    ///
    /// Worth separating because the two sides can run different models, and a
    /// single total hides which of them the money went to.
    pub fn usage_for(&self, side: Side) -> (r: Usage)
        requires
            totals_fit(of_side(self@.turns, side)),
        ensures
            r@ == usage_of(of_side(self@.turns, side)),
    {
        Usage::of(&self.turns, Some(side))
    }

    /// Record a completed turn, and return the index assigned to it.
    pub fn push_turn(
        &mut self,
        side: Side,
        text: String,
        analysis: TurnAnalysis,
        tool_calls: Vec<ToolCall>,
        tokens: Tokens,
        cost: Cost,
    ) -> (index: usize)
        ensures
            index == old(self)@.turns.len(),
            final(self)@ == (StateView {
                turns: old(self)@.turns.push(
                    TurnView {
                        index: index as int,
                        round: round_at(index as int),
                        side,
                        text: text@,
                        analysis: analysis@,
                        tool_calls: types::tool_views(tool_calls@),
                        tokens,
                        cost,
                    },
                ),
                ..old(self)@
            }),
            final(self).turns@.len() == index + 1,
            final(self).topic == old(self).topic,
    {
        let index: usize = self.turns.len();
        let round: usize = index / 2 + 1;
        let ghost before = self.turns@;
        let turn = Turn { index, round, side, text, analysis, tool_calls, tokens, cost };
        self.turns.push(turn);
        assert(turn_views(self.turns@) =~= turn_views(before).push(turn@));
        index
    }
}

/// What a list of readings says.
pub open spec fn reading_views(series: Seq<(usize, Credence)>) -> Seq<(int, int)> {
    series.map_values(|p: (usize, Credence)| (p.0 as int, p.1@))
}

/// What a list of rows says.
pub open spec fn row_views(rows: Seq<CredenceRound>) -> Seq<RowView> {
    rows.map_values(|r: CredenceRound| r@)
}

/// What a list of concessions says.
pub open spec fn concession_views(points: Seq<Concession>) -> Seq<ConcessionView> {
    points.map_values(|c: Concession| c@)
}

/// Where a round stands in the table.
fn find_row(rows: &Vec<CredenceRound>, round: usize) -> (r: Option<usize>)
    ensures
        match r {
            Some(i) => i < rows.len() && row_index(row_views(rows@), round as int) == Some(i as int),
            None => row_index(row_views(rows@), round as int) is None,
        },
{
    let ghost all = row_views(rows@);
    let mut i: usize = 0;
    assert(all.take(0) =~= Seq::<RowView>::empty());
    while i < rows.len()
        invariant
            i <= rows.len(),
            all == row_views(rows@),
            row_index(all.take(i as int), round as int) is None,
        decreases rows.len() - i,
    {
        assert(all.take(i + 1).drop_last() =~= all.take(i as int));
        if rows[i].round == round {
            proof {
                lemma_row_index_settles(all, i + 1, round as int);
            }
            return Some(i);
        }
        i += 1;
    }
    assert(all.take(i as int) =~= all);
    None
}

/// A row found in the first rows of a table is the one found in all of it.
proof fn lemma_row_index_settles(rows: Seq<RowView>, n: int, round: int)
    requires
        0 <= n <= rows.len(),
        row_index(rows.take(n), round) is Some,
    ensures
        row_index(rows, round) == row_index(rows.take(n), round),
    decreases rows.len() - n,
{
    if n == rows.len() {
        assert(rows.take(n) =~= rows);
    } else {
        assert(rows.take(n + 1).drop_last() =~= rows.take(n));
        lemma_row_index_settles(rows, n + 1, round);
    }
}


/// A number that a model gives too high or too low counts as the nearest one
/// that is allowed, and a higher one never counts for less.
pub proof fn law_clamping_keeps_the_order(x: int, y: int)
    ensures
        x <= y ==> clamp_percent(x) <= clamp_percent(y),
        x <= 0 ==> clamp_percent(x) == 0,
        x >= 100 ==> clamp_percent(x) == 100,
{
}

/// A distance is what has to be added to the smaller number to reach the larger.
pub proof fn law_a_distance_bridges_two_numbers(x: int, y: int)
    ensures
        distance_between(x, y) >= 0,
        x <= y ==> x + distance_between(x, y) == y,
        y <= x ==> y + distance_between(x, y) == x,
{
}

/// The gap is how many points the two confidences together miss one hundred by,
/// whether they fall short of it or go beyond.
pub proof fn law_the_gap_is_what_is_missing_from_one_hundred(a: int, b: int)
    ensures
        a + b <= 100 ==> a + b + gap_between(a, b) == 100,
        a + b >= 100 ==> a + b == 100 + gap_between(a, b),
{
}

/// A row of the table has a gap exactly when both sides stated a confidence,
/// and it is the number of points by which those miss one hundred.
pub proof fn law_a_row_shows_the_gap_of_its_readings(row: RowView)
    ensures
        row_gap(row) is Some <==> row.a is Some && row.b is Some,
        row_gap(row) matches Some(gap) ==> gap >= 0 && (row.a->0 + row.b->0 == 100 + gap || row.a->0
            + row.b->0 == 100 - gap),
{
}

/// Each side is known by its own letter, and argues its own position.
pub proof fn law_the_sides_are_told_apart(topic: TopicView)
    ensures
        side_text(Side::A) == seq!['A'],
        side_text(Side::B) == seq!['B'],
        side_label(Side::A) == seq!['a'],
        side_label(Side::B) == seq!['b'],
        position_of(topic, Side::A) == topic.position_a,
        position_of(topic, Side::B) == topic.position_b,
{
    reveal_strlit("A");
    reveal_strlit("B");
    reveal_strlit("a");
    reveal_strlit("b");
    assert("A"@ =~= seq!['A']);
    assert("B"@ =~= seq!['B']);
    assert("a"@ =~= seq!['a']);
    assert("b"@ =~= seq!['b']);
}

/// A turn without structure says nothing but why.
pub proof fn law_no_structure_says_nothing(status: ParseView)
    ensures
        ({
            let a = no_structure(status);
            &&& a.credence is None
            &&& a.moved_because is None
            &&& a.conceded.len() == 0
            &&& a.key_claim is None
            &&& a.crux is None
            &&& a.claims.len() == 0
            &&& a.parse_status == status
        }),
{
}

/// What is said of a debate is what it holds: every turn in its place, with
/// everything that was recorded of it.
pub proof fn law_a_debate_is_seen_as_it_is(debate: DebateState, i: int)
    requires
        0 <= i < debate.turns@.len(),
    ensures
        debate@.turns.len() == debate.turns@.len(),
        debate@.max_rounds == debate.max_rounds,
        debate@.topic.question == debate.topic.question@,
        debate@.topic.position_a == debate.topic.position_a@,
        debate@.topic.position_b == debate.topic.position_b@,
        debate@.stop_reason is Some <==> debate.stop_reason is Some,
        debate.stop_reason matches Some(reason) ==> debate@.stop_reason == Some(reason@),
        ({
            let turn = debate.turns@[i];
            let seen = debate@.turns[i];
            &&& seen.index == turn.index
            &&& seen.round == turn.round
            &&& seen.side == turn.side
            &&& seen.text == turn.text@
            &&& seen.tokens == turn.tokens
            &&& seen.cost == turn.cost
            &&& seen.tool_calls == types::tool_views(turn.tool_calls@)
            &&& seen.analysis.credence is Some <==> turn.analysis.credence is Some
            &&& turn.analysis.credence matches Some(c) ==> seen.analysis.credence == Some(c@)
            &&& seen.analysis.moved_because == text::opt_text(turn.analysis.moved_because)
            &&& seen.analysis.key_claim == text::opt_text(turn.analysis.key_claim)
            &&& seen.analysis.crux == text::opt_text(turn.analysis.crux)
            &&& seen.analysis.conceded == text::texts(turn.analysis.conceded@)
            &&& seen.analysis.claims == claim_views(turn.analysis.claims@)
            &&& seen.analysis.parse_status == ParseView::Readable
                <==> turn.analysis.parse_status == ParseStatus::Readable
            &&& seen.analysis.parse_status == ParseView::Missing
                <==> turn.analysis.parse_status == ParseStatus::Missing
            &&& turn.analysis.parse_status matches ParseStatus::Malformed { reason }
                ==> seen.analysis.parse_status == (ParseView::Malformed { reason: reason@ })
        }),
{
}

/// What is said of readings, rows, and concessions is what they hold, in order.
pub proof fn law_lists_are_seen_as_they_are(
    series: Seq<(usize, Credence)>,
    rows: Seq<CredenceRound>,
    points: Seq<Concession>,
    claims: Seq<Claim>,
    i: int,
)
    ensures
        reading_views(series).len() == series.len(),
        0 <= i < series.len() ==> reading_views(series)[i] == (series[i].0 as int, series[i].1@),
        row_views(rows).len() == rows.len(),
        0 <= i < rows.len() ==> ({
            let seen = row_views(rows)[i];
            &&& seen.round == rows[i].round
            &&& seen.a is Some <==> rows[i].a is Some
            &&& rows[i].a matches Some(c) ==> seen.a == Some(c@)
            &&& seen.b is Some <==> rows[i].b is Some
            &&& rows[i].b matches Some(c) ==> seen.b == Some(c@)
        }),
        concession_views(points).len() == points.len(),
        0 <= i < points.len() ==> ({
            let seen = concession_views(points)[i];
            &&& seen.side == points[i].side
            &&& seen.round == points[i].round
            &&& seen.text == points[i].text@
        }),
        claim_views(claims).len() == claims.len(),
        0 <= i < claims.len() ==> claim_views(claims)[i].text == claims[i].text@ && claim_views(
            claims,
        )[i].kind == claims[i].kind,
{
}

/// A reason to stop is told as it is.
pub proof fn law_reasons_are_seen_as_they_are(reason: StopReason)
    ensures
        opt_stop(None) is None,
        opt_stop(Some(reason)) == Some(reason@),
        match reason {
            StopReason::Converged { gap } => reason@ == (StopView::Converged { gap: gap as int }),
            StopReason::Conceded { side } => reason@ == (StopView::Conceded { side }),
            StopReason::CruxIsolated => reason@ is CruxIsolated,
            StopReason::NoNewClaims => reason@ is NoNewClaims,
            StopReason::FormatComplete => reason@ is FormatComplete,
            StopReason::RoundCap => reason@ is RoundCap,
            StopReason::Aborted => reason@ is Aborted,
            StopReason::Failed { side, message } => reason@ == (StopView::Failed {
                side,
                message: message@,
            }),
        },
{
}


/// An account is seen as it is.
pub proof fn law_an_account_is_seen_as_it_is(usage: Usage)
    ensures
        usage@.turns == usage.turns,
        usage@.input == usage.tokens.input,
        usage@.output == usage.tokens.output,
        usage@.reasoning == usage.tokens.reasoning,
        usage@.costs == usage.costs@,
{
}


/// A confidence that may be missing is seen as it is.
pub proof fn law_a_missing_confidence_stays_missing(c: Credence)
    ensures
        opt_percent(None) is None,
        opt_percent(Some(c)) == Some(c@),
{
}

} // verus!
