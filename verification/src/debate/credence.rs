//! The credence-updating format.
//!
//! Both sides carry an explicit 0-100 confidence and must restate it every
//! turn, justifying any movement. The debate ends when the two confidences
//! converge, which makes truth-seeking measurable rather than rhetorical.
//!
//! The prompt deliberately treats an unchanged confidence as something
//! requiring justification. Without that pressure a debater simply restates
//! its opening number every round and the format degenerates into two
//! monologues.

use vstd::prelude::*;

use crate::debate::format::{shared_mandate, DebateFormat, FormatId};
use crate::debate::parse::{self, StructuredBlock};
use crate::debate::state::{
    self, AnalysisView, Credence, DebateState, Side, StateView, StopReason, StopView, Topic,
    TopicView, TurnAnalysis, TurnView,
};
use crate::text;

verus! {

/// Confidence gap, in percentage points, at or below which the sides have
/// converged.
pub const CONVERGENCE_THRESHOLD: u8 = 15;

/// Minimum rounds before convergence is allowed to end the debate.
///
/// Two models handed a truth-seeking mandate will sometimes agree immediately
/// and produce a one-round debate with no argument in it. Requiring a second
/// round forces at least one exchange of evidence before agreement counts.
pub const MIN_ROUNDS_BEFORE_CONVERGENCE: usize = 2;

/// Instructions for the structured block, appended to every turn prompt.
pub const BLOCK_INSTRUCTIONS: &'static str =
    "End your reply with a fenced json block, and nothing after it:\n\n\
    ```json\n\
    {\n\
    \x20 \"credence\": <integer 0-100>,\n\
    \x20 \"moved_because\": \"<why your confidence changed, or why it did not>\",\n\
    \x20 \"conceded\": [\"<points you now accept>\"],\n\
    \x20 \"key_claim\": \"<the single claim your case most depends on>\"\n\
    }\n\
    ```";

/// What the format adds to the shared mandate.
pub const FORMAT_RULES: &'static str = "\n\nFORMAT: CREDENCE UPDATING\n\
    You carry an explicit confidence from 0 to 100 that your assigned \
    position is correct. State it every turn.\n\n\
    Your confidence must respond to the argument. If the opposing side \
    makes a point you cannot answer, your confidence should fall, and \
    you must say so. If it stays the same, justify why the opposing \
    argument failed to move it. Restating the same number every round \
    without reason is the main way this format fails.\n\n\
    An honest confidence is worth more than a high one. Two debaters \
    who converge on the truth have both succeeded.";

/// What the opening turn is asked for.
pub const OPENING_REQUEST: &'static str = ". Open the debate.\n\n\
    State your case for your assigned position as strongly as the \
    evidence allows, and give your starting confidence.\n\n";

/// What every later turn is asked for.
pub const RESPONSE_REQUEST: &'static str = ".\n\n\
    Respond to their argument. Address their strongest point directly \
    rather than the weakest one. Then restate your confidence, and \
    explain what moved it or why nothing did.\n\n";

/// The credence-updating format.
#[derive(Debug, Clone, Copy, Default)]
pub struct CredenceFormat;

/// How a prompt renders the opponent's confidence.
pub open spec fn their_confidence(credence: Option<int>) -> Seq<char> {
    match credence {
        Some(value) => text::decimal(value as nat),
        None => "not stated"@,
    }
}

/// How a prompt renders the side's own previous confidence.
pub open spec fn own_confidence(credence: Option<int>) -> Seq<char> {
    match credence {
        Some(value) => text::decimal(value as nat),
        None => "you have not stated one yet"@,
    }
}

/// What a turn is quoted as to the other side.
pub open spec fn quotation(turn: TurnView, opponent: Side) -> Seq<char> {
    "DEBATER "@ + state::side_text(opponent) + " JUST ARGUED (their confidence: "@
        + their_confidence(turn.analysis.credence) + ")\n"@ + turn.text + "\n\n"@
}

/// The opponent's most recent turn, quoted; nothing where it has not spoken.
pub open spec fn opponent_text(turns: Seq<TurnView>, side: Side) -> Seq<char> {
    match state::last_index(turns, state::opposite(side)) {
        Some(i) => quotation(turns[i], state::opposite(side)),
        None => Seq::empty(),
    }
}

/// The prompt of a side's next turn: an invitation to open the debate while
/// nobody has spoken, and from then on the opponent's argument with a request
/// to answer it.
pub open spec fn turn_text(debate: StateView, side: Side) -> Seq<char> {
    let round = text::decimal(state::round_at(debate.turns.len() as int) as nat);
    if debate.turns.len() == 0 {
        "Round "@ + round + OPENING_REQUEST@ + BLOCK_INSTRUCTIONS@
    } else {
        opponent_text(debate.turns, side) + "Round "@ + round
            + ". Your previous confidence was "@ + own_confidence(
            state::latest_of(debate.turns, side),
        ) + RESPONSE_REQUEST@ + BLOCK_INSTRUCTIONS@
    }
}

/// The last turn states a confidence of zero in its own side's position, which
/// concedes the question.
pub open spec fn just_conceded(turns: Seq<TurnView>) -> bool {
    turns.len() > 0 && turns.last().analysis.credence == Some(0int)
}

/// How far apart the latest confidences of the two sides are, where both have
/// stated one.
pub open spec fn latest_gap(turns: Seq<TurnView>) -> Option<int> {
    match (state::latest_of(turns, Side::A), state::latest_of(turns, Side::B)) {
        (Some(a), Some(b)) => Some(state::gap_between(a, b)),
        _ => None,
    }
}

/// Why the format ends a debate: a concession at any point, and agreement once
/// both sides have had enough rounds to exchange evidence.
pub open spec fn credence_verdict(turns: Seq<TurnView>) -> Option<StopView> {
    if just_conceded(turns) {
        Some(StopView::Conceded { side: turns.last().side })
    } else if turns.len() / 2 < MIN_ROUNDS_BEFORE_CONVERGENCE {
        None
    } else {
        match latest_gap(turns) {
            Some(gap) if gap <= CONVERGENCE_THRESHOLD => Some(StopView::Converged { gap }),
            _ => None,
        }
    }
}

impl CredenceFormat {
    /// Instructions for the structured block, appended to every turn prompt.
    pub fn block_instructions() -> (r: &'static str)
        ensures
            r@ == BLOCK_INSTRUCTIONS@,
    {
        BLOCK_INSTRUCTIONS
    }

    /// Describe the opponent's most recent turn, for inclusion in a prompt.
    pub fn opponent_summary(debate: &DebateState, side: Side) -> (r: String)
        ensures
            r@ == opponent_text(debate@.turns, side),
    {
        match debate.last_turn(side.other()) {
            None => String::new(),
            Some(turn) => {
                let mut s = "DEBATER ".to_owned();
                s.append(side.other().to_string().as_str());
                s.append(" JUST ARGUED (their confidence: ");
                match turn.analysis.credence {
                    Some(value) => s.append(value.to_string().as_str()),
                    None => s.append("not stated"),
                }
                s.append(")\n");
                s.append(turn.text.as_str());
                s.append("\n\n");
                s
            },
        }
    }
}

impl DebateFormat for CredenceFormat {
    open spec fn format_id(&self) -> FormatId {
        FormatId::Credence
    }

    open spec fn persona(&self, side: Side, topic: TopicView) -> Seq<char> {
        crate::debate::format::mandate_text(side, topic) + FORMAT_RULES@
    }

    open spec fn question(&self, debate: StateView, side: Side) -> Seq<char> {
        turn_text(debate, side)
    }

    open spec fn prose(&self, raw: Seq<char>) -> Seq<char> {
        parse::prose_of(raw)
    }

    open spec fn structure(
        &self,
        raw: Seq<char>,
        decoded: Result<StructuredBlock, String>,
    ) -> AnalysisView {
        parse::turn_analysis(raw, decoded)
    }

    open spec fn verdict(&self, debate: StateView) -> Option<StopView> {
        credence_verdict(debate.turns)
    }

    fn id(&self) -> (r: FormatId) {
        FormatId::Credence
    }

    fn system_prompt(&self, side: Side, topic: &Topic) -> (r: String) {
        let mut s = shared_mandate(side, topic);
        s.append(FORMAT_RULES);
        s
    }

    fn turn_prompt(&self, debate: &DebateState, side: Side) -> (r: String) {
        let round: usize = debate.current_round();

        // The opening turn has nothing to respond to.
        if debate.turns.len() == 0 {
            let mut s = "Round ".to_owned();
            s.append(text::number(round as u64).as_str());
            s.append(OPENING_REQUEST);
            s.append(CredenceFormat::block_instructions());
            return s;
        }
        let mut s = CredenceFormat::opponent_summary(debate, side);
        s.append("Round ");
        s.append(text::number(round as u64).as_str());
        s.append(". Your previous confidence was ");
        match debate.latest_credence(side) {
            Some(value) => s.append(value.to_string().as_str()),
            None => s.append("you have not stated one yet"),
        }
        s.append(RESPONSE_REQUEST);
        s.append(CredenceFormat::block_instructions());
        s
    }

    fn parse_turn(&self, raw: &str, decoded: Result<StructuredBlock, String>) -> (r: (
        String,
        TurnAnalysis,
    )) {
        parse::parse_turn(raw, decoded)
    }

    fn should_stop(&self, debate: &DebateState) -> (r: Option<StopReason>) {
        // A side that concedes outright ends the debate regardless of numbers.
        if let Some(turn) = debate.last_turn_any() {
            assert(debate@.turns.last() == turn@);
            if let Some(credence) = turn.analysis.credence {
                if credence.value() == 0 {
                    return Some(StopReason::Conceded { side: turn.side });
                }
            }
        }
        if debate.completed_rounds() < MIN_ROUNDS_BEFORE_CONVERGENCE {
            return None;
        }
        // Each side reports confidence in its own position, so agreement means
        // the two sum to about 100, not that they are numerically close.
        match (debate.latest_credence(Side::A), debate.latest_credence(Side::B)) {
            (Some(a), Some(b)) => {
                let gap: u8 = Credence::agreement_gap(a, b);
                if gap <= CONVERGENCE_THRESHOLD {
                    Some(StopReason::Converged { gap })
                } else {
                    None
                }
            },
            _ => None,
        }
    }
}

/// Convergence is judged by how far the two confidences are from summing to
/// one hundred, not by how far they are from each other: once both sides have
/// had enough rounds and nobody has conceded, the debate ends exactly when that
/// distance is within the threshold.
pub proof fn law_convergence_is_agreement_on_one_position(turns: Seq<TurnView>, a: int, b: int)
    requires
        !just_conceded(turns),
        turns.len() >= 2 * MIN_ROUNDS_BEFORE_CONVERGENCE,
        state::latest_of(turns, Side::A) == Some(a),
        state::latest_of(turns, Side::B) == Some(b),
    ensures
        credence_verdict(turns) is Some <==> -CONVERGENCE_THRESHOLD <= a + b - 100
            <= CONVERGENCE_THRESHOLD,
        credence_verdict(turns) matches Some(reason) ==> reason == (StopView::Converged {
            gap: state::distance_between(a + b, 100),
        }),
{
}

/// Agreement reached before both sides have had enough rounds does not end a
/// debate; only a concession does.
pub proof fn law_early_agreement_does_not_end_a_debate(turns: Seq<TurnView>)
    requires
        turns.len() < 2 * MIN_ROUNDS_BEFORE_CONVERGENCE,
    ensures
        credence_verdict(turns) is Some <==> just_conceded(turns),
        credence_verdict(turns) matches Some(reason) ==> reason == (StopView::Conceded {
            side: turns.last().side,
        }),
{
}

/// A side that states a confidence of zero in its own position ends the debate,
/// however early and whatever the other side said.
pub proof fn law_a_concession_always_ends_a_debate(turns: Seq<TurnView>)
    requires
        just_conceded(turns),
    ensures
        credence_verdict(turns) == Some(StopView::Conceded { side: turns.last().side }),
{
}

/// A debate in which a side never stated a readable confidence is never ended
/// by agreement.
pub proof fn law_missing_confidences_never_converge(turns: Seq<TurnView>, side: Side)
    requires
        state::series_of(turns, side).len() == 0,
    ensures
        credence_verdict(turns) is Some ==> just_conceded(turns),
{
}

/// What a side argued last is quoted whole in the other side's next prompt.
pub proof fn law_the_opponent_is_quoted(debate: StateView, side: Side) -> (at: int)
    requires
        state::last_index(debate.turns, state::opposite(side)) is Some,
    ensures
        text::occurs_at(
            turn_text(debate, side),
            debate.turns[state::last_index(debate.turns, state::opposite(side))->0].text,
            at,
        ),
{
    let turns = debate.turns;
    let turn = turns[state::last_index(turns, state::opposite(side))->0];
    let opponent = state::side_text(state::opposite(side));
    let before = "DEBATER "@ + opponent + " JUST ARGUED (their confidence: "@
        + their_confidence(turn.analysis.credence) + ")\n"@;
    let at = before.len() as int;
    let whole = turn_text(debate, side);
    assert(turns.len() > 0);
    assert(whole.subrange(at, at + turn.text.len()) =~= turn.text);
    at
}


/// When the format ends a debate, by the numbers. A last turn at zero concedes,
/// for the side that took it. Otherwise nothing ends it before two rounds are
/// complete, and from then on it ends exactly when the latest confidences of
/// both sides together miss one hundred by no more than fifteen points, and that
/// is the gap it ends with.
pub proof fn law_the_verdict_by_the_numbers(debate: StateView)
    ensures
        ({
            let turns = debate.turns;
            let n = turns.len();
            let verdict = CredenceFormat.verdict(debate);
            let a = state::latest_of(turns, Side::A);
            let b = state::latest_of(turns, Side::B);
            if n > 0 && turns[n - 1].analysis.credence == Some(0int) {
                verdict == Some(StopView::Conceded { side: turns[n - 1].side })
            } else if n < 4 || a is None || b is None {
                verdict is None
            } else {
                let sum = a->0 + b->0;
                if 85 <= sum <= 100 {
                    verdict == Some(StopView::Converged { gap: 100 - sum })
                } else if 100 < sum <= 115 {
                    verdict == Some(StopView::Converged { gap: sum - 100 })
                } else {
                    verdict is None
                }
            }
        }),
{
}

/// What a side is asked while nobody has spoken: to open the debate, in the first
/// round.
pub proof fn law_the_opening_prompt(debate: StateView, side: Side)
    requires
        debate.turns.len() == 0,
    ensures
        CredenceFormat.question(debate, side) == "Round 1"@ + OPENING_REQUEST@
            + BLOCK_INSTRUCTIONS@,
{
    reveal_strlit("Round ");
    reveal_strlit("Round 1");
    reveal_strlit("1");
    text::law_numbers_are_written_in_base_ten(1);
    assert(text::decimal(1) =~= seq!['1']);
    assert("Round "@ + text::decimal(1) =~= "Round 1"@);
    assert(state::round_at(0) == 1);
    assert(CredenceFormat.question(debate, side) =~= "Round 1"@ + OPENING_REQUEST@
        + BLOCK_INSTRUCTIONS@);
}

/// What a side is asked once somebody has spoken. The prompt opens with the last
/// turn of the other side, whole, under that side's letter and with the
/// confidence it stated there, and leaves that out where the other side has not
/// spoken. Then it names the round and the side's own latest confidence.
pub proof fn law_the_prompt_answers_the_last_argument(debate: StateView, side: Side, i: int)
    requires
        debate.turns.len() > 0,
        0 <= i < debate.turns.len(),
        debate.turns[i].side != side,
        forall|j: int| i < j < debate.turns.len() ==> (#[trigger] debate.turns[j]).side == side,
    ensures
        ({
            let turn = debate.turns[i];
            let letter = if turn.side == Side::A {
                "A"@
            } else {
                "B"@
            };
            let theirs = match turn.analysis.credence {
                Some(value) => text::decimal(value as nat),
                None => "not stated"@,
            };
            let own = match state::latest_of(debate.turns, side) {
                Some(value) => text::decimal(value as nat),
                None => "you have not stated one yet"@,
            };
            let round = text::decimal((debate.turns.len() as int / 2 + 1) as nat);
            let quoted = "DEBATER "@ + letter + " JUST ARGUED (their confidence: "@ + theirs
                + ")\n"@ + turn.text + "\n\n"@;
            CredenceFormat.question(debate, side) == quoted + "Round "@ + round
                + ". Your previous confidence was "@ + own + RESPONSE_REQUEST@
                + BLOCK_INSTRUCTIONS@
        }),
{
    crate::debate::readings::law_the_last_turn_of_a_side(debate.turns, state::opposite(side));
    let k = state::last_index(debate.turns, state::opposite(side));
    assert(debate.turns[i].side == state::opposite(side));
    assert(k is Some);
    if k->0 < i {
        assert(debate.turns[i].side != state::opposite(side));
    } else if k->0 > i {
        assert(debate.turns[k->0].side == side);
    }
}

/// A side whose opponent has not spoken is asked without a quotation.
pub proof fn law_the_prompt_quotes_nobody_who_is_silent(debate: StateView, side: Side)
    requires
        debate.turns.len() > 0,
        forall|j: int| 0 <= j < debate.turns.len() ==> (#[trigger] debate.turns[j]).side == side,
    ensures
        ({
            let own = match state::latest_of(debate.turns, side) {
                Some(value) => text::decimal(value as nat),
                None => "you have not stated one yet"@,
            };
            let round = text::decimal((debate.turns.len() as int / 2 + 1) as nat);
            CredenceFormat.question(debate, side) == "Round "@ + round
                + ". Your previous confidence was "@ + own + RESPONSE_REQUEST@
                + BLOCK_INSTRUCTIONS@
        }),
{
    crate::debate::readings::law_the_last_turn_of_a_side(debate.turns, state::opposite(side));
    let k = state::last_index(debate.turns, state::opposite(side));
    if k is Some {
        assert(debate.turns[k->0].side == side);
    }
    let whole = CredenceFormat.question(debate, side);
    assert(opponent_text(debate.turns, side) =~= Seq::<char>::empty());
    assert(opponent_text(debate.turns, side) + "Round "@ =~= "Round "@);
}

/// In a debate in which the sides take turns, the side that speaks next is always
/// asked to answer the turn that was just taken.
pub proof fn law_the_next_prompt_quotes_the_turn_just_taken(debate: StateView) -> (at: int)
    requires
        debate.turns.len() > 0,
        forall|i: int|
            0 <= i < debate.turns.len() ==> (#[trigger] debate.turns[i]).side == if i % 2 == 0 {
                Side::A
            } else {
                Side::B
            },
    ensures
        text::occurs_at(
            CredenceFormat.question(
                debate,
                if debate.turns.len() % 2 == 0 {
                    Side::A
                } else {
                    Side::B
                },
            ),
            debate.turns.last().text,
            at,
        ),
{
    let n = debate.turns.len() as int;
    let side = if n % 2 == 0 {
        Side::A
    } else {
        Side::B
    };
    let turns = debate.turns;
    crate::debate::readings::law_the_last_turn_of_a_side(turns, state::opposite(side));
    assert(turns[n - 1].side == state::opposite(side));
    assert(state::last_index(turns, state::opposite(side)) == Some(n - 1));
    law_the_opponent_is_quoted(debate, side)
}

/// How a reply is read in this format, and which format it is.
pub proof fn law_replies_are_read_by_their_block(
    raw: Seq<char>,
    decoded: Result<StructuredBlock, String>,
)
    ensures
        CredenceFormat.format_id() == FormatId::Credence,
        CredenceFormat.prose(raw) == parse::prose_of(raw),
        CredenceFormat.structure(raw, decoded) == parse::turn_analysis(raw, decoded),
{
}

/// What a side is told of itself: its letter, the question, its own position,
/// then the opposing one, then the rules that hold for both, and last the rules
/// of the format.
pub proof fn law_the_persona_is_the_sides_own(topic: TopicView)
    ensures
        CredenceFormat.persona(Side::A, topic)
            == "You are Debater A in a structured debate.\n\nQUESTION UNDER DISPUTE\n"@
            + topic.question + "\n\nYOUR ASSIGNED POSITION\n"@ + topic.position_a
            + "\n\nTHE OPPOSING POSITION\n"@ + topic.position_b
            + crate::debate::format::MANDATE_RULES@ + FORMAT_RULES@,
        CredenceFormat.persona(Side::B, topic)
            == "You are Debater B in a structured debate.\n\nQUESTION UNDER DISPUTE\n"@
            + topic.question + "\n\nYOUR ASSIGNED POSITION\n"@ + topic.position_b
            + "\n\nTHE OPPOSING POSITION\n"@ + topic.position_a
            + crate::debate::format::MANDATE_RULES@ + FORMAT_RULES@,
{
    reveal_strlit("You are Debater ");
    reveal_strlit("A");
    reveal_strlit("B");
    reveal_strlit(" in a structured debate.\n\nQUESTION UNDER DISPUTE\n");
    reveal_strlit("You are Debater A in a structured debate.\n\nQUESTION UNDER DISPUTE\n");
    reveal_strlit("You are Debater B in a structured debate.\n\nQUESTION UNDER DISPUTE\n");
    assert("You are Debater "@ + "A"@ + " in a structured debate.\n\nQUESTION UNDER DISPUTE\n"@
        =~= "You are Debater A in a structured debate.\n\nQUESTION UNDER DISPUTE\n"@);
    assert("You are Debater "@ + "B"@ + " in a structured debate.\n\nQUESTION UNDER DISPUTE\n"@
        =~= "You are Debater B in a structured debate.\n\nQUESTION UNDER DISPUTE\n"@);
}

} // verus!
