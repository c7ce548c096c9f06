//! Reconstruction of a turn from a session's messages.
//!
//! A turn is not one message. When a model uses tools, opencode records the
//! tool calls in earlier assistant messages and returns only the last one from
//! the prompt route, so the pieces are gathered from the session's message list
//! instead.

use vstd::prelude::*;

use crate::opencode::types::{
    self, AssistantMessage, Cost, MessageError, MessageErrorView, Tokens, ToolCall, ToolCallView,
};
use crate::text;

verus! {

/// What one side produced during a single turn.
#[derive(Debug, Clone)]
pub struct RawTurn {
    /// The visible text of every message.
    pub text: String,
    /// Tools invoked in any of them.
    pub tool_calls: Vec<ToolCall>,
    /// Tokens consumed across them.
    pub tokens: Tokens,
    /// What each of them cost, in order.
    pub costs: Vec<Cost>,
    /// Failure recorded against one of the turn's messages, if any.
    pub error: Option<MessageError>,
}

/// What a [`RawTurn`] says.
#[verifier::ext_equal]
pub struct RawView {
    pub text: Seq<char>,
    pub tool_calls: Seq<ToolCallView>,
    pub input: int,
    pub output: int,
    pub reasoning: int,
    pub costs: Seq<Cost>,
    pub error: Option<MessageErrorView>,
}

/// The failure behind an optional one.
pub open spec fn opt_failure(e: Option<MessageError>) -> Option<MessageErrorView> {
    match e {
        Some(v) => Some(v@),
        None => None,
    }
}

impl View for RawTurn {
    type V = RawView;

    open spec fn view(&self) -> RawView {
        RawView {
            text: self.text@,
            tool_calls: types::tool_views(self.tool_calls@),
            input: self.tokens.input as int,
            output: self.tokens.output as int,
            reasoning: self.tokens.reasoning as int,
            costs: self.costs@,
            error: opt_failure(self.error),
        }
    }
}

/// A turn in which nothing happened.
pub open spec fn empty_raw() -> RawView {
    RawView {
        text: Seq::empty(),
        tool_calls: Seq::empty(),
        input: 0,
        output: 0,
        reasoning: 0,
        costs: Seq::empty(),
        error: None,
    }
}

/// A message that the user sent.
pub open spec fn from_user(message: AssistantMessage) -> bool {
    message.info.role@ == "user"@
}

/// A message that the assistant sent.
pub open spec fn from_assistant(message: AssistantMessage) -> bool {
    message.info.role@ == "assistant"@
}

/// Everything after the final user message.
pub open spec fn latest_messages(messages: Seq<AssistantMessage>) -> Seq<AssistantMessage>
    decreases messages.len(),
{
    if messages.len() == 0 || from_user(messages.last()) {
        Seq::empty()
    } else {
        latest_messages(messages.drop_last()).push(messages.last())
    }
}

/// What the assistant's messages add up to. The first failure is the one that
/// explains a turn; anything after it is a consequence.
pub open spec fn raw_of(messages: Seq<AssistantMessage>) -> RawView
    decreases messages.len(),
{
    if messages.len() == 0 {
        empty_raw()
    } else {
        let before = raw_of(messages.drop_last());
        let message = messages.last();
        if !from_assistant(message) {
            before
        } else {
            RawView {
                text: before.text + types::parts_text(message.parts@),
                tool_calls: before.tool_calls + types::parts_tool_calls(message.parts@),
                input: before.input + message.info.tokens.input,
                output: before.output + message.info.tokens.output,
                reasoning: before.reasoning + message.info.tokens.reasoning,
                costs: before.costs.push(message.info.cost),
                error: if before.error is Some {
                    before.error
                } else {
                    opt_failure(message.info.error)
                },
            }
        }
    }
}

/// The most recent turn of a session: what its messages since the final user
/// message add up to.
pub open spec fn collected(messages: Seq<AssistantMessage>) -> RawView {
    raw_of(latest_messages(messages))
}

/// Every token total fits the counter that holds it.
pub open spec fn raw_fits(raw: RawView) -> bool {
    &&& raw.input <= u64::MAX
    &&& raw.output <= u64::MAX
    &&& raw.reasoning <= u64::MAX
}

/// Token totals only grow as messages are added.
proof fn lemma_raw_grows(messages: Seq<AssistantMessage>, n: int)
    requires
        0 <= n <= messages.len(),
    ensures
        0 <= raw_of(messages.take(n)).input <= raw_of(messages).input,
        0 <= raw_of(messages.take(n)).output <= raw_of(messages).output,
        0 <= raw_of(messages.take(n)).reasoning <= raw_of(messages).reasoning,
    decreases messages.len(),
{
    if n == messages.len() {
        assert(messages.take(n) =~= messages);
        if n > 0 {
            lemma_raw_grows(messages.drop_last(), n - 1);
            assert(messages.drop_last().take(n - 1) =~= messages.drop_last());
        }
    } else {
        lemma_raw_grows(messages.drop_last(), n);
        assert(messages.drop_last().take(n) =~= messages.take(n));
    }
}

/// Where the most recent turn starts in a session's message list.
fn turn_start(messages: &Vec<AssistantMessage>) -> (r: usize)
    ensures
        r <= messages.len(),
        messages@.skip(r as int) == latest_messages(messages@),
{
    let mut i: usize = messages.len();
    assert(messages@.take(i as int) =~= messages@);
    assert(latest_messages(messages@) + messages@.skip(i as int) =~= latest_messages(messages@));
    while i > 0 && !text::same(messages[i - 1].info.role.as_str(), "user")
        invariant
            i <= messages.len(),
            latest_messages(messages@) == latest_messages(messages@.take(i as int))
                + messages@.skip(i as int),
        decreases i,
    {
        proof {
            let here = messages@.take(i as int);
            assert(here.drop_last() =~= messages@.take(i - 1));
            assert(latest_messages(here) == latest_messages(here.drop_last()).push(here.last()));
            assert(latest_messages(here) + messages@.skip(i as int) =~= latest_messages(
                messages@.take(i - 1),
            ) + messages@.skip(i - 1));
        }
        i -= 1;
    }
    proof {
        let here = messages@.take(i as int);
        if i > 0 {
            assert(here.last() == messages@[i - 1]);
        }
        assert(latest_messages(here) =~= Seq::<AssistantMessage>::empty());
        assert(latest_messages(here) + messages@.skip(i as int) =~= messages@.skip(i as int));
    }
    i
}

/// Reconstruct the most recent turn from a session's full message list.
///
/// Everything after the final user message belongs to the turn just completed.
/// Aggregating the messages is what makes tool calls visible and the cost
/// accurate; reading only the prompt response undercounts both.
pub fn collect_turn(messages: &Vec<AssistantMessage>) -> (r: RawTurn)
    requires
        raw_fits(collected(messages@)),
    ensures
        r@ == collected(messages@),
{
    let start: usize = turn_start(messages);
    let ghost mine = latest_messages(messages@);
    let mut text = String::new();
    let mut tool_calls: Vec<ToolCall> = Vec::new();
    let mut input: u64 = 0;
    let mut output: u64 = 0;
    let mut reasoning: u64 = 0;
    let mut costs: Vec<Cost> = Vec::new();
    let mut error: Option<MessageError> = None;
    let mut i: usize = start;
    assert(mine.take(0) =~= Seq::<AssistantMessage>::empty());
    assert(types::tool_views(tool_calls@) =~= Seq::<ToolCallView>::empty());
    while i < messages.len()
        invariant
            start <= i <= messages.len(),
            mine == messages@.skip(start as int),
            raw_fits(raw_of(mine)),
            ({
                let so_far = raw_of(mine.take(i - start));
                &&& text@ == so_far.text
                &&& types::tool_views(tool_calls@) == so_far.tool_calls
                &&& input == so_far.input
                &&& output == so_far.output
                &&& reasoning == so_far.reasoning
                &&& costs@ == so_far.costs
                &&& opt_failure(error) == so_far.error
            }),
        decreases messages.len() - i,
    {
        let message = &messages[i];
        proof {
            let more = mine.take(i - start + 1);
            assert(more.drop_last() =~= mine.take(i - start));
            assert(more.last() == *message);
            lemma_raw_grows(mine, i - start + 1);
        }
        if message.is_assistant() {
            text.append(message.text().as_str());
            let mut calls = message.tool_calls();
            let ghost earlier = tool_calls@;
            let ghost added = calls@;
            tool_calls.append(&mut calls);
            assert(types::tool_views(tool_calls@) =~= types::tool_views(earlier)
                + types::tool_views(added));
            input = input + message.info.tokens.input;
            output = output + message.info.tokens.output;
            reasoning = reasoning + message.info.tokens.reasoning;
            costs.push(message.info.cost);
            if error.is_none() {
                error = match &message.info.error {
                    Some(e) => Some(e.duplicate()),
                    None => None,
                };
            }
        }
        i += 1;
    }
    assert(mine.take(i - start) =~= mine);
    let r = RawTurn {
        text,
        tool_calls,
        tokens: Tokens { input, output, reasoning },
        costs,
        error,
    };
    assert(r@ =~= collected(messages@));
    r
}

/// Whether the token totals of a session's most recent turn fit the counters
/// that hold them, so that it can be collected.
pub fn can_collect(messages: &Vec<AssistantMessage>) -> (r: bool)
    ensures
        r == raw_fits(collected(messages@)),
{
    let start: usize = turn_start(messages);
    let ghost mine = latest_messages(messages@);
    let mut input: u64 = 0;
    let mut output: u64 = 0;
    let mut reasoning: u64 = 0;
    let mut i: usize = start;
    assert(mine.take(0) =~= Seq::<AssistantMessage>::empty());
    while i < messages.len()
        invariant
            start <= i <= messages.len(),
            mine == messages@.skip(start as int),
            mine == latest_messages(messages@),
            input == raw_of(mine.take(i - start)).input,
            output == raw_of(mine.take(i - start)).output,
            reasoning == raw_of(mine.take(i - start)).reasoning,
        decreases messages.len() - i,
    {
        let message = &messages[i];
        proof {
            let more = mine.take(i - start + 1);
            assert(more.drop_last() =~= mine.take(i - start));
            assert(more.last() == *message);
            lemma_raw_grows(mine, i - start + 1);
        }
        if message.is_assistant() {
            match (
                input.checked_add(message.info.tokens.input),
                output.checked_add(message.info.tokens.output),
                reasoning.checked_add(message.info.tokens.reasoning),
            ) {
                (Some(a), Some(b), Some(c)) => {
                    input = a;
                    output = b;
                    reasoning = c;
                },
                _ => {
                    return false;
                },
            }
        }
        i += 1;
    }
    assert(mine.take(i - start) =~= mine);
    true
}

/// Why an attempt at a turn produced nothing usable.
#[derive(Debug, Clone)]
pub enum TurnFault {
    /// Worth another attempt: a transient provider or transport failure, or a
    /// turn that came back silently for no stated reason.
    Transient(String),
    /// Not worth another attempt. Authentication, credit, and unavailable-model
    /// failures refuse identically however often they are asked, so retrying
    /// only delays the report by several minutes.
    Permanent(String),
}

/// What a [`TurnFault`] says.
#[verifier::ext_equal]
pub enum FaultView {
    Transient(Seq<char>),
    Permanent(Seq<char>),
}

impl View for TurnFault {
    type V = FaultView;

    open spec fn view(&self) -> FaultView {
        match *self {
            TurnFault::Transient(reason) => FaultView::Transient(reason@),
            TurnFault::Permanent(reason) => FaultView::Permanent(reason@),
        }
    }
}

/// The fault behind an optional one.
pub open spec fn opt_fault(f: Option<TurnFault>) -> Option<FaultView> {
    match f {
        Some(v) => Some(v@),
        None => None,
    }
}

/// The fault of an attempt: none when the turn carries visible text, which is
/// the only outcome the debate can use.
pub open spec fn fault_in(raw: RawView) -> Option<FaultView> {
    if !text::is_blank(raw.text) {
        None
    } else {
        match raw.error {
            Some(e) if types::error_is_retryable(e) => Some(
                FaultView::Transient(types::message_error_text(e)),
            ),
            Some(e) => Some(FaultView::Permanent(types::message_error_text(e))),
            None => Some(FaultView::Transient("the model produced no visible text"@)),
        }
    }
}

/// Classify a completed attempt.
///
/// Where the provider accepted the turn and the model said nothing, there is no
/// stated cause to judge from, so it is treated as transient: another attempt
/// is the only way to separate a fluke from a model that will not answer.
pub fn fault_of(raw: &RawTurn) -> (r: Option<TurnFault>)
    ensures
        opt_fault(r) == fault_in(raw@),
{
    if !text::blank(raw.text.as_str()) {
        return None;
    }
    match &raw.error {
        Some(error) => {
            if error.is_retryable() {
                Some(TurnFault::Transient(error.to_string()))
            } else {
                Some(TurnFault::Permanent(error.to_string()))
            }
        },
        None => Some(TurnFault::Transient("the model produced no visible text".to_owned())),
    }
}

/// Messages before the final user message never reach the turn after it, so a
/// retry, which sends a fresh user message, picks up nothing from the attempt
/// before it.
pub proof fn law_earlier_messages_do_not_count(
    earlier: Seq<AssistantMessage>,
    prompt: AssistantMessage,
    answer: Seq<AssistantMessage>,
)
    requires
        from_user(prompt),
        forall|i: int| 0 <= i < answer.len() ==> !from_user(#[trigger] answer[i]),
    ensures
        collected(earlier.push(prompt) + answer) == raw_of(answer),
{
    lemma_latest_is_the_answer(earlier, prompt, answer);
}

proof fn lemma_latest_is_the_answer(
    earlier: Seq<AssistantMessage>,
    prompt: AssistantMessage,
    answer: Seq<AssistantMessage>,
)
    requires
        from_user(prompt),
        forall|i: int| 0 <= i < answer.len() ==> !from_user(#[trigger] answer[i]),
    ensures
        latest_messages(earlier.push(prompt) + answer) == answer,
    decreases answer.len(),
{
    let all = earlier.push(prompt) + answer;
    if answer.len() == 0 {
        assert(all.last() == prompt);
        assert(latest_messages(all) =~= answer);
    } else {
        let less = answer.drop_last();
        assert forall|i: int| 0 <= i < less.len() implies !from_user(#[trigger] less[i]) by {
            assert(less[i] == answer[i]);
        }
        lemma_latest_is_the_answer(earlier, prompt, less);
        assert(all.drop_last() =~= earlier.push(prompt) + less);
        assert(all.last() == answer[answer.len() - 1]);
        assert(answer =~= less.push(answer.last()));
    }
}


/// An answer, told message by message. What one message contributes is settled
/// by that message alone: one that the assistant sent contributes its text, its
/// tool calls, its tokens, its cost, and its failure, and any other contributes
/// nothing. Two stretches of an answer go together one after the other: texts,
/// calls and costs are joined in order, tokens are added, and the failure that
/// counts is the first there is.
pub proof fn law_an_answer_is_the_sum_of_its_messages(
    first: Seq<AssistantMessage>,
    second: Seq<AssistantMessage>,
    message: AssistantMessage,
)
    ensures
        raw_of(Seq::empty()) == (RawView {
            text: Seq::empty(),
            tool_calls: Seq::empty(),
            input: 0,
            output: 0,
            reasoning: 0,
            costs: Seq::empty(),
            error: None,
        }),
        message.info.role@ == "assistant"@ ==> ({
            let alone = raw_of(seq![message]);
            &&& alone.text == types::parts_text(message.parts@)
            &&& alone.tool_calls == types::parts_tool_calls(message.parts@)
            &&& alone.input == message.info.tokens.input
            &&& alone.output == message.info.tokens.output
            &&& alone.reasoning == message.info.tokens.reasoning
            &&& alone.costs == seq![message.info.cost]
            &&& alone.error is Some <==> message.info.error is Some
            &&& message.info.error matches Some(e) ==> alone.error == Some(e@)
        }),
        message.info.role@ != "assistant"@ ==> raw_of(seq![message]) == raw_of(Seq::empty()),
        ({
            let whole = raw_of(first + second);
            let a = raw_of(first);
            let b = raw_of(second);
            &&& whole.text == a.text + b.text
            &&& whole.tool_calls == a.tool_calls + b.tool_calls
            &&& whole.input == a.input + b.input
            &&& whole.output == a.output + b.output
            &&& whole.reasoning == a.reasoning + b.reasoning
            &&& whole.costs == a.costs + b.costs
            &&& a.error is Some ==> whole.error == a.error
            &&& a.error is None ==> whole.error == b.error
        }),
    decreases second.len(),
{
    let none = Seq::<AssistantMessage>::empty();
    assert(seq![message].drop_last() =~= none);
    assert(seq![message].last() == message);
    assert(raw_of(none) == empty_raw());
    let alone = raw_of(seq![message]);
    assert(from_assistant(message) ==> alone.text =~= types::parts_text(message.parts@));
    assert(from_assistant(message) ==> alone.tool_calls =~= types::parts_tool_calls(
        message.parts@,
    ));
    assert(from_assistant(message) ==> alone.costs =~= seq![message.info.cost]);
    let a = raw_of(first);
    let whole = raw_of(first + second);
    if second.len() == 0 {
        assert(first + second =~= first);
        assert(a.text + raw_of(second).text =~= a.text);
        assert(a.tool_calls + raw_of(second).tool_calls =~= a.tool_calls);
        assert(a.costs + raw_of(second).costs =~= a.costs);
    } else {
        let less = second.drop_last();
        law_an_answer_is_the_sum_of_its_messages(first, less, message);
        assert((first + second).drop_last() =~= first + less);
        assert((first + second).last() == second.last());
        assert(whole.text =~= a.text + raw_of(second).text);
        assert(whole.tool_calls =~= a.tool_calls + raw_of(second).tool_calls);
        assert(whole.costs =~= a.costs + raw_of(second).costs);
    }
}

/// Every text part of every message of an answer stands in the turn's text.
pub proof fn law_no_text_of_an_answer_is_lost(
    answer: Seq<AssistantMessage>,
    m: int,
    p: int,
) -> (at: int)
    requires
        0 <= m < answer.len(),
        answer[m].info.role@ == "assistant"@,
        0 <= p < answer[m].parts@.len(),
        answer[m].parts@[p] is Text,
    ensures
        text::occurs_at(raw_of(answer).text, answer[m].parts@[p]->Text_text@, at),
{
    let message = answer[m];
    let parts = message.parts@;
    let words = parts[p]->Text_text@;
    let none = Seq::<AssistantMessage>::empty();
    assert(answer =~= answer.take(m) + (seq![message] + answer.skip(m + 1)));
    law_an_answer_is_the_sum_of_its_messages(
        answer.take(m),
        seq![message] + answer.skip(m + 1),
        message,
    );
    law_an_answer_is_the_sum_of_its_messages(seq![message], answer.skip(m + 1), message);
    assert(parts =~= parts.take(p) + (seq![parts[p]] + parts.skip(p + 1)));
    types::law_text_parts_stand_in_order(
        parts.take(p),
        seq![parts[p]] + parts.skip(p + 1),
        parts[p],
    );
    types::law_text_parts_stand_in_order(seq![parts[p]], parts.skip(p + 1), parts[p]);
    let before = raw_of(answer.take(m)).text + types::parts_text(parts.take(p));
    let after = types::parts_text(parts.skip(p + 1)) + raw_of(answer.skip(m + 1)).text;
    assert(raw_of(answer).text =~= before + words + after);
    let at = before.len() as int;
    assert((before + words + after).subrange(at, at + words.len()) =~= words);
    at
}

/// Which messages make up the turn: all of those after the last one that the
/// user sent, and all there are where the user sent none.
pub proof fn law_a_turn_starts_after_the_last_user_message(
    earlier: Seq<AssistantMessage>,
    prompt: AssistantMessage,
    answer: Seq<AssistantMessage>,
)
    requires
        prompt.info.role@ == "user"@,
        forall|i: int| 0 <= i < answer.len() ==> (#[trigger] answer[i]).info.role@ != "user"@,
    ensures
        collected(earlier.push(prompt) + answer) == raw_of(answer),
        collected(answer) == raw_of(answer),
{
    assert forall|i: int| 0 <= i < answer.len() implies !from_user(#[trigger] answer[i]) by {}
    law_earlier_messages_do_not_count(earlier, prompt, answer);
    lemma_no_prompt_no_cut(answer);
}

/// Without a message from the user, every message belongs to the turn.
proof fn lemma_no_prompt_no_cut(answer: Seq<AssistantMessage>)
    requires
        forall|i: int| 0 <= i < answer.len() ==> !from_user(#[trigger] answer[i]),
    ensures
        latest_messages(answer) == answer,
    decreases answer.len(),
{
    if answer.len() > 0 {
        let less = answer.drop_last();
        assert forall|i: int| 0 <= i < less.len() implies !from_user(#[trigger] less[i]) by {
            assert(less[i] == answer[i]);
        }
        assert(!from_user(answer[answer.len() - 1]));
        lemma_no_prompt_no_cut(less);
        assert(less.push(answer.last()) =~= answer);
    } else {
        assert(latest_messages(answer) =~= answer);
    }
}

/// When an attempt came to nothing, and what is made of that. Visible text is
/// always a turn. Without any, a recorded failure decides: it is final unless
/// asking again could help, and its own words are the reason. A silence that
/// nothing explains is worth another attempt.
pub proof fn law_silence_is_judged_by_what_was_recorded(raw: RawView)
    ensures
        fault_in(raw) is None <==> !text::is_blank(raw.text),
        text::is_blank(raw.text) && raw.error is None ==> fault_in(raw) == Some(
            FaultView::Transient("the model produced no visible text"@),
        ),
        text::is_blank(raw.text) && raw.error is Some ==> ({
            let e = raw.error->0;
            let again = match e.is_retryable {
                Some(flag) => flag,
                None => e.status_code is Some && (e.status_code->0 == 408 || e.status_code->0 == 429
                    || e.status_code->0 / 100 == 5),
            };
            if again {
                fault_in(raw) == Some(FaultView::Transient(types::message_error_text(e)))
            } else {
                fault_in(raw) == Some(FaultView::Permanent(types::message_error_text(e)))
            }
        }),
{
    if let Some(e) = raw.error {
        types::law_the_provider_decides_about_retrying(e);
    }
}

/// A collected turn is seen as it is.
pub proof fn law_a_collected_turn_is_seen_as_it_is(raw: RawTurn)
    ensures
        raw@.text == raw.text@,
        raw@.tool_calls == types::tool_views(raw.tool_calls@),
        raw@.input == raw.tokens.input,
        raw@.output == raw.tokens.output,
        raw@.reasoning == raw.tokens.reasoning,
        raw@.costs == raw.costs@,
        raw@.error is Some <==> raw.error is Some,
        raw.error matches Some(e) ==> raw@.error == Some(e@),
        raw_fits(raw@),
{
}


/// A turn can be collected exactly when each of its token totals fits an unsigned
/// number of sixty-four bits.
pub proof fn law_what_can_be_collected(raw: RawView)
    ensures
        raw_fits(raw) <==> raw.input <= 18_446_744_073_709_551_615 && raw.output
            <= 18_446_744_073_709_551_615 && raw.reasoning <= 18_446_744_073_709_551_615,
{
}

/// A fault is seen as it is.
pub proof fn law_a_fault_is_seen_as_it_is(words: String)
    ensures
        opt_fault(None) is None,
        opt_fault(Some(TurnFault::Transient(words))) == Some(FaultView::Transient(words@)),
        opt_fault(Some(TurnFault::Permanent(words))) == Some(FaultView::Permanent(words@)),
{
}

} // verus!
