//! The subset of the opencode wire surface that coin depends on, as plain
//! values.

use vstd::prelude::*;

use crate::error;
use crate::text;

verus! {

/// Envelope used by the v2 `/api/*` routes.
#[derive(Debug, Clone)]
pub struct V2Envelope<T> {
    /// The wrapped payload.
    pub data: T,
}

/// Response from `GET /api/health`.
#[derive(Debug, Clone)]
pub struct Health {
    /// Whether the server is ready to accept API requests.
    pub healthy: bool,
}

/// A session as returned by `POST /session`.
#[derive(Debug, Clone)]
pub struct Session {
    /// Stable session identifier, for example `ses_...`.
    pub id: String,
    /// Human-readable title assigned by opencode.
    pub title: String,
}

/// Token counts reported alongside an assistant message.
#[derive(Debug, Clone, Copy, PartialEq, Eq, Structural)]
pub struct Tokens {
    /// Prompt tokens consumed.
    pub input: u64,
    /// Completion tokens produced.
    pub output: u64,
    /// Reasoning tokens, for models that report them separately.
    pub reasoning: u64,
}

impl Default for Tokens {
    fn default() -> (r: Tokens)
        ensures
            r == (Tokens { input: 0, output: 0, reasoning: 0 }),
    {
        Tokens { input: 0, output: 0, reasoning: 0 }
    }
}

/// An amount of money in USD, carried as the bit pattern of the IEEE 754
/// double that reported it.
///
/// The library decides which amounts belong together and in which order;
/// adding them up is left to code that may hold a floating-point number.
#[derive(Debug, Clone, Copy, PartialEq, Eq, Structural)]
pub struct Cost {
    /// The bit pattern.
    pub bits: u64,
}

impl Default for Cost {
    /// Nothing: the bit pattern of positive zero.
    fn default() -> (r: Cost)
        ensures
            r == (Cost { bits: 0 }),
    {
        Cost { bits: 0 }
    }
}

/// A model and the provider that serves it.
#[derive(Debug, Clone, PartialEq, Eq)]
pub struct ModelRef {
    /// Provider that serves the model.
    pub provider_id: String,
    /// Model identifier, which may itself hold slashes.
    pub model_id: String,
}

/// What a [`ModelRef`] says.
#[verifier::ext_equal]
pub struct ModelView {
    pub provider_id: Seq<char>,
    pub model_id: Seq<char>,
}

impl View for ModelRef {
    type V = ModelView;

    open spec fn view(&self) -> ModelView {
        ModelView { provider_id: self.provider_id@, model_id: self.model_id@ }
    }
}

/// The model behind an optional reference.
pub open spec fn opt_model(m: Option<ModelRef>) -> Option<ModelView> {
    match m {
        Some(v) => Some(v@),
        None => None,
    }
}

/// The first separator of a `provider/model` text.
pub open spec fn first_slash(s: Seq<char>) -> Option<int> {
    text::next_occurrence(s, seq!['/'], 0)
}

/// Text in `provider/model` form: a separator with something on either side
/// of the first one.
pub open spec fn is_model_form(s: Seq<char>) -> bool {
    match first_slash(s) {
        Some(i) => 0 < i < s.len() - 1,
        None => false,
    }
}

/// The model that a text in `provider/model` form names.
pub open spec fn model_named(s: Seq<char>) -> ModelView {
    let i = first_slash(s)->0;
    ModelView { provider_id: s.subrange(0, i), model_id: s.subrange(i + 1, s.len() as int) }
}

/// The text that names a model.
pub open spec fn model_name(m: ModelView) -> Seq<char> {
    m.provider_id + "/"@ + m.model_id
}

/// What is reported of a text that names no model.
pub open spec fn model_complaint(s: Seq<char>) -> Seq<char> {
    "expected a model in provider/model form, got "@ + s
}

impl ModelRef {
    /// Build a reference from its two halves.
    pub fn new(provider_id: &str, model_id: &str) -> (r: ModelRef)
        ensures
            r@ == (ModelView { provider_id: provider_id@, model_id: model_id@ }),
    {
        ModelRef { provider_id: provider_id.to_owned(), model_id: model_id.to_owned() }
    }

    /// Read a `provider/model` text, split at the first separator only.
    pub fn parse(value: &str) -> (r: Result<ModelRef, String>)
        ensures
            r is Ok <==> is_model_form(value@),
            r matches Ok(m) ==> m@ == model_named(value@),
            r matches Err(e) ==> e@ == model_complaint(value@),
    {
        let chars = text::chars_of(value);
        let slash = text::chars_of("/");
        proof {
            reveal_strlit("/");
            assert("/"@ =~= seq!['/']);
        }
        if let Some(i) = text::find_from(&chars, &slash, 0) {
            if 0 < i && i < chars.len() - 1 {
                return Ok(
                    ModelRef {
                        provider_id: value.substring_char(0, i).to_owned(),
                        model_id: value.substring_char(i + 1, chars.len()).to_owned(),
                    },
                );
            }
        }
        let mut complaint = "expected a model in provider/model form, got ".to_owned();
        complaint.append(value);
        Err(complaint)
    }

    /// The `provider/model` text.
    pub fn to_string(&self) -> (r: String)
        ensures
            r@ == model_name(self@),
    {
        let mut s = self.provider_id.clone();
        s.append("/");
        s.append(self.model_id.as_str());
        s
    }

    /// Whether two references name the same model.
    pub fn same(&self, other: &ModelRef) -> (r: bool)
        ensures
            r == (self@ == other@),
    {
        let r = self.provider_id == other.provider_id && self.model_id == other.model_id;
        assert(r ==> self@ =~= other@);
        r
    }

    /// A second reference to the same model.
    pub fn duplicate(&self) -> (r: ModelRef)
        ensures
            r == *self,
    {
        ModelRef { provider_id: self.provider_id.clone(), model_id: self.model_id.clone() }
    }
}

impl std::str::FromStr for ModelRef {
    type Err = String;

    /// The model that a text names, as [`ModelRef::parse`] reads it.
    fn from_str(value: &str) -> (r: Result<ModelRef, String>)
        ensures
            r is Ok <==> is_model_form(value@),
            r matches Ok(m) ==> m@ == model_named(value@),
            r matches Err(e) ==> e@ == model_complaint(value@),
    {
        ModelRef::parse(value)
    }
}

/// Naming a model and reading the name back gives the same model, as long as
/// both halves say something and the provider holds no separator.
pub proof fn law_model_names_round_trip(m: ModelView)
    requires
        m.provider_id.len() > 0,
        m.model_id.len() > 0,
        !m.provider_id.contains('/'),
    ensures
        is_model_form(model_name(m)),
        model_named(model_name(m)) == m,
{
    reveal_strlit("/");
    assert("/"@ =~= seq!['/']);
    let s = model_name(m);
    let n = m.provider_id.len() as int;
    assert(s.subrange(n, n + 1) =~= seq!['/']);
    assert(text::occurs_at(s, seq!['/'], n));
    text::lemma_next_occurrence(s, seq!['/'], 0);
    assert forall|j: int| 0 <= j < n implies !text::occurs_at(s, seq!['/'], j) by {
        if text::occurs_at(s, seq!['/'], j) {
            assert(s.subrange(j, j + 1)[0] == '/');
            assert(m.provider_id[j] == '/');
        }
    }
    assert(first_slash(s) == Some(n));
    assert(s.subrange(0, n) =~= m.provider_id);
    assert(s.subrange(n + 1, s.len() as int) =~= m.model_id);
}

/// Reading a name and writing it out again gives the same text.
pub proof fn law_model_text_round_trips(s: Seq<char>)
    requires
        is_model_form(s),
    ensures
        model_name(model_named(s)) == s,
{
    reveal_strlit("/");
    text::lemma_next_occurrence(s, seq!['/'], 0);
    let i = first_slash(s)->0;
    assert(s.subrange(i, i + 1)[0] == '/');
    assert(model_name(model_named(s)) =~= s);
}

/// What a failed message reports of its cause.
#[derive(Debug, Clone, PartialEq, Eq, Default)]
pub struct MessageErrorData {
    /// The provider's own words; empty when it gave none.
    pub message: String,
    /// Status the provider returned, when it returned one.
    pub status_code: Option<u16>,
    /// Whether the provider calls the failure worth retrying.
    pub is_retryable: Option<bool>,
}

/// A failure recorded on an assistant message.
///
/// A refused turn still arrives as a successful response: the message holds no
/// text, and this object says why.
#[derive(Debug, Clone, PartialEq, Eq, Default)]
pub struct MessageError {
    /// Error class, for example `APIError`.
    pub name: String,
    /// What is known of the cause.
    pub data: MessageErrorData,
}

/// What a [`MessageError`] says.
#[verifier::ext_equal]
pub struct MessageErrorView {
    pub name: Seq<char>,
    pub message: Seq<char>,
    pub status_code: Option<u16>,
    pub is_retryable: Option<bool>,
}

impl View for MessageError {
    type V = MessageErrorView;

    open spec fn view(&self) -> MessageErrorView {
        MessageErrorView {
            name: self.name@,
            message: self.data.message@,
            status_code: self.data.status_code,
            is_retryable: self.data.is_retryable,
        }
    }
}

/// Whether asking again could help: the provider's own judgement decides, and
/// the status code where it gave none. A failure with neither is final.
pub open spec fn error_is_retryable(e: MessageErrorView) -> bool {
    match (e.is_retryable, e.status_code) {
        (Some(flag), _) => flag,
        (None, Some(status)) => error::transient_status(status),
        (None, None) => false,
    }
}

/// How a recorded failure is reported: its class, its status in brackets where
/// there is one, and the provider's words where there are any.
pub open spec fn message_error_text(e: MessageErrorView) -> Seq<char> {
    let status = match e.status_code {
        Some(code) => " ("@ + text::decimal(code as nat) + ")"@,
        None => Seq::empty(),
    };
    let words = if e.message.len() == 0 {
        Seq::empty()
    } else {
        ": "@ + e.message
    };
    e.name + status + words
}

impl MessageError {
    /// Whether asking again could help.
    pub fn is_retryable(&self) -> (r: bool)
        ensures
            r == error_is_retryable(self@),
    {
        match self.data.is_retryable {
            Some(flag) => flag,
            None => match self.data.status_code {
                Some(status) => error::is_transient_status(status),
                None => false,
            },
        }
    }

    /// How the failure is reported.
    pub fn to_string(&self) -> (r: String)
        ensures
            r@ == message_error_text(self@),
    {
        let mut s = self.name.clone();
        if let Some(code) = self.data.status_code {
            s.append(" (");
            s.append(text::number(code as u64).as_str());
            s.append(")");
        }
        if !self.data.message.as_str().is_empty() {
            s.append(": ");
            s.append(self.data.message.as_str());
        }
        assert(s@ =~= message_error_text(self@));
        s
    }

    /// A second copy of the failure.
    pub fn duplicate(&self) -> (r: MessageError)
        ensures
            r == *self,
    {
        MessageError {
            name: self.name.clone(),
            data: MessageErrorData {
                message: self.data.message.clone(),
                status_code: self.data.status_code,
                is_retryable: self.data.is_retryable,
            },
        }
    }
}

/// Metadata attached to a completed assistant message.
#[derive(Debug, Clone, Default)]
pub struct MessageInfo {
    /// Message identifier, for example `msg_...`.
    pub id: String,
    /// Session the message belongs to.
    pub session_id: String,
    /// `user` or `assistant`.
    pub role: String,
    /// Model that produced the message.
    pub model_id: String,
    /// Provider that served the model.
    pub provider_id: String,
    /// Accumulated cost in USD.
    pub cost: Cost,
    /// Token accounting for the message.
    pub tokens: Tokens,
    /// Failure recorded against the message, if any.
    pub error: Option<MessageError>,
}

/// The value of one argument passed to a tool.
#[derive(Debug, Clone, PartialEq, Eq)]
pub enum ArgumentValue {
    /// A text.
    Text(String),
    /// Anything else: a number, a flag, a list, a table, nothing.
    Other,
}

/// One argument passed to a tool.
#[derive(Debug, Clone, PartialEq, Eq)]
pub struct Argument {
    /// Name of the argument.
    pub name: String,
    /// Its value.
    pub value: ArgumentValue,
}

/// State of a tool invocation.
#[derive(Debug, Clone, Default)]
pub struct ToolState {
    /// One of `pending`, `running`, `completed`, or `error`.
    pub status: String,
    /// Arguments the model passed to the tool, in the order it was given them.
    pub input: Vec<Argument>,
    /// Tool output, present once the call completes.
    pub output: Option<String>,
    /// Error text, present when the call failed.
    pub error: Option<String>,
}

/// The first argument that is a text, or nothing where none is.
pub open spec fn first_text_argument(input: Seq<Argument>) -> Seq<char>
    decreases input.len(),
{
    if input.len() == 0 {
        Seq::empty()
    } else {
        match input.first().value {
            ArgumentValue::Text(t) => t@,
            ArgumentValue::Other => first_text_argument(input.drop_first()),
        }
    }
}

impl ToolState {
    /// What the invocation was about, in one phrase: its first textual
    /// argument, such as the query of a search.
    pub fn summary(&self) -> (r: String)
        ensures
            r@ == first_text_argument(self.input@),
    {
        let mut i: usize = 0;
        assert(self.input@.skip(0) =~= self.input@);
        while i < self.input.len()
            invariant
                i <= self.input.len(),
                first_text_argument(self.input@) == first_text_argument(self.input@.skip(i as int)),
            decreases self.input.len() - i,
        {
            assert(self.input@.skip(i as int).drop_first() =~= self.input@.skip(i + 1));
            if let ArgumentValue::Text(t) = &self.input[i].value {
                return t.clone();
            }
            i += 1;
        }
        String::new()
    }
}

/// One part of a message: text, a tool invocation, or a step marker.
#[derive(Debug, Clone)]
pub enum Part {
    /// Free text produced by the model.
    Text {
        /// Part identifier.
        id: String,
        /// Text content accumulated so far.
        text: String,
    },
    /// A tool invocation and its state.
    Tool {
        /// Part identifier.
        id: String,
        /// Tool name, for example `bash` or `websearch`.
        tool: String,
        /// Invocation state, including status and input.
        state: ToolState,
    },
    /// Marks the beginning of a reasoning or tool step.
    StepStart {
        /// Part identifier.
        id: String,
    },
    /// Any part type coin does not model, reasoning among them.
    Other,
}

/// One tool invocation, as a transcript records it.
#[derive(Debug, Clone, PartialEq, Eq)]
pub struct ToolCall {
    /// Tool name.
    pub tool: String,
    /// Status it ended with.
    pub status: String,
    /// What it was about; empty when nothing is known.
    pub detail: String,
}

/// What a [`ToolCall`] says.
#[verifier::ext_equal]
pub struct ToolCallView {
    pub tool: Seq<char>,
    pub status: Seq<char>,
    pub detail: Seq<char>,
}

impl View for ToolCall {
    type V = ToolCallView;

    open spec fn view(&self) -> ToolCallView {
        ToolCallView { tool: self.tool@, status: self.status@, detail: self.detail@ }
    }
}

/// What a list of tool calls says.
pub open spec fn tool_views(calls: Seq<ToolCall>) -> Seq<ToolCallView> {
    calls.map_values(|c: ToolCall| c@)
}

impl ToolCall {
    /// A second copy of the call.
    pub fn duplicate(&self) -> (r: ToolCall)
        ensures
            r == *self,
    {
        ToolCall {
            tool: self.tool.clone(),
            status: self.status.clone(),
            detail: self.detail.clone(),
        }
    }
}

/// A second copy of a list of calls.
pub fn duplicate_calls(calls: &Vec<ToolCall>) -> (r: Vec<ToolCall>)
    ensures
        r@ == calls@,
{
    let mut copies: Vec<ToolCall> = Vec::new();
    let mut i: usize = 0;
    while i < calls.len()
        invariant
            i <= calls.len(),
            copies@ == calls@.take(i as int),
        decreases calls.len() - i,
    {
        copies.push(calls[i].duplicate());
        assert(copies@ =~= calls@.take(i + 1));
        i += 1;
    }
    assert(calls@.take(i as int) =~= calls@);
    copies
}

/// A completed assistant message returned by `POST /session/{id}/message`.
#[derive(Debug, Clone, Default)]
pub struct AssistantMessage {
    /// Message metadata including cost and token counts.
    pub info: MessageInfo,
    /// Ordered parts making up the message.
    pub parts: Vec<Part>,
}

/// The text parts, one after the other.
pub open spec fn parts_text(parts: Seq<Part>) -> Seq<char>
    decreases parts.len(),
{
    if parts.len() == 0 {
        Seq::empty()
    } else {
        let before = parts_text(parts.drop_last());
        match parts.last() {
            Part::Text { text, .. } => before + text@,
            _ => before,
        }
    }
}

/// The tool parts as tool calls, in order.
pub open spec fn parts_tool_calls(parts: Seq<Part>) -> Seq<ToolCallView>
    decreases parts.len(),
{
    if parts.len() == 0 {
        Seq::empty()
    } else {
        let before = parts_tool_calls(parts.drop_last());
        match parts.last() {
            Part::Tool { tool, state, .. } => before.push(
                ToolCallView {
                    tool: tool@,
                    status: state.status@,
                    detail: first_text_argument(state.input@),
                },
            ),
            _ => before,
        }
    }
}

impl AssistantMessage {
    /// All text parts as a single text, with the other parts left out.
    pub fn text(&self) -> (r: String)
        ensures
            r@ == parts_text(self.parts@),
    {
        let mut s = String::new();
        let mut i: usize = 0;
        while i < self.parts.len()
            invariant
                i <= self.parts.len(),
                s@ == parts_text(self.parts@.take(i as int)),
            decreases self.parts.len() - i,
        {
            assert(self.parts@.take(i + 1).drop_last() =~= self.parts@.take(i as int));
            if let Part::Text { text, .. } = &self.parts[i] {
                s.append(text.as_str());
            }
            i += 1;
        }
        assert(self.parts@.take(i as int) =~= self.parts@);
        s
    }

    /// Whether the assistant sent the message, rather than the user.
    pub fn is_assistant(&self) -> (r: bool)
        ensures
            r == (self.info.role@ == "assistant"@),
    {
        text::same(self.info.role.as_str(), "assistant")
    }

    /// The tool invocations of the message, in order.
    pub fn tool_calls(&self) -> (r: Vec<ToolCall>)
        ensures
            tool_views(r@) == parts_tool_calls(self.parts@),
    {
        let mut calls: Vec<ToolCall> = Vec::new();
        let mut i: usize = 0;
        assert(tool_views(calls@) =~= parts_tool_calls(self.parts@.take(0)));
        while i < self.parts.len()
            invariant
                i <= self.parts.len(),
                tool_views(calls@) == parts_tool_calls(self.parts@.take(i as int)),
            decreases self.parts.len() - i,
        {
            assert(self.parts@.take(i + 1).drop_last() =~= self.parts@.take(i as int));
            let ghost before = calls@;
            if let Part::Tool { tool, state, .. } = &self.parts[i] {
                let call = ToolCall {
                    tool: tool.clone(),
                    status: state.status.clone(),
                    detail: state.summary(),
                };
                calls.push(call);
                assert(tool_views(calls@) =~= tool_views(before).push(call@));
            }
            i += 1;
        }
        assert(self.parts@.take(i as int) =~= self.parts@);
        calls
    }
}

/// Request body for `POST /session/{id}/message`.
#[derive(Debug, Clone)]
pub struct PromptRequest {
    /// Message parts to send. Only text parts are used by coin.
    pub parts: Vec<PromptPart>,
    /// Agent to answer as, selecting the persona. Left out when unset.
    pub agent: Option<String>,
    /// Model to answer with. Left out when unset.
    pub model: Option<ModelRef>,
}

/// A single outgoing message part.
#[derive(Debug, Clone)]
pub struct PromptPart {
    /// Part discriminant. Always `text` for coin.
    pub kind: &'static str,
    /// Text to send.
    pub text: String,
}

impl PromptPart {
    /// Build a part tagged as `text`.
    pub fn text(text: &str) -> (r: PromptPart)
        ensures
            r.kind@ == "text"@,
            r.text@ == text@,
    {
        PromptPart { kind: "text", text: text.to_owned() }
    }
}

/// Payload of `message.part.delta`, the primary streaming signal.
#[derive(Debug, Clone, Default)]
pub struct PartDelta {
    /// Session the delta belongs to.
    pub session_id: String,
    /// Message being appended to.
    pub message_id: String,
    /// Part being appended to.
    pub part_id: String,
    /// Which field of the part this delta extends: `text` for visible output,
    /// `reasoning` for thinking tokens.
    pub field: String,
    /// The fragment appended by this delta.
    pub delta: String,
}

impl PartDelta {
    /// Whether this delta extends the visible text of a message, rather than
    /// its reasoning or any other field.
    pub fn is_text(&self) -> (r: bool)
        ensures
            r == (self.field@ == "text"@),
    {
        text::same(self.field.as_str(), "text")
    }
}

/// Payload of `message.part.updated`.
#[derive(Debug, Clone)]
pub struct PartUpdated {
    /// The updated part.
    pub part: PartEnvelope,
}

/// A part together with the session it belongs to.
#[derive(Debug, Clone)]
pub struct PartEnvelope {
    /// Session the part belongs to.
    pub session_id: String,
    /// The part itself.
    pub part: Part,
}

/// Reference to a session, used by events carrying no other payload.
#[derive(Debug, Clone, Default)]
pub struct SessionRef {
    /// Session identifier.
    pub session_id: String,
}

/// Payload of `session.error`.
#[derive(Debug, Clone, Default)]
pub struct SessionErrorEvent {
    /// Session that failed, when reported.
    pub session_id: String,
    /// Error detail as it was sent; its shape varies by cause.
    pub error: String,
}

/// An event from the `GET /event` bus.
///
/// opencode publishes many event types; coin models the ones it acts on and
/// collapses the rest into [`ServerEvent::Other`].
#[derive(Debug, Clone)]
pub enum ServerEvent {
    /// Incremental text appended to a part. The primary streaming signal.
    PartDelta(PartDelta),
    /// A part reached a new state, used to observe tool invocations.
    PartUpdated(PartUpdated),
    /// A session finished its turn. The authoritative completion signal.
    SessionIdle(SessionRef),
    /// A session failed.
    SessionError(SessionErrorEvent),
    /// A tool is requesting permission to run; the request as it was sent.
    PermissionAsked(String),
    /// Any event type coin does not model, or a known type whose payload could
    /// not be read.
    Other,
}

/// What an event's `type` tag says its payload should be.
#[derive(Debug, Clone, Copy, PartialEq, Eq, Structural)]
pub enum EventKind {
    /// A [`PartDelta`].
    PartDelta,
    /// A [`PartUpdated`].
    PartUpdated,
    /// A [`SessionRef`].
    SessionIdle,
    /// A [`SessionErrorEvent`].
    SessionError,
    /// Anything at all.
    PermissionAsked,
    /// Nothing coin models.
    Other,
}

/// The kind of event that a `type` tag stands for.
pub open spec fn kind_tagged(tag: Seq<char>) -> EventKind {
    if tag == "message.part.delta"@ {
        EventKind::PartDelta
    } else if tag == "message.part.updated"@ {
        EventKind::PartUpdated
    } else if tag == "session.idle"@ {
        EventKind::SessionIdle
    } else if tag == "session.error"@ {
        EventKind::SessionError
    } else if tag == "permission.asked"@ {
        EventKind::PermissionAsked
    } else {
        EventKind::Other
    }
}

impl EventKind {
    /// The kind of event that a `type` tag stands for.
    pub fn of(tag: &str) -> (r: EventKind)
        ensures
            r == kind_tagged(tag@),
    {
        if text::same(tag, "message.part.delta") {
            EventKind::PartDelta
        } else if text::same(tag, "message.part.updated") {
            EventKind::PartUpdated
        } else if text::same(tag, "session.idle") {
            EventKind::SessionIdle
        } else if text::same(tag, "session.error") {
            EventKind::SessionError
        } else if text::same(tag, "permission.asked") {
            EventKind::PermissionAsked
        } else {
            EventKind::Other
        }
    }
}

/// An event's payload, as far as it could be read.
#[derive(Debug, Clone)]
pub enum Payload {
    /// It reads as a delta.
    PartDelta(PartDelta),
    /// It reads as an updated part.
    PartUpdated(PartUpdated),
    /// It reads as a reference to a session.
    SessionRef(SessionRef),
    /// It reads as a session's failure.
    SessionError(SessionErrorEvent),
    /// The payload as it was sent.
    Raw(String),
    /// It could not be read.
    Unusable,
}

/// The event that a tag and a payload amount to. A payload that does not fit
/// its tag degrades to an event that is ignored, as does an unknown tag.
pub open spec fn event_of(tag: Seq<char>, payload: Payload) -> ServerEvent {
    match (kind_tagged(tag), payload) {
        (EventKind::PartDelta, Payload::PartDelta(p)) => ServerEvent::PartDelta(p),
        (EventKind::PartUpdated, Payload::PartUpdated(p)) => ServerEvent::PartUpdated(p),
        (EventKind::SessionIdle, Payload::SessionRef(p)) => ServerEvent::SessionIdle(p),
        (EventKind::SessionError, Payload::SessionError(p)) => ServerEvent::SessionError(p),
        (EventKind::PermissionAsked, Payload::Raw(p)) => ServerEvent::PermissionAsked(p),
        _ => ServerEvent::Other,
    }
}

impl ServerEvent {
    /// Interpret an event by its `type` tag.
    ///
    /// opencode publishes many event types and adds more over time, and an
    /// unrecognized one must never interrupt a running debate, so nothing here
    /// fails.
    pub fn interpret(tag: &str, payload: Payload) -> (r: ServerEvent)
        ensures
            r == event_of(tag@, payload),
    {
        match (EventKind::of(tag), payload) {
            (EventKind::PartDelta, Payload::PartDelta(p)) => ServerEvent::PartDelta(p),
            (EventKind::PartUpdated, Payload::PartUpdated(p)) => ServerEvent::PartUpdated(p),
            (EventKind::SessionIdle, Payload::SessionRef(p)) => ServerEvent::SessionIdle(p),
            (EventKind::SessionError, Payload::SessionError(p)) => ServerEvent::SessionError(p),
            (EventKind::PermissionAsked, Payload::Raw(p)) => ServerEvent::PermissionAsked(p),
            _ => ServerEvent::Other,
        }
    }
}

/// An event coin does not model, and one whose payload could not be read, is
/// ignored whatever else it holds.
pub proof fn law_unmodelled_events_are_ignored(tag: Seq<char>, payload: Payload)
    ensures
        kind_tagged(tag) == EventKind::Other ==> event_of(tag, payload) == ServerEvent::Other,
        payload is Unusable ==> event_of(tag, payload) == ServerEvent::Other,
{
}

/// A provider and the models it serves, as `GET /config/providers` lists them.
#[derive(Debug, Clone)]
pub struct Provider {
    /// Provider identifier.
    pub id: String,
    /// Identifiers of its models.
    pub models: Vec<String>,
}

/// Response from `GET /config/providers`.
#[derive(Debug, Clone)]
pub struct ProvidersResponse {
    /// Every configured provider.
    pub providers: Vec<Provider>,
}

/// The models of one provider.
pub open spec fn models_of(p: Provider) -> Seq<ModelView> {
    p.models@.map_values(|m: String| ModelView { provider_id: p.id@, model_id: m@ })
}

/// The models of all providers, in the order they are listed.
pub open spec fn all_models(providers: Seq<Provider>) -> Seq<ModelView>
    decreases providers.len(),
{
    if providers.len() == 0 {
        Seq::empty()
    } else {
        all_models(providers.drop_last()) + models_of(providers.last())
    }
}

/// What a list of models says.
pub open spec fn model_views(models: Seq<ModelRef>) -> Seq<ModelView> {
    models.map_values(|m: ModelRef| m@)
}

impl ProvidersResponse {
    /// Every model the server can route to.
    pub fn models(&self) -> (r: Vec<ModelRef>)
        ensures
            model_views(r@) == all_models(self.providers@),
    {
        let mut models: Vec<ModelRef> = Vec::new();
        let mut i: usize = 0;
        assert(model_views(models@) =~= all_models(self.providers@.take(0)));
        while i < self.providers.len()
            invariant
                i <= self.providers.len(),
                model_views(models@) == all_models(self.providers@.take(i as int)),
            decreases self.providers.len() - i,
        {
            let provider = &self.providers[i];
            let ghost before = model_views(models@);
            let ghost own = models_of(*provider);
            let mut j: usize = 0;
            assert(before + own.take(0) =~= before);
            while j < provider.models.len()
                invariant
                    j <= provider.models.len(),
                    own == models_of(*provider),
                    model_views(models@) == before + own.take(j as int),
                decreases provider.models.len() - j,
            {
                let ghost earlier = models@;
                let model = ModelRef::new(provider.id.as_str(), provider.models[j].as_str());
                models.push(model);
                assert(model_views(models@) =~= model_views(earlier).push(model@));
                assert(own.take(j + 1) =~= own.take(j as int).push(own[j as int]));
                assert(before + own.take(j + 1) =~= (before + own.take(j as int)).push(
                    own[j as int],
                ));
                j += 1;
            }
            assert(own.take(j as int) =~= own);
            assert(self.providers@.take(i + 1).drop_last() =~= self.providers@.take(i as int));
            i += 1;
        }
        assert(self.providers@.take(i as int) =~= self.providers@);
        models
    }
}


/// What a part contributes to the text of a message: its own text where it is a
/// text part, and nothing otherwise. The text of two stretches of parts is that
/// of the first followed by that of the second.
pub proof fn law_text_parts_stand_in_order(a: Seq<Part>, b: Seq<Part>, part: Part)
    ensures
        parts_text(Seq::empty()).len() == 0,
        part matches Part::Text { text, .. } ==> parts_text(seq![part]) == text@,
        !(part is Text) ==> parts_text(seq![part]).len() == 0,
        parts_text(a + b) == parts_text(a) + parts_text(b),
    decreases b.len(),
{
    assert(seq![part].drop_last() =~= Seq::<Part>::empty());
    assert(seq![part].last() == part);
    assert(parts_text(Seq::empty()) =~= Seq::<char>::empty());
    if let Part::Text { text, .. } = part {
        assert(parts_text(seq![part]) =~= text@);
    }
    if b.len() == 0 {
        assert(a + b =~= a);
        assert(parts_text(a) + parts_text(b) =~= parts_text(a));
    } else {
        law_text_parts_stand_in_order(a, b.drop_last(), part);
        assert((a + b).drop_last() =~= a + b.drop_last());
        assert((a + b).last() == b.last());
        assert(parts_text(a + b) =~= parts_text(a) + parts_text(b));
    }
}

/// What a part contributes to the tool calls of a message: one call where it is
/// a tool invocation, with the tool's name, its status, and its first textual
/// argument, and nothing otherwise. Calls come in the order of their parts.
pub proof fn law_tool_parts_stand_in_order(a: Seq<Part>, b: Seq<Part>, part: Part)
    ensures
        parts_tool_calls(Seq::empty()).len() == 0,
        part matches Part::Tool { tool, state, .. } ==> parts_tool_calls(seq![part]).len() == 1
            && parts_tool_calls(seq![part])[0].tool == tool@ && parts_tool_calls(
            seq![part],
        )[0].status == state.status@ && parts_tool_calls(seq![part])[0].detail
            == first_text_argument(state.input@),
        !(part is Tool) ==> parts_tool_calls(seq![part]).len() == 0,
        parts_tool_calls(a + b) == parts_tool_calls(a) + parts_tool_calls(b),
    decreases b.len(),
{
    assert(seq![part].drop_last() =~= Seq::<Part>::empty());
    assert(seq![part].last() == part);
    assert(parts_tool_calls(Seq::empty()) =~= Seq::<ToolCallView>::empty());
    if b.len() == 0 {
        assert(a + b =~= a);
        assert(parts_tool_calls(a) + parts_tool_calls(b) =~= parts_tool_calls(a));
    } else {
        law_tool_parts_stand_in_order(a, b.drop_last(), part);
        assert((a + b).drop_last() =~= a + b.drop_last());
        assert((a + b).last() == b.last());
        assert(parts_tool_calls(a + b) =~= parts_tool_calls(a) + parts_tool_calls(b));
    }
}

/// What an invocation was about is its first argument that is a text; where no
/// argument is, nothing is known.
pub proof fn law_the_first_text_argument_counts(input: Seq<Argument>)
    ensures
        (forall|i: int| 0 <= i < input.len() ==> !((#[trigger] input[i]).value is Text))
            ==> first_text_argument(input).len() == 0,
        forall|i: int|
            0 <= i < input.len() && (#[trigger] input[i]).value is Text && (forall|j: int|
                0 <= j < i ==> !((#[trigger] input[j]).value is Text)) ==> first_text_argument(
                input,
            ) == input[i].value->Text_0@,
    decreases input.len(),
{
    if input.len() > 0 {
        let rest = input.drop_first();
        assert(input.first() == input[0]);
        if !(input[0].value is Text) {
            law_the_first_text_argument_counts(rest);
            assert forall|i: int| 0 <= i < rest.len() implies #[trigger] rest[i] == input[i + 1] by {
            }
            assert forall|i: int|
                0 <= i < input.len() && (#[trigger] input[i]).value is Text && (forall|j: int|
                    0 <= j < i ==> !((
                    #[trigger] input[j]).value is Text)) implies first_text_argument(input)
                == input[i].value->Text_0@ by {
                assert(rest[i - 1] == input[i]);
                assert forall|j: int| 0 <= j < i - 1 implies !((
                #[trigger] rest[j]).value is Text) by {
                    assert(rest[j] == input[j + 1]);
                }
            }
        }
    }
}

/// When a text names a model: it divides into a provider and a model, neither of
/// them empty, at a separator that the provider does not hold.
pub proof fn law_a_model_name_has_two_halves(s: Seq<char>)
    ensures
        is_model_form(s) ==> ({
            let m = model_named(s);
            &&& m.provider_id.len() > 0
            &&& m.model_id.len() > 0
            &&& !m.provider_id.contains('/')
            &&& s == m.provider_id + seq!['/'] + m.model_id
        }),
        forall|provider: Seq<char>, model: Seq<char>|
            provider.len() > 0 && model.len() > 0 && !provider.contains('/') && s == #[trigger] (
            provider + seq!['/'] + model) ==> is_model_form(s) && model_named(s).provider_id
                == provider && model_named(s).model_id == model,
{
    let slash = seq!['/'];
    text::lemma_next_occurrence(s, slash, 0);
    reveal_strlit("/");
    assert("/"@ =~= slash);
    if is_model_form(s) {
        let m = model_named(s);
        let i = first_slash(s)->0;
        assert(s.subrange(i, i + 1)[0] == '/');
        assert(s =~= m.provider_id + slash + m.model_id);
        if m.provider_id.contains('/') {
            let j = choose|j: int| 0 <= j < m.provider_id.len() && m.provider_id[j] == '/';
            assert(s[j] == '/');
            assert(s.subrange(j, j + 1) =~= slash);
            assert(text::occurs_at(s, slash, j));
        }
    }
    assert forall|provider: Seq<char>, model: Seq<char>|
        provider.len() > 0 && model.len() > 0 && !provider.contains('/') && s == #[trigger] (provider
            + slash + model) implies is_model_form(s) && model_named(s).provider_id == provider
        && model_named(s).model_id == model by {
        law_model_names_round_trip(ModelView { provider_id: provider, model_id: model });
    }
}

/// When a recorded failure is worth another attempt: the provider's own word
/// settles it; without one, a timeout, throttling, and the server's own failures
/// are; and without a status either, it is not.
pub proof fn law_the_provider_decides_about_retrying(e: MessageErrorView)
    ensures
        e.is_retryable == Some(true) ==> error_is_retryable(e),
        e.is_retryable == Some(false) ==> !error_is_retryable(e),
        e.is_retryable is None && e.status_code is None ==> !error_is_retryable(e),
        e.is_retryable is None && e.status_code is Some ==> (error_is_retryable(e)
            <==> e.status_code->0 == 408 || e.status_code->0 == 429 || e.status_code->0 / 100 == 5),
{
}

/// A recorded failure is reported by its class, then its status in brackets
/// where it has one, then the provider's words where there are any.
pub proof fn law_a_failure_is_reported_in_full(e: MessageErrorView)
    ensures
        ({
            let report = message_error_text(e);
            let status = match e.status_code {
                Some(code) => seq![' ', '('] + text::decimal(code as nat) + seq![')'],
                None => Seq::empty(),
            };
            &&& text::occurs_at(report, e.name, 0)
            &&& text::occurs_at(report, status, e.name.len() as int)
            &&& e.message.len() > 0 ==> report == e.name + status + seq![':', ' '] + e.message
            &&& e.message.len() == 0 ==> report == e.name + status
        }),
{
    reveal_strlit(" (");
    reveal_strlit(")");
    reveal_strlit(": ");
    assert(" ("@ =~= seq![' ', '(']);
    assert(")"@ =~= seq![')']);
    assert(": "@ =~= seq![':', ' ']);
    let report = message_error_text(e);
    let status = match e.status_code {
        Some(code) => seq![' ', '('] + text::decimal(code as nat) + seq![')'],
        None => Seq::empty(),
    };
    if e.message.len() > 0 {
        assert(report =~= e.name + status + seq![':', ' '] + e.message);
    } else {
        assert(report =~= e.name + status);
    }
    assert(report.subrange(0, e.name.len() as int) =~= e.name);
    assert(report.subrange(e.name.len() as int, (e.name.len() + status.len()) as int) =~= status);
}

/// Which event a tag announces, and that no other tag announces any.
pub proof fn law_tags_announce_their_events(tag: Seq<char>)
    ensures
        kind_tagged(tag) == EventKind::PartDelta <==> tag == "message.part.delta"@,
        kind_tagged(tag) == EventKind::PartUpdated <==> tag == "message.part.updated"@,
        kind_tagged(tag) == EventKind::SessionIdle <==> tag == "session.idle"@,
        kind_tagged(tag) == EventKind::SessionError <==> tag == "session.error"@,
        kind_tagged(tag) == EventKind::PermissionAsked <==> tag == "permission.asked"@,
{
    reveal_strlit("message.part.delta");
    reveal_strlit("message.part.updated");
    reveal_strlit("session.idle");
    reveal_strlit("session.error");
    reveal_strlit("permission.asked");
    assert("message.part.delta"@.len() == 18);
    assert("message.part.updated"@.len() == 20);
    assert("session.idle"@.len() == 12);
    assert("session.error"@.len() == 13);
    assert("permission.asked"@.len() == 16);
}

/// A payload that fits its tag arrives unchanged; one that does not is an event
/// that is ignored.
pub proof fn law_a_fitting_payload_arrives_unchanged(
    tag: Seq<char>,
    delta: PartDelta,
    updated: PartUpdated,
    idle: SessionRef,
    failed: SessionErrorEvent,
    raw: String,
)
    ensures
        event_of(tag, Payload::PartDelta(delta)) == if tag == "message.part.delta"@ {
            ServerEvent::PartDelta(delta)
        } else {
            ServerEvent::Other
        },
        event_of(tag, Payload::PartUpdated(updated)) == if tag == "message.part.updated"@ {
            ServerEvent::PartUpdated(updated)
        } else {
            ServerEvent::Other
        },
        event_of(tag, Payload::SessionRef(idle)) == if tag == "session.idle"@ {
            ServerEvent::SessionIdle(idle)
        } else {
            ServerEvent::Other
        },
        event_of(tag, Payload::SessionError(failed)) == if tag == "session.error"@ {
            ServerEvent::SessionError(failed)
        } else {
            ServerEvent::Other
        },
        event_of(tag, Payload::Raw(raw)) == if tag == "permission.asked"@ {
            ServerEvent::PermissionAsked(raw)
        } else {
            ServerEvent::Other
        },
        event_of(tag, Payload::Unusable) == ServerEvent::Other,
{
    law_tags_announce_their_events(tag);
}

/// Every model of every provider is listed under its provider, in the order the
/// server gives them.
pub proof fn law_models_are_listed_in_order(a: Seq<Provider>, b: Seq<Provider>, p: Provider, i: int)
    ensures
        all_models(Seq::empty()).len() == 0,
        all_models(seq![p]).len() == p.models@.len(),
        0 <= i < p.models@.len() ==> all_models(seq![p])[i].provider_id == p.id@ && all_models(
            seq![p],
        )[i].model_id == p.models@[i]@,
        all_models(a + b) == all_models(a) + all_models(b),
    decreases b.len(),
{
    assert(seq![p].drop_last() =~= Seq::<Provider>::empty());
    assert(seq![p].last() == p);
    assert(all_models(Seq::empty()) =~= Seq::<ModelView>::empty());
    assert(all_models(seq![p]) =~= models_of(p));
    if b.len() == 0 {
        assert(a + b =~= a);
        assert(all_models(a) + all_models(b) =~= all_models(a));
    } else {
        law_models_are_listed_in_order(a, b.drop_last(), p, i);
        assert((a + b).drop_last() =~= a + b.drop_last());
        assert((a + b).last() == b.last());
        assert(all_models(a + b) =~= all_models(a) + all_models(b));
    }
}

/// What is said of calls, models, and failures is what they hold, in order.
pub proof fn law_calls_and_models_are_seen_as_they_are(
    calls: Seq<ToolCall>,
    models: Seq<ModelRef>,
    failure: MessageError,
    one: Option<ModelRef>,
    i: int,
)
    ensures
        tool_views(calls).len() == calls.len(),
        0 <= i < calls.len() ==> tool_views(calls)[i].tool == calls[i].tool@ && tool_views(
            calls,
        )[i].status == calls[i].status@ && tool_views(calls)[i].detail == calls[i].detail@,
        model_views(models).len() == models.len(),
        0 <= i < models.len() ==> model_views(models)[i].provider_id == models[i].provider_id@
            && model_views(models)[i].model_id == models[i].model_id@,
        failure@.name == failure.name@,
        failure@.message == failure.data.message@,
        failure@.status_code == failure.data.status_code,
        failure@.is_retryable == failure.data.is_retryable,
        opt_model(one) is None <==> one is None,
        one matches Some(m) ==> opt_model(one) == Some(m@),
{
}


/// A text that names no model is reported with the text itself at the end.
pub proof fn law_a_complaint_quotes_the_text(s: Seq<char>)
    ensures
        ({
            let report = model_complaint(s);
            let n = report.len() - s.len();
            &&& report.take(n) == "expected a model in provider/model form, got "@
            &&& report.skip(n) == s
        }),
{
    let report = model_complaint(s);
    let n = report.len() - s.len();
    assert(report.take(n) =~= "expected a model in provider/model form, got "@);
    assert(report.skip(n) =~= s);
}

} // verus!
