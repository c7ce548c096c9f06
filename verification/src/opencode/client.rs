//! What coin asks of an opencode server, and what it makes of the answers.
//!
//! Sending a request is the caller's part: this module says where it goes,
//! what it carries, and whether the answer counts as one.

use vstd::prelude::*;

use crate::error::{CoinError, ErrorView};
use crate::opencode::types::{self, ModelRef, ModelView, PromptPart, PromptRequest};
use crate::text;

verus! {

/// Maximum number of body bytes retained when reporting an HTTP error.
pub const ERROR_BODY_LIMIT: usize = 512;

/// Route that creates a session.
pub const SESSION_ROUTE: &'static str = "/session";

/// Route that lists every configured provider and its models.
pub const PROVIDERS_ROUTE: &'static str = "/config/providers";

/// Route of the event bus.
pub const EVENT_ROUTE: &'static str = "/event";

/// Route that reports whether the server is ready.
pub const HEALTH_ROUTE: &'static str = "/api/health";

/// Options for a single prompt.
#[derive(Debug, Clone)]
pub struct PromptOptions {
    /// Agent to answer as, which selects the persona.
    pub agent: Option<String>,
    /// Model to answer with. Falls back to the server default.
    pub model: Option<ModelRef>,
}

/// What [`PromptOptions`] say.
#[verifier::ext_equal]
pub struct OptionsView {
    pub agent: Option<Seq<char>>,
    pub model: Option<ModelView>,
}

impl View for PromptOptions {
    type V = OptionsView;

    open spec fn view(&self) -> OptionsView {
        OptionsView { agent: text::opt_text(self.agent), model: types::opt_model(self.model) }
    }
}

impl Default for PromptOptions {
    /// The server's own choice of both.
    fn default() -> (r: PromptOptions)
        ensures
            r@ == (OptionsView { agent: None, model: None }),
    {
        PromptOptions { agent: None, model: None }
    }
}

impl PromptOptions {
    /// A second copy of the options.
    pub fn duplicate(&self) -> (r: PromptOptions)
        ensures
            r@ == self@,
    {
        PromptOptions {
            agent: self.agent.clone(),
            model: match &self.model {
                Some(model) => Some(model.duplicate()),
                None => None,
            },
        }
    }
}

/// The text without the separators at its end.
pub open spec fn without_trailing_slashes(s: Seq<char>) -> Seq<char>
    decreases s.len(),
{
    if s.len() > 0 && s.last() == '/' {
        without_trailing_slashes(s.drop_last())
    } else {
        s
    }
}

/// Where a running opencode server is reached, and as whom.
#[derive(Debug, Clone)]
pub struct HttpClient {
    base_url: String,
    username: String,
    password: String,
}

/// What an [`HttpClient`] says.
#[verifier::ext_equal]
pub struct ClientView {
    pub base_url: Seq<char>,
    pub username: Seq<char>,
    pub password: Seq<char>,
}

impl View for HttpClient {
    type V = ClientView;

    closed spec fn view(&self) -> ClientView {
        ClientView {
            base_url: self.base_url@,
            username: self.username@,
            password: self.password@,
        }
    }
}

impl HttpClient {
    /// Build a client for a running server.
    ///
    /// Paths are joined with a leading slash, so separators at the end of the
    /// base URL are dropped.
    pub fn new(base_url: &str, username: &str, password: &str) -> (r: HttpClient)
        ensures
            r@ == (ClientView {
                base_url: without_trailing_slashes(base_url@),
                username: username@,
                password: password@,
            }),
    {
        let chars = text::chars_of(base_url);
        let mut end: usize = chars.len();
        assert(base_url@.take(end as int) =~= base_url@);
        while end > 0 && chars[end - 1] == '/'
            invariant
                end <= chars.len(),
                chars@ == base_url@,
                without_trailing_slashes(base_url@) == without_trailing_slashes(
                    base_url@.take(end as int),
                ),
            decreases end,
        {
            assert(base_url@.take(end as int).drop_last() =~= base_url@.take(end - 1));
            end -= 1;
        }
        assert(base_url@.take(end as int) =~= base_url@.subrange(0, end as int));
        HttpClient {
            base_url: base_url.substring_char(0, end).to_owned(),
            username: username.to_owned(),
            password: password.to_owned(),
        }
    }

    /// Base URL this client targets.
    pub fn base_url(&self) -> (r: &str)
        ensures
            r@ == self@.base_url,
    {
        self.base_url.as_str()
    }

    /// Basic auth credentials, for callers that open their own connections.
    pub fn credentials(&self) -> (r: (&str, &str))
        ensures
            r.0@ == self@.username,
            r.1@ == self@.password,
    {
        (self.username.as_str(), self.password.as_str())
    }

    /// The full address of a route.
    pub fn url(&self, path: &str) -> (r: String)
        ensures
            r@ == self@.base_url + path@,
    {
        let mut s = self.base_url.clone();
        s.append(path);
        s
    }
}

/// A base URL that ends in no separator is left alone, and none ends in one
/// after the separators at its end were dropped.
pub proof fn law_base_urls_end_in_no_slash(s: Seq<char>)
    ensures
        ({
            let base = without_trailing_slashes(s);
            &&& base.len() == 0 || base.last() != '/'
            &&& base == s.take(base.len() as int)
            &&& base.len() <= s.len()
            &&& forall|i: int| base.len() <= i < s.len() ==> s[i] == '/'
        }),
    decreases s.len(),
{
    if s.len() > 0 && s.last() == '/' {
        law_base_urls_end_in_no_slash(s.drop_last());
        let base = without_trailing_slashes(s);
        assert(s.drop_last().take(base.len() as int) =~= s.take(base.len() as int));
        assert forall|i: int| base.len() <= i < s.len() implies s[i] == '/' by {
            if i < s.len() - 1 {
                assert(s.drop_last()[i] == s[i]);
            }
        }
    } else {
        assert(s.take(s.len() as int) =~= s);
    }
}

/// The route of a session's messages: posting to it sends a turn, and getting
/// it reads every message back.
pub fn message_route(session_id: &str) -> (r: String)
    ensures
        r@ == "/session/"@ + session_id@ + "/message"@,
{
    let mut s = "/session/".to_owned();
    s.append(session_id);
    s.append("/message");
    s
}

/// The route that cancels a session's turn.
pub fn abort_route(session_id: &str) -> (r: String)
    ensures
        r@ == "/session/"@ + session_id@ + "/abort"@,
{
    let mut s = "/session/".to_owned();
    s.append(session_id);
    s.append("/abort");
    s
}

/// What is sent to prompt a session: one text part, with the agent and the
/// model left out where none was chosen.
pub fn prompt_request(text: &str, options: &PromptOptions) -> (r: PromptRequest)
    ensures
        r.parts@.len() == 1,
        r.parts@[0].kind@ == "text"@,
        r.parts@[0].text@ == text@,
        text::opt_text(r.agent) == options@.agent,
        types::opt_model(r.model) == options@.model,
{
    let mut parts: Vec<PromptPart> = Vec::new();
    parts.push(PromptPart::text(text));
    let options = options.duplicate();
    PromptRequest { parts, agent: options.agent, model: options.model }
}

/// How many bytes a character takes up in UTF-8.
pub open spec fn char_width(c: char) -> int {
    if c <= '\u{7f}' {
        1
    } else if c <= '\u{7ff}' {
        2
    } else if c <= '\u{ffff}' {
        3
    } else {
        4
    }
}

/// How many bytes a text takes up in UTF-8.
pub open spec fn byte_width(s: Seq<char>) -> int
    decreases s.len(),
{
    if s.len() == 0 {
        0
    } else {
        byte_width(s.drop_last()) + char_width(s.last())
    }
}

/// The longest start of a text that takes up at most `limit` bytes.
pub open spec fn clipped(s: Seq<char>, limit: int) -> Seq<char>
    decreases s.len(),
{
    if s.len() == 0 || byte_width(s) <= limit {
        s
    } else {
        clipped(s.drop_last(), limit)
    }
}

/// How many bytes a character takes up in UTF-8.
fn width(c: char) -> (r: usize)
    ensures
        r == char_width(c),
{
    if c <= '\u{7f}' {
        1
    } else if c <= '\u{7ff}' {
        2
    } else if c <= '\u{ffff}' {
        3
    } else {
        4
    }
}

/// A longer start of a text takes up more bytes.
proof fn lemma_width_grows(s: Seq<char>, n: int)
    requires
        0 <= n <= s.len(),
    ensures
        0 <= byte_width(s.take(n)) <= byte_width(s),
        n < s.len() ==> byte_width(s.take(n)) < byte_width(s),
    decreases s.len(),
{
    if n == s.len() {
        assert(s.take(n) =~= s);
        if n > 0 {
            lemma_width_grows(s.drop_last(), n - 1);
        }
    } else {
        lemma_width_grows(s.drop_last(), n);
        assert(s.drop_last().take(n) =~= s.take(n));
    }
}

/// The longest start of a text within a limit is a start of every longer one.
proof fn lemma_clipped_is_the_longest_start(s: Seq<char>, n: int, limit: int)
    requires
        0 <= n < s.len(),
        0 <= byte_width(s.take(n)) <= limit < byte_width(s.take(n + 1)),
    ensures
        clipped(s, limit) == s.take(n),
    decreases s.len(),
{
    lemma_width_grows(s, n + 1);
    let less = s.drop_last();
    if n == less.len() {
        assert(less =~= s.take(n));
        assert(s.take(n + 1) =~= s);
        assert(clipped(less, limit) == less);
    } else {
        assert(less.take(n) =~= s.take(n));
        assert(less.take(n + 1) =~= s.take(n + 1));
        lemma_clipped_is_the_longest_start(less, n, limit);
    }
}

/// What is kept of a text that has to fit into `limit` bytes is a start of it,
/// it does fit, and no longer start would.
pub proof fn law_as_much_is_kept_as_fits(s: Seq<char>, limit: int)
    requires
        0 <= limit,
    ensures
        clipped(s, limit).is_prefix_of(s),
        byte_width(clipped(s, limit)) <= limit,
        forall|n: int|
            clipped(s, limit).len() < n <= s.len() ==> byte_width(#[trigger] s.take(n)) > limit,
    decreases s.len(),
{
    if s.len() > 0 && byte_width(s) > limit {
        let less = s.drop_last();
        law_as_much_is_kept_as_fits(less, limit);
        assert forall|n: int| clipped(s, limit).len() < n <= s.len() implies byte_width(
            #[trigger] s.take(n),
        ) > limit by {
            if n == s.len() {
                assert(s.take(n) =~= s);
            } else {
                assert(less.take(n) =~= s.take(n));
            }
        }
    }
}

/// How many characters of a text fit into `limit` bytes.
fn measure(chars: &Vec<char>, limit: usize) -> (r: usize)
    ensures
        r <= chars.len(),
        chars@.take(r as int) == clipped(chars@, limit as int),
{
    let mut count: usize = 0;
    let mut used: usize = 0;
    while count < chars.len()
        invariant
            count <= chars.len(),
            used == byte_width(chars@.take(count as int)),
            used <= limit,
        decreases chars.len() - count,
    {
        let ghost more = chars@.take(count + 1);
        assert(more.drop_last() =~= chars@.take(count as int));
        let next: usize = width(chars[count]);
        if next > limit - used {
            proof {
                lemma_clipped_is_the_longest_start(chars@, count as int, limit as int);
            }
            return count;
        }
        used += next;
        count += 1;
    }
    assert(chars@.take(count as int) =~= chars@);
    count
}

/// A status that reports success.
pub open spec fn success_status(status: u16) -> bool {
    200 <= status <= 299
}

/// Whether a status reports success.
pub fn is_success(status: u16) -> (r: bool)
    ensures
        r == success_status(status),
{
    200 <= status && status <= 299
}

/// Settle whether a response counts.
///
/// Its body is read as text before anything else, so that a non-success status
/// can report what the server actually said, cut short for readability, rather
/// than a decode error against an unexpected payload. The cut falls between two
/// characters.
pub fn check_response(method: &str, path: &str, status: u16, body: String) -> (r: Result<
    String,
    CoinError,
>)
    ensures
        match r {
            Ok(text) => success_status(status) && text == body,
            Err(e) => !success_status(status) && e@ == (ErrorView::OpencodeStatus {
                method: method@,
                path: path@,
                status,
                body: clipped(body@, ERROR_BODY_LIMIT as int),
            }),
        },
{
    if is_success(status) {
        return Ok(body);
    }
    let chars = text::chars_of(body.as_str());
    let count: usize = measure(&chars, ERROR_BODY_LIMIT);
    assert(body@.subrange(0, count as int) =~= body@.take(count as int));
    Err(
        CoinError::OpencodeStatus {
            method: method.to_owned(),
            path: path.to_owned(),
            status,
            body: body.as_str().substring_char(0, count).to_owned(),
        },
    )
}


/// The bytes that are counted are those of a text's UTF-8 encoding.
pub proof fn law_width_is_the_length_in_utf8(s: Seq<char>)
    ensures
        byte_width(s) == vstd::utf8::encode_utf8(s).len(),
    decreases s.len(),
{
    if s.len() > 0 {
        let less = s.drop_last();
        let last = seq![s.last()];
        law_width_is_the_length_in_utf8(less);
        lemma_encoding_in_two_parts(less, last);
        assert(less + last =~= s);
        assert(last.drop_first() =~= Seq::<char>::empty());
        assert(last[0] == s.last());
        assert(vstd::utf8::encode_utf8(last) == vstd::utf8::encode_scalar(s.last() as u32)
            + vstd::utf8::encode_utf8(last.drop_first()));
        assert(vstd::utf8::encode_utf8(last.drop_first()).len() == 0);
        lemma_width_of_one_character(s.last());
    }
}

/// The bytes that are counted for a character are those of its encoding.
proof fn lemma_width_of_one_character(c: char)
    ensures
        vstd::utf8::encode_scalar(c as u32).len() == char_width(c),
{
    vstd::utf8::char_is_scalar(c);
}

/// The encoding of two texts is that of the first followed by that of the second.
proof fn lemma_encoding_in_two_parts(a: Seq<char>, b: Seq<char>)
    ensures
        vstd::utf8::encode_utf8(a + b) == vstd::utf8::encode_utf8(a) + vstd::utf8::encode_utf8(b),
    decreases a.len(),
{
    if a.len() == 0 {
        assert(a + b =~= b);
        assert(vstd::utf8::encode_utf8(a) + vstd::utf8::encode_utf8(b)
            =~= vstd::utf8::encode_utf8(b));
    } else {
        lemma_encoding_in_two_parts(a.drop_first(), b);
        assert((a + b).drop_first() =~= a.drop_first() + b);
        assert(vstd::utf8::encode_utf8(a + b) =~= vstd::utf8::encode_utf8(a)
            + vstd::utf8::encode_utf8(b));
    }
}

/// Which statuses report success, and how much of an error is kept.
pub proof fn law_success_is_a_status_in_the_two_hundreds(status: u16)
    ensures
        success_status(status) <==> status / 100 == 2,
        ERROR_BODY_LIMIT == 512,
{
}

/// Options are seen as they are.
pub proof fn law_options_are_seen_as_they_are(options: PromptOptions)
    ensures
        options@.agent == text::opt_text(options.agent),
        options@.model is Some <==> options.model is Some,
        options.model matches Some(m) ==> options@.model == Some(m@),
{
}


/// Where the server is asked for what.
pub proof fn law_the_routes_of_the_server()
    ensures
        SESSION_ROUTE@ == "/session"@,
        PROVIDERS_ROUTE@ == "/config/providers"@,
        EVENT_ROUTE@ == "/event"@,
        HEALTH_ROUTE@ == "/api/health"@,
{
}

} // verus!
