//! The error type shared across the application.
//!
//! Variants carry enough context to be actionable without the caller needing
//! to inspect a source chain. What a transport, a parser or the operating
//! system reported is carried as its text.

use vstd::prelude::*;

use crate::text;

verus! {

/// An HTTP status worth another attempt: a timeout, a throttled request, or
/// the server's own failure.
pub open spec fn transient_status(status: u16) -> bool {
    status == 408 || status == 429 || 500 <= status <= 599
}

/// Whether an HTTP status is worth another attempt.
pub fn is_transient_status(status: u16) -> (r: bool)
    ensures
        r == transient_status(status),
{
    status == 408 || status == 429 || (500 <= status && status <= 599)
}

/// A request that failed before any response arrived, or while it was read.
#[derive(Debug, Clone, PartialEq, Eq)]
pub struct TransportFault {
    /// The request timed out.
    pub timeout: bool,
    /// No connection could be made.
    pub connect: bool,
    /// The request could not be sent.
    pub request: bool,
    /// What the transport reported.
    pub message: String,
}

/// Errors produced by coin.
#[derive(Debug, Clone, PartialEq, Eq)]
pub enum CoinError {
    /// The `opencode` executable could not be found or failed to launch.
    OpencodeLaunch(String),
    /// The opencode server exited before it became usable.
    OpencodeExited {
        /// Exit status reported by the child process.
        status: String,
    },
    /// The server did not print a listening address within the timeout.
    PortDiscoveryTimeout {
        /// How long the caller waited.
        seconds: u64,
    },
    /// The server printed a port but never became healthy.
    HealthTimeout {
        /// Base URL that was polled.
        url: String,
        /// How long the caller waited.
        seconds: u64,
    },
    /// An HTTP request to the opencode server failed at the transport level.
    Http(TransportFault),
    /// The opencode server returned a non-success status.
    OpencodeStatus {
        /// HTTP method of the failing request.
        method: String,
        /// Path of the failing request.
        path: String,
        /// Status code returned.
        status: u16,
        /// Response body, truncated for readability.
        body: String,
    },
    /// A response body could not be read as the expected shape.
    Decode {
        /// What was being decoded, for example `"session.create"`.
        context: String,
        /// What the parser reported.
        source: String,
    },
    /// The event stream ended or failed before the operation completed.
    EventStream(String),
    /// A model reported an error while producing a turn.
    Session {
        /// Session that failed.
        session_id: String,
        /// Message reported by opencode.
        message: String,
    },
    /// A filesystem operation failed.
    Io {
        /// Path involved in the failure.
        path: String,
        /// What the operating system reported.
        source: String,
    },
    /// A command line argument or configuration value was not usable.
    ///
    /// Carries a complete, user-facing sentence.
    Invalid(String),
    /// A required directory could not be determined from the environment.
    MissingDirectory(String),
}

/// What a [`CoinError`] says.
#[verifier::ext_equal]
pub enum ErrorView {
    OpencodeLaunch(Seq<char>),
    OpencodeExited { status: Seq<char> },
    PortDiscoveryTimeout { seconds: u64 },
    HealthTimeout { url: Seq<char>, seconds: u64 },
    Http { timeout: bool, connect: bool, request: bool, message: Seq<char> },
    OpencodeStatus { method: Seq<char>, path: Seq<char>, status: u16, body: Seq<char> },
    Decode { context: Seq<char>, source: Seq<char> },
    EventStream(Seq<char>),
    Session { session_id: Seq<char>, message: Seq<char> },
    Io { path: Seq<char>, source: Seq<char> },
    Invalid(Seq<char>),
    MissingDirectory(Seq<char>),
}

impl View for CoinError {
    type V = ErrorView;

    open spec fn view(&self) -> ErrorView {
        match *self {
            CoinError::OpencodeLaunch(m) => ErrorView::OpencodeLaunch(m@),
            CoinError::OpencodeExited { status } => ErrorView::OpencodeExited { status: status@ },
            CoinError::PortDiscoveryTimeout { seconds } => ErrorView::PortDiscoveryTimeout {
                seconds,
            },
            CoinError::HealthTimeout { url, seconds } => ErrorView::HealthTimeout {
                url: url@,
                seconds,
            },
            CoinError::Http(f) => ErrorView::Http {
                timeout: f.timeout,
                connect: f.connect,
                request: f.request,
                message: f.message@,
            },
            CoinError::OpencodeStatus { method, path, status, body } => ErrorView::OpencodeStatus {
                method: method@,
                path: path@,
                status,
                body: body@,
            },
            CoinError::Decode { context, source } => ErrorView::Decode {
                context: context@,
                source: source@,
            },
            CoinError::EventStream(m) => ErrorView::EventStream(m@),
            CoinError::Session { session_id, message } => ErrorView::Session {
                session_id: session_id@,
                message: message@,
            },
            CoinError::Io { path, source } => ErrorView::Io { path: path@, source: source@ },
            CoinError::Invalid(m) => ErrorView::Invalid(m@),
            CoinError::MissingDirectory(m) => ErrorView::MissingDirectory(m@),
        }
    }
}

/// Whether retrying the failed operation could plausibly succeed: transport
/// failures and the server's own overload responses are worth another attempt,
/// everything else fails identically however many times it is asked.
pub open spec fn worth_retrying(e: ErrorView) -> bool {
    match e {
        ErrorView::Http { timeout, connect, request, .. } => timeout || connect || request,
        ErrorView::OpencodeStatus { status, .. } => transient_status(status),
        _ => false,
    }
}

/// The sentence an error is reported with.
pub open spec fn error_text(e: ErrorView) -> Seq<char> {
    match e {
        ErrorView::OpencodeLaunch(m) => "failed to launch opencode: "@ + m
            + ". Is opencode installed and on PATH?"@,
        ErrorView::OpencodeExited { status } => "opencode server exited during startup with status "@
            + status,
        ErrorView::PortDiscoveryTimeout { seconds } => "timed out after "@ + text::decimal(
            seconds as nat,
        ) + "s waiting for opencode to report its port"@,
        ErrorView::HealthTimeout { url, seconds } => "timed out after "@ + text::decimal(
            seconds as nat,
        ) + "s waiting for opencode to become healthy at "@ + url,
        ErrorView::Http { message, .. } => "opencode request failed: "@ + message,
        ErrorView::OpencodeStatus { method, path, status, body } => "opencode returned "@
            + text::decimal(status as nat) + " for "@ + method + " "@ + path + ": "@ + body,
        ErrorView::Decode { context, source } => "could not decode opencode response for "@
            + context + ": "@ + source,
        ErrorView::EventStream(m) => "opencode event stream failed: "@ + m,
        ErrorView::Session { session_id, message } => "session "@ + session_id
            + " reported an error: "@ + message,
        ErrorView::Io { path, source } => "filesystem error at "@ + path + ": "@ + source,
        ErrorView::Invalid(m) => m,
        ErrorView::MissingDirectory(m) => "could not determine the "@ + m
            + " directory for this platform"@,
    }
}

/// `first` with `rest` appended.
fn prefixed(first: &str, rest: &str) -> (r: String)
    ensures
        r@ == first@ + rest@,
{
    let mut s = first.to_owned();
    s.append(rest);
    s
}

impl CoinError {
    /// Build a [`CoinError::Io`] from a path and what was reported of it.
    pub fn io(path: &str, source: &str) -> (r: CoinError)
        ensures
            r@ == (ErrorView::Io { path: path@, source: source@ }),
    {
        CoinError::Io { path: path.to_owned(), source: source.to_owned() }
    }

    /// Build a [`CoinError::Decode`] from a context label and what the parser
    /// reported.
    pub fn decode(context: &str, source: &str) -> (r: CoinError)
        ensures
            r@ == (ErrorView::Decode { context: context@, source: source@ }),
    {
        CoinError::Decode { context: context.to_owned(), source: source.to_owned() }
    }

    /// Whether retrying the failed operation could plausibly succeed.
    pub fn is_retryable(&self) -> (r: bool)
        ensures
            r == worth_retrying(self@),
    {
        match self {
            CoinError::Http(fault) => fault.timeout || fault.connect || fault.request,
            CoinError::OpencodeStatus { status, .. } => is_transient_status(*status),
            _ => false,
        }
    }

    /// The sentence the error is reported with.
    pub fn to_string(&self) -> (r: String)
        ensures
            r@ == error_text(self@),
    {
        match self {
            CoinError::OpencodeLaunch(m) => {
                let mut s = prefixed("failed to launch opencode: ", m.as_str());
                s.append(". Is opencode installed and on PATH?");
                s
            },
            CoinError::OpencodeExited { status } => prefixed(
                "opencode server exited during startup with status ",
                status.as_str(),
            ),
            CoinError::PortDiscoveryTimeout { seconds } => {
                let mut s = prefixed("timed out after ", text::number(*seconds).as_str());
                s.append("s waiting for opencode to report its port");
                s
            },
            CoinError::HealthTimeout { url, seconds } => {
                let mut s = prefixed("timed out after ", text::number(*seconds).as_str());
                s.append("s waiting for opencode to become healthy at ");
                s.append(url.as_str());
                s
            },
            CoinError::Http(fault) => prefixed("opencode request failed: ", fault.message.as_str()),
            CoinError::OpencodeStatus { method, path, status, body } => {
                let mut s = prefixed("opencode returned ", text::number(*status as u64).as_str());
                s.append(" for ");
                s.append(method.as_str());
                s.append(" ");
                s.append(path.as_str());
                s.append(": ");
                s.append(body.as_str());
                s
            },
            CoinError::Decode { context, source } => {
                let mut s = prefixed("could not decode opencode response for ", context.as_str());
                s.append(": ");
                s.append(source.as_str());
                s
            },
            CoinError::EventStream(m) => prefixed("opencode event stream failed: ", m.as_str()),
            CoinError::Session { session_id, message } => {
                let mut s = prefixed("session ", session_id.as_str());
                s.append(" reported an error: ");
                s.append(message.as_str());
                s
            },
            CoinError::Io { path, source } => {
                let mut s = prefixed("filesystem error at ", path.as_str());
                s.append(": ");
                s.append(source.as_str());
                s
            },
            CoinError::Invalid(m) => m.clone(),
            CoinError::MissingDirectory(m) => {
                let mut s = prefixed("could not determine the ", m.as_str());
                s.append(" directory for this platform");
                s
            },
        }
    }
}


/// Which statuses are worth another attempt: a timeout, throttling, and whatever
/// the server itself failed at.
pub proof fn law_which_statuses_are_transient(status: u16)
    ensures
        transient_status(status) <==> status == 408 || status == 429 || status / 100 == 5,
{
}

/// Which failures are worth another attempt: a request that timed out, could not
/// connect or could not be sent, and an answer whose status says so. Nothing
/// else is.
pub proof fn law_which_failures_are_worth_retrying(e: ErrorView)
    ensures
        e matches ErrorView::Http { timeout, connect, request, .. } ==> (worth_retrying(e)
            <==> timeout || connect || request),
        e matches ErrorView::OpencodeStatus { status, .. } ==> (worth_retrying(e) <==> status == 408
            || status == 429 || status / 100 == 5),
        !(e is Http) && !(e is OpencodeStatus) ==> !worth_retrying(e),
{
}

/// An error is reported with everything it carries, in its own sentence.
pub proof fn law_a_report_names_what_the_error_carries(
    m: Seq<char>,
    n: Seq<char>,
    p: Seq<char>,
    seconds: u64,
    status: u16,
    flags: (bool, bool, bool),
)
    ensures
        error_text(ErrorView::OpencodeLaunch(m)) == "failed to launch opencode: "@ + m
            + ". Is opencode installed and on PATH?"@,
        error_text(ErrorView::OpencodeExited { status: m })
            == "opencode server exited during startup with status "@ + m,
        error_text(ErrorView::PortDiscoveryTimeout { seconds }) == "timed out after "@
            + text::decimal(seconds as nat) + "s waiting for opencode to report its port"@,
        error_text(ErrorView::HealthTimeout { url: m, seconds }) == "timed out after "@
            + text::decimal(seconds as nat) + "s waiting for opencode to become healthy at "@ + m,
        error_text(
            ErrorView::Http { timeout: flags.0, connect: flags.1, request: flags.2, message: m },
        ) == "opencode request failed: "@ + m,
        error_text(ErrorView::OpencodeStatus { method: m, path: n, status, body: p })
            == "opencode returned "@ + text::decimal(status as nat) + " for "@ + m + " "@ + n + ": "@
            + p,
        error_text(ErrorView::Decode { context: m, source: n })
            == "could not decode opencode response for "@ + m + ": "@ + n,
        error_text(ErrorView::EventStream(m)) == "opencode event stream failed: "@ + m,
        error_text(ErrorView::Session { session_id: m, message: n }) == "session "@ + m
            + " reported an error: "@ + n,
        error_text(ErrorView::Io { path: m, source: n }) == "filesystem error at "@ + m + ": "@ + n,
        error_text(ErrorView::Invalid(m)) == m,
        error_text(ErrorView::MissingDirectory(m)) == "could not determine the "@ + m
            + " directory for this platform"@,
{
}


/// An error is seen as it is.
pub proof fn law_an_error_is_seen_as_it_is(e: CoinError)
    ensures
        match e {
            CoinError::OpencodeLaunch(m) => e@ == ErrorView::OpencodeLaunch(m@),
            CoinError::OpencodeExited { status } => e@ is OpencodeExited && e@->OpencodeExited_status
                == status@,
            CoinError::PortDiscoveryTimeout { seconds } => e@ == (ErrorView::PortDiscoveryTimeout {
                seconds,
            }),
            CoinError::HealthTimeout { url, seconds } => e@ is HealthTimeout && e@->url == url@
                && e@->HealthTimeout_seconds == seconds,
            CoinError::Http(fault) => e@ is Http && e@->timeout == fault.timeout && e@->connect
                == fault.connect && e@->request == fault.request && e@->Http_message
                == fault.message@,
            CoinError::OpencodeStatus { method, path, status, body } => e@ is OpencodeStatus
                && e@->method == method@ && e@->OpencodeStatus_path == path@
                && e@->OpencodeStatus_status == status && e@->body == body@,
            CoinError::Decode { context, source } => e@ is Decode && e@->context == context@
                && e@->Decode_source == source@,
            CoinError::EventStream(m) => e@ == ErrorView::EventStream(m@),
            CoinError::Session { session_id, message } => e@ is Session && e@->session_id
                == session_id@ && e@->Session_message == message@,
            CoinError::Io { path, source } => e@ is Io && e@->Io_path == path@ && e@->Io_source
                == source@,
            CoinError::Invalid(m) => e@ == ErrorView::Invalid(m@),
            CoinError::MissingDirectory(m) => e@ == ErrorView::MissingDirectory(m@),
        },
{
}

} // verus!
