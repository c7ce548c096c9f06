//! Application configuration and filesystem locations.

use vstd::prelude::*;

use crate::error::{CoinError, ErrorView};
use crate::opencode::types::{self, ModelRef};
use crate::text;

verus! {

/// Name of the configuration file looked for in the working directory.
pub const CONFIG_FILE: &'static str = "config.toml";

/// How long to wait for opencode to print its listening address, in seconds.
pub const PORT_DISCOVERY_TIMEOUT: u64 = 30;

/// How long to wait for `GET /api/health` to report healthy, in seconds.
pub const HEALTH_TIMEOUT: u64 = 30;

/// Interval between health poll attempts during startup, in milliseconds.
pub const HEALTH_POLL_INTERVAL: u64 = 150;

/// Attempts made at a single turn before the debate gives up on it.
pub const TURN_ATTEMPTS: usize = 3;

/// Delay before the first retry of a turn, in seconds. It doubles with each
/// attempt.
///
/// A turn routinely takes minutes, so a few seconds of backoff costs nothing
/// against the chance that a transient provider fault clears.
pub const TURN_RETRY_BACKOFF: u64 = 5;

/// Nanoseconds in a second.
pub const NANOS_PER_SECOND: u32 = 1_000_000_000;

/// A span of time to wait for, with nanosecond precision.
#[derive(Debug, Clone, Copy, PartialEq, Eq, Structural)]
pub struct Delay {
    secs: u64,
    nanos: u32,
}

/// The longest span a [`Delay`] can hold, in nanoseconds.
pub open spec fn longest_delay() -> int {
    u64::MAX * NANOS_PER_SECOND + (NANOS_PER_SECOND - 1)
}

impl View for Delay {
    type V = int;

    /// The span in nanoseconds.
    closed spec fn view(&self) -> int {
        self.secs * NANOS_PER_SECOND + self.nanos
    }
}

impl Delay {
    /// Less than a second is left over beside the whole seconds.
    #[verifier::type_invariant]
    spec fn normalized(self) -> bool {
        self.nanos < NANOS_PER_SECOND
    }

    /// No wait at all.
    pub fn zero() -> (r: Delay)
        ensures
            r@ == 0,
    {
        Delay { secs: 0, nanos: 0 }
    }

    /// A whole number of seconds.
    pub fn from_secs(secs: u64) -> (r: Delay)
        ensures
            r@ == secs * NANOS_PER_SECOND,
    {
        Delay { secs, nanos: 0 }
    }

    /// A whole number of milliseconds.
    pub fn from_millis(millis: u64) -> (r: Delay)
        ensures
            r@ == millis * 1_000_000,
    {
        Delay { secs: millis / 1000, nanos: ((millis % 1000) as u32) * 1_000_000 }
    }

    /// The whole seconds of the span.
    pub fn as_secs(self) -> (r: u64)
        ensures
            r == self@ / (NANOS_PER_SECOND as int),
    {
        proof {
            use_type_invariant(&self);
        }
        self.secs
    }

    /// What the span holds beyond its whole seconds, in nanoseconds.
    pub fn subsec_nanos(self) -> (r: u32)
        ensures
            r == self@ % (NANOS_PER_SECOND as int),
    {
        proof {
            use_type_invariant(&self);
        }
        self.nanos
    }

    /// Twice the span, or the longest one where that would not fit.
    pub fn doubled(self) -> (r: Delay)
        ensures
            r@ == if 2 * self@ <= longest_delay() {
                2 * self@
            } else {
                longest_delay()
            },
    {
        proof {
            use_type_invariant(&self);
        }
        let twice: u32 = self.nanos * 2;
        let carry: u64 = if twice >= NANOS_PER_SECOND {
            1
        } else {
            0
        };
        let nanos: u32 = twice % NANOS_PER_SECOND;
        if self.secs <= (u64::MAX - carry) / 2 {
            Delay { secs: self.secs * 2 + carry, nanos }
        } else {
            Delay { secs: u64::MAX, nanos: NANOS_PER_SECOND - 1 }
        }
    }
}

/// How a turn that comes back empty is retried.
///
/// A turn can fail without the request failing. opencode answers the prompt
/// route with 200 and records the provider's rejection on the assistant
/// message, so an exhausted quota or an overloaded provider arrives as a turn
/// with no text rather than as an HTTP error. Retrying covers the transient
/// half of that; the permanent half is reported rather than retried, since
/// waiting to be refused again wastes minutes.
#[derive(Debug, Clone, Copy, PartialEq, Eq, Structural)]
pub struct RetryPolicy {
    /// Total attempts per turn, including the first. Values below one are
    /// treated as one.
    pub attempts: usize,
    /// Delay before the first retry, doubling with each further attempt.
    pub backoff: Delay,
}

impl Default for RetryPolicy {
    fn default() -> (r: RetryPolicy)
        ensures
            r.attempts == TURN_ATTEMPTS,
            r.backoff@ == TURN_RETRY_BACKOFF * NANOS_PER_SECOND,
    {
        RetryPolicy {
            attempts: TURN_ATTEMPTS,
            backoff: Delay::from_secs(TURN_RETRY_BACKOFF),
        }
    }
}

/// Settings read from a `config.toml`.
///
/// The file exists so that choosing a model is not a recompile. Everything in
/// it is optional and overridden by the command line; an absent file is the
/// same as an empty one.
///
/// ```toml
/// [debate]
/// model = "openrouter/z-ai/glm-5.3-flash"
/// model_b = "openrouter/openai/gpt-oss-120b"
/// ```
#[derive(Debug, Clone)]
pub struct Settings {
    /// Defaults for `coin debate`.
    pub debate: DebateSettings,
}

/// Debate defaults from the configuration file.
#[derive(Debug, Clone)]
pub struct DebateSettings {
    /// Model both sides argue with, in `provider/model` form.
    pub model: Option<ModelRef>,
    /// Model for side B, when the two sides should differ.
    pub model_b: Option<ModelRef>,
}

impl Default for DebateSettings {
    fn default() -> (r: DebateSettings)
        ensures
            r.model is None,
            r.model_b is None,
    {
        DebateSettings { model: None, model_b: None }
    }
}

impl Default for Settings {
    /// What an empty file says.
    fn default() -> (r: Settings)
        ensures
            r == (Settings { debate: DebateSettings { model: None, model_b: None } }),
    {
        Settings { debate: DebateSettings::default() }
    }
}

/// Read a model out of a configuration file, where it is written as text.
///
/// A person writing a configuration file should be able to put
/// `model = "openrouter/z-ai/glm-5.3-flash"` rather than a table. A value that
/// is not in `provider/model` form fails the load, which beats discovering it
/// at the first prompt.
pub fn model_setting(value: Option<String>) -> (r: Result<Option<ModelRef>, String>)
    ensures
        match value {
            None => r == Ok::<Option<ModelRef>, String>(None),
            Some(t) => match r {
                Ok(m) => types::is_model_form(t@) && types::opt_model(m) == Some(
                    types::model_named(t@),
                ),
                Err(complaint) => !types::is_model_form(t@) && complaint@
                    == types::model_complaint(t@),
            },
        },
{
    match value {
        None => Ok(None),
        Some(t) => match ModelRef::parse(t.as_str()) {
            Ok(m) => Ok(Some(m)),
            Err(complaint) => Err(complaint),
        },
    }
}

/// What came of reading the configuration file.
#[derive(Debug, Clone)]
pub enum ReadOutcome {
    /// The file was read and understood.
    Parsed(Settings),
    /// The file was read and could not be understood.
    Unparseable(String),
    /// There is no such file; the operating system's words.
    NotFound(String),
    /// The file could not be read; the operating system's words.
    Unreadable(String),
}

impl Settings {
    /// Settle the settings for this run.
    ///
    /// A file the operator named explicitly is never silently skipped; a
    /// conventional one that does not exist is. `path` is where the file was
    /// looked for, and `outcome` what came of reading it.
    pub fn load<P>(explicit: &Option<P>, path: &str, outcome: ReadOutcome) -> (r: Result<
        Settings,
        CoinError,
    >)
        ensures
            match outcome {
                ReadOutcome::Parsed(s) => r == Ok::<Settings, CoinError>(s),
                ReadOutcome::Unparseable(reason) => r is Err && r->Err_0@ == ErrorView::Invalid(
                    "could not read "@ + path@ + ": "@ + reason@,
                ),
                ReadOutcome::NotFound(reason) => if explicit is Some {
                    r is Err && r->Err_0@ == (ErrorView::Io { path: path@, source: reason@ })
                } else {
                    r == Ok::<Settings, CoinError>(
                        Settings { debate: DebateSettings { model: None, model_b: None } },
                    )
                },
                ReadOutcome::Unreadable(reason) => r is Err && r->Err_0@ == (ErrorView::Io {
                    path: path@,
                    source: reason@,
                }),
            },
    {
        match outcome {
            ReadOutcome::Parsed(settings) => Ok(settings),
            ReadOutcome::Unparseable(reason) => {
                let mut message = "could not read ".to_owned();
                message.append(path);
                message.append(": ");
                message.append(reason.as_str());
                Err(CoinError::Invalid(message))
            },
            ReadOutcome::NotFound(reason) => {
                if explicit.is_some() {
                    Err(CoinError::io(path, reason.as_str()))
                } else {
                    Ok(Settings::default())
                }
            },
            ReadOutcome::Unreadable(reason) => Err(CoinError::io(path, reason.as_str())),
        }
    }
}

/// Runtime configuration for the opencode child process.
#[derive(Debug, Clone)]
pub struct OpencodeConfig<P> {
    /// Executable to launch. Defaults to `opencode` resolved via `PATH`.
    pub executable: String,
    /// Enable the Exa-backed `websearch` tool, which opencode leaves off by
    /// default.
    pub enable_websearch: bool,
    /// Working directory the server treats as the project root.
    pub directory: P,
}

impl<P> OpencodeConfig<P> {
    /// Build a configuration rooted at the given project directory, launching
    /// `opencode` from `PATH` with web search on.
    pub fn new(directory: P) -> (r: OpencodeConfig<P>)
        ensures
            r.executable@ == "opencode"@,
            r.enable_websearch,
            r.directory == directory,
    {
        OpencodeConfig { executable: "opencode".to_owned(), enable_websearch: true, directory }
    }
}

/// A place below a directory: the directory, and the names to go down by.
#[derive(Debug, Clone)]
pub struct Located<P> {
    /// Directory to start from.
    pub base: P,
    /// Names of what lies below it, outermost first.
    pub segments: Vec<String>,
}

/// A path, which the platform alone can look into.
#[verifier::external_type_specification]
#[verifier::external_body]
pub struct ExPathBuf(std::path::PathBuf);

/// Calls `dirs::data_dir`. Trusted for nothing: which directory it names, and
/// whether it names one, is up to the environment of the process.
#[verifier::external_body]
fn platform_data_dir() -> (r: Option<std::path::PathBuf>) {
    dirs::data_dir()
}

/// Where coin keeps its data, given the platform's data directory.
pub fn data_dir_in<P>(base: Option<P>) -> (r: Result<Located<P>, CoinError>)
    ensures
        match base {
            Some(b) => r is Ok && r->Ok_0.base == b && text::texts(r->Ok_0.segments@)
                == seq!["coin"@],
            None => r is Err && r->Err_0@ == ErrorView::MissingDirectory("data"@),
        },
{
    match base {
        Some(base) => {
            let mut segments: Vec<String> = Vec::new();
            segments.push("coin".to_owned());
            assert(text::texts(segments@) =~= seq!["coin"@]);
            Ok(Located { base, segments })
        },
        None => Err(CoinError::MissingDirectory("data".to_owned())),
    }
}

/// Where the workspace of a debate lies, given the platform's data directory.
pub fn debate_dir_in<P>(base: Option<P>, debate_id: &str) -> (r: Result<Located<P>, CoinError>)
    ensures
        match base {
            Some(b) => r is Ok && r->Ok_0.base == b && text::texts(r->Ok_0.segments@)
                == seq!["coin"@, "debates"@, debate_id@],
            None => r is Err && r->Err_0@ == ErrorView::MissingDirectory("data"@),
        },
{
    match data_dir_in(base) {
        Ok(located) => {
            let mut segments = located.segments;
            let ghost before = segments@;
            segments.push("debates".to_owned());
            segments.push(debate_id.to_owned());
            assert(text::texts(before).len() == before.len());
            assert(before[0]@ == text::texts(before)[0]);
            assert(text::texts(segments@) =~= seq!["coin"@, "debates"@, debate_id@]);
            Ok(Located { base: located.base, segments })
        },
        Err(error) => Err(error),
    }
}

/// Resolve the data directory used for debate workspaces and transcripts.
///
/// It lies below `$XDG_DATA_HOME` on platforms that define it, and below the
/// platform data directory otherwise.
pub fn data_dir() -> (r: Result<Located<std::path::PathBuf>, CoinError>)
    ensures
        r matches Ok(located) ==> text::texts(located.segments@) == seq!["coin"@],
        r matches Err(e) ==> e@ == ErrorView::MissingDirectory("data"@),
{
    data_dir_in(platform_data_dir())
}

/// Directory holding the per-debate workspace for the given debate id, which
/// may not exist yet.
pub fn debate_dir(debate_id: &str) -> (r: Result<Located<std::path::PathBuf>, CoinError>)
    ensures
        r matches Ok(located) ==> text::texts(located.segments@) == seq![
            "coin"@,
            "debates"@,
            debate_id@,
        ],
        r matches Err(e) ==> e@ == ErrorView::MissingDirectory("data"@),
{
    debate_dir_in(platform_data_dir(), debate_id)
}

/// The k-th delay of a backoff that starts at `first`: it doubles each time,
/// until it has reached the longest delay there is.
pub open spec fn nth_delay(first: int, k: nat) -> int
    decreases k,
{
    if k == 0 {
        first
    } else {
        let before = nth_delay(first, (k - 1) as nat);
        if 2 * before <= longest_delay() {
            2 * before
        } else {
            longest_delay()
        }
    }
}

/// A backoff never shrinks: each delay is at least the one before it, and none
/// is longer than the longest there is.
pub proof fn law_backoff_never_shrinks(first: int, k: nat)
    requires
        0 <= first <= longest_delay(),
    ensures
        0 <= nth_delay(first, k) <= nth_delay(first, k + 1) <= longest_delay(),
    decreases k,
{
    if k > 0 {
        law_backoff_never_shrinks(first, (k - 1) as nat);
    }
}

/// As long as it fits, the k-th delay is the first one doubled k times.
pub proof fn law_backoff_doubles(first: int, k: nat)
    requires
        0 <= first,
        first * vstd::arithmetic::power2::pow2(k) <= longest_delay(),
    ensures
        nth_delay(first, k) == first * vstd::arithmetic::power2::pow2(k),
    decreases k,
{
    vstd::arithmetic::power2::lemma2_to64();
    if k > 0 {
        let half = vstd::arithmetic::power2::pow2((k - 1) as nat);
        vstd::arithmetic::power2::lemma_pow2_unfold(k);
        let whole = vstd::arithmetic::power2::pow2(k);
        assert(first * whole == 2 * (first * half)) by (nonlinear_arith)
            requires
                whole == 2 * half,
        ;
        assert(first * half <= first * whole) by (nonlinear_arith)
            requires
                whole == 2 * half,
                0 <= first,
                0 <= half,
        ;
        law_backoff_doubles(first, (k - 1) as nat);
    } else {
        assert(first * 1 == first) by (nonlinear_arith);
    }
}


/// A backoff doubles until it cannot, and from then on stays at the longest
/// delay there is, which is what the two counters of a delay hold when full.
pub proof fn law_backoff_stops_at_the_longest_delay(first: int, k: nat)
    requires
        0 <= first <= longest_delay(),
        first * vstd::arithmetic::power2::pow2(k) > longest_delay(),
    ensures
        nth_delay(first, k) == longest_delay(),
        longest_delay() == 18_446_744_073_709_551_615 * 1_000_000_000 + 999_999_999,
    decreases k,
{
    vstd::arithmetic::power2::lemma2_to64();
    if k == 0 {
        assert(first * 1 == first) by (nonlinear_arith);
    } else {
        let half = vstd::arithmetic::power2::pow2((k - 1) as nat);
        vstd::arithmetic::power2::lemma_pow2_unfold(k);
        let whole = vstd::arithmetic::power2::pow2(k);
        assert(first * whole == 2 * (first * half)) by (nonlinear_arith)
            requires
                whole == 2 * half,
        ;
        if first * half > longest_delay() {
            law_backoff_stops_at_the_longest_delay(first, (k - 1) as nat);
        } else {
            law_backoff_doubles(first, (k - 1) as nat);
        }
    }
}

/// How long startup and retries may take, in the units that are promised.
pub proof fn law_the_times_that_are_promised()
    ensures
        PORT_DISCOVERY_TIMEOUT == 30,
        HEALTH_TIMEOUT == 30,
        HEALTH_POLL_INTERVAL == 150,
        TURN_ATTEMPTS == 3,
        TURN_RETRY_BACKOFF == 5,
        NANOS_PER_SECOND == 1_000_000_000,
{
}

} // verus!
