//! Supervision of the `opencode serve` child process.
//!
//! Coin never handles a provider API key. It launches opencode, which already
//! holds credentials, and drives it over HTTP. This module decides how the
//! child is launched and what its startup amounts to.
//!
//! Two startup details are load-bearing:
//!
//! 1. The port must be read from stdout. The server is launched with `--port 0`
//!    so the OS assigns a free port, and it prints the address it bound.
//! 2. A health poll is **mandatory** before the first API request. Immediately
//!    after startup opencode briefly serves its web UI's HTML from API routes,
//!    so an early request returns a page instead of JSON.

use vstd::prelude::*;

use crate::config::{OpencodeConfig, HEALTH_TIMEOUT, PORT_DISCOVERY_TIMEOUT};
use crate::error::{CoinError, ErrorView};
use crate::opencode::client;
use crate::text;

verus! {

/// Number of letters in the generated server password.
pub const PASSWORD_LENGTH: usize = 24;

/// Username coin authenticates as. opencode defaults to this name.
pub const USERNAME: &'static str = "opencode";

/// What an address starts with.
pub const ADDRESS_SCHEME: &'static str = "http://";

/// The letters a password is made of.
pub const LETTERS: &'static str = "abcdefghijklmnopqrstuvwxyz";

/// The address in a line: everything from the first scheme on, without the
/// white space around it.
pub open spec fn address_in(line: Seq<char>) -> Option<Seq<char>> {
    match text::next_occurrence(line, ADDRESS_SCHEME@, 0) {
        Some(at) => Some(text::trimmed(line.subrange(at, line.len() as int))),
        None => None,
    }
}

/// Parse the bound address out of a server startup line.
///
/// opencode prints `opencode server listening on http://127.0.0.1:PORT`.
pub fn parse_listening_url(line: &str) -> (r: Option<String>)
    ensures
        text::opt_text(r) == address_in(line@),
{
    let chars = text::chars_of(line);
    let scheme = text::chars_of(ADDRESS_SCHEME);
    match text::find_from(&chars, &scheme, 0) {
        Some(at) => Some(text::trim(line.substring_char(at, chars.len())).to_owned()),
        None => None,
    }
}

/// A line that ends in an address, whatever precedes it and whatever white
/// space follows, gives that address.
pub proof fn law_the_printed_address_is_found(
    before: Seq<char>,
    address: Seq<char>,
    after: Seq<char>,
)
    requires
        text::occurs_at(address, ADDRESS_SCHEME@, 0),
        forall|j: int|
            0 <= j < before.len() ==> !#[trigger] text::occurs_at(
                before + address + after,
                ADDRESS_SCHEME@,
                j,
            ),
        text::trimmed(address) == address,
        text::is_blank(after),
    ensures
        address_in(before + address + after) == Some(address),
{
    let line = before + address + after;
    let at = before.len() as int;
    let n = ADDRESS_SCHEME@.len() as int;
    assert(line.subrange(at, at + n) =~= address.subrange(0, n));
    assert(text::occurs_at(line, ADDRESS_SCHEME@, at));
    text::lemma_next_occurrence(line, ADDRESS_SCHEME@, 0);
    assert(line.subrange(at, line.len() as int) =~= address + after);
    lemma_trim_ignores_blank_tail(address, after);
}

/// White space behind a text does not change what trimming leaves of it.
proof fn lemma_trim_ignores_blank_tail(s: Seq<char>, tail: Seq<char>)
    requires
        text::is_blank(tail),
    ensures
        text::trimmed(s + tail) == text::trimmed(s),
    decreases tail.len(),
{
    if tail.len() == 0 {
        assert(s + tail =~= s);
    } else {
        let less = tail.drop_last();
        assert forall|i: int| 0 <= i < less.len() implies text::is_white(#[trigger] less[i]) by {
            assert(less[i] == tail[i]);
        }
        lemma_trim_ignores_blank_tail(s, less);
        let whole = s + tail;
        assert(text::is_white(tail[tail.len() - 1]));
        assert(whole.last() == tail.last());
        text::lemma_trim_drops_either_end(whole);
        assert(whole.drop_last() =~= s + less);
    }
}

/// Draws a number by `rand::RngExt::random_range` on `rand::rng`, from a range
/// that ends before `bound`. Trusted for staying in that range; it panics on an
/// empty one, and which number comes is up to chance.
#[verifier::external_body]
fn draw_below(bound: usize) -> (r: usize)
    requires
        bound > 0,
    ensures
        r < bound,
{
    rand::RngExt::random_range(&mut rand::rng(), 0..bound)
}

/// A password: so many letters of the alphabet.
pub open spec fn is_password(s: Seq<char>) -> bool {
    &&& s.len() == PASSWORD_LENGTH
    &&& forall|i: int| 0 <= i < s.len() ==> 'a' <= #[trigger] s[i] <= 'z'
}

/// The text that a list of drawn numbers spells.
pub fn spell(draws: &Vec<usize>) -> (r: String)
    requires
        forall|i: int| 0 <= i < draws.len() ==> #[trigger] draws@[i] < 26,
    ensures
        r@ == draws@.map_values(|d: usize| LETTERS@[d as int]),
        forall|i: int| 0 <= i < r@.len() ==> 'a' <= #[trigger] r@[i] <= 'z',
{
    let mut s = String::new();
    let mut i: usize = 0;
    let ghost spelled = draws@.map_values(|d: usize| LETTERS@[d as int]);
    proof {
        reveal_strlit("abcdefghijklmnopqrstuvwxyz");
    }
    while i < draws.len()
        invariant
            i <= draws.len(),
            forall|j: int| 0 <= j < draws.len() ==> #[trigger] draws@[j] < 26,
            spelled == draws@.map_values(|d: usize| LETTERS@[d as int]),
            s@ == spelled.take(i as int),
            LETTERS@.len() == 26,
        decreases draws.len() - i,
    {
        let d: usize = draws[i];
        s.append(LETTERS.substring_char(d, d + 1));
        assert(s@ =~= spelled.take(i + 1));
        i += 1;
    }
    assert(spelled.take(i as int) =~= spelled);
    assert forall|j: int| 0 <= j < s@.len() implies 'a' <= #[trigger] s@[j] <= 'z' by {
        let d = draws@[j];
        assert(d < 26);
        assert(s@[j] == LETTERS@[d as int]);
        lemma_letters(d as int);
    }
    s
}

/// Every letter is one of the alphabet.
proof fn lemma_letters(d: int)
    requires
        0 <= d < 26,
    ensures
        'a' <= LETTERS@[d] <= 'z',
{
    reveal_strlit("abcdefghijklmnopqrstuvwxyz");
}

/// Generate a random password for the server's basic auth.
///
/// The server binds to loopback regardless, but an unauthenticated local HTTP
/// server is still worth avoiding on a shared machine.
pub fn generate_password() -> (r: String)
    ensures
        is_password(r@),
{
    let mut draws: Vec<usize> = Vec::new();
    while draws.len() < PASSWORD_LENGTH
        invariant
            draws.len() <= PASSWORD_LENGTH,
            forall|j: int| 0 <= j < draws.len() ==> #[trigger] draws@[j] < 26,
        decreases PASSWORD_LENGTH - draws.len(),
    {
        let d: usize = draw_below(26);
        draws.push(d);
    }
    spell(&draws)
}

/// How the server is launched, apart from where.
#[derive(Debug, Clone)]
pub struct LaunchPlan {
    /// Executable to launch.
    pub executable: String,
    /// Arguments, in order.
    pub arguments: Vec<String>,
    /// Environment variables to set, with their values.
    pub environment: Vec<(String, String)>,
}

/// The arguments that serve on a free loopback port.
pub open spec fn serve_arguments() -> Seq<Seq<char>> {
    seq!["serve"@, "--port"@, "0"@, "--hostname"@, "127.0.0.1"@]
}

/// The variables to set: the password always, and the flag that turns web
/// search on where it is wanted.
pub open spec fn serve_environment(password: Seq<char>, websearch: bool) -> Seq<(
    Seq<char>,
    Seq<char>,
)> {
    let always = seq![("OPENCODE_SERVER_PASSWORD"@, password)];
    if websearch {
        always.push(("OPENCODE_ENABLE_EXA"@, "1"@))
    } else {
        always
    }
}

/// What a list of variables says.
pub open spec fn variable_views(variables: Seq<(String, String)>) -> Seq<(Seq<char>, Seq<char>)> {
    variables.map_values(|v: (String, String)| (v.0@, v.1@))
}

/// Decide how the server is launched.
pub fn launch_plan<P>(config: &OpencodeConfig<P>, password: &str) -> (r: LaunchPlan)
    ensures
        r.executable@ == config.executable@,
        text::texts(r.arguments@) == serve_arguments(),
        variable_views(r.environment@) == serve_environment(password@, config.enable_websearch),
{
    let mut arguments: Vec<String> = Vec::new();
    arguments.push("serve".to_owned());
    arguments.push("--port".to_owned());
    arguments.push("0".to_owned());
    arguments.push("--hostname".to_owned());
    arguments.push("127.0.0.1".to_owned());
    assert(text::texts(arguments@) =~= serve_arguments());
    let mut environment: Vec<(String, String)> = Vec::new();
    environment.push(("OPENCODE_SERVER_PASSWORD".to_owned(), password.to_owned()));
    if config.enable_websearch {
        // Web search is off unless this flag is set. EXA_API_KEY is optional;
        // without it opencode falls back to a keyless endpoint.
        environment.push(("OPENCODE_ENABLE_EXA".to_owned(), "1".to_owned()));
    }
    assert(variable_views(environment@) =~= serve_environment(
        password@,
        config.enable_websearch,
    ));
    LaunchPlan { executable: config.executable.clone(), arguments, environment }
}

/// What came of waiting for the server to print its address.
#[derive(Debug, Clone)]
pub enum Discovery {
    /// It printed one.
    Found(String),
    /// Its output could not be captured.
    NotPiped,
    /// Reading its output failed, with the operating system's words; the exit
    /// status is there where the process has already died.
    Broken {
        /// The operating system's words.
        reason: String,
        /// The exit status of a process that has died.
        exit: Option<String>,
    },
    /// Its output ended without an address; the exit status is there where the
    /// process has already died.
    Closed {
        /// The exit status of a process that has died.
        exit: Option<String>,
    },
    /// It printed none in time.
    TimedOut,
}

/// The error that a failed discovery is reported with. A process that has died
/// is the common cause of output that ended early, so its status is reported
/// in place of the symptom.
pub open spec fn discovery_error(d: Discovery) -> Option<ErrorView> {
    match d {
        Discovery::Found(_) => None,
        Discovery::NotPiped => Some(ErrorView::EventStream("opencode stdout was not piped"@)),
        Discovery::Broken { reason, exit } => match exit {
            Some(status) => Some(ErrorView::OpencodeExited { status: status@ }),
            None => Some(ErrorView::EventStream("reading opencode stdout: "@ + reason@)),
        },
        Discovery::Closed { exit } => match exit {
            Some(status) => Some(ErrorView::OpencodeExited { status: status@ }),
            None => Some(
                ErrorView::EventStream(
                    "opencode stdout closed before reporting a listening address"@,
                ),
            ),
        },
        Discovery::TimedOut => Some(
            ErrorView::PortDiscoveryTimeout { seconds: PORT_DISCOVERY_TIMEOUT },
        ),
    }
}

/// Settle what waiting for the address amounts to: the address, or the error
/// to report.
pub fn settle_discovery(discovery: Discovery) -> (r: Result<String, CoinError>)
    ensures
        match r {
            Ok(url) => discovery == Discovery::Found(url),
            Err(e) => discovery_error(discovery) == Some(e@),
        },
{
    match discovery {
        Discovery::Found(url) => Ok(url),
        Discovery::NotPiped => Err(
            CoinError::EventStream("opencode stdout was not piped".to_owned()),
        ),
        Discovery::Broken { reason, exit } => match exit {
            Some(status) => Err(CoinError::OpencodeExited { status }),
            None => {
                let mut message = "reading opencode stdout: ".to_owned();
                message.append(reason.as_str());
                Err(CoinError::EventStream(message))
            },
        },
        Discovery::Closed { exit } => match exit {
            Some(status) => Err(CoinError::OpencodeExited { status }),
            None => Err(
                CoinError::EventStream(
                    "opencode stdout closed before reporting a listening address".to_owned(),
                ),
            ),
        },
        Discovery::TimedOut => Err(
            CoinError::PortDiscoveryTimeout { seconds: PORT_DISCOVERY_TIMEOUT },
        ),
    }
}

/// What came of asking the server for its health.
#[derive(Debug, Clone, Copy, PartialEq, Eq, Structural)]
pub enum Probe {
    /// It could not be reached, which is expected while it is still binding.
    Unreachable,
    /// It answered.
    Answered {
        /// Status of the answer.
        status: u16,
        /// What it says of its health; nothing where it says nothing readable.
        healthy: Option<bool>,
    },
}

/// An answer that reports the server ready.
pub open spec fn reports_ready(probe: Probe) -> bool {
    match probe {
        Probe::Unreachable => false,
        Probe::Answered { status, healthy } => client::success_status(status) && healthy == Some(
            true,
        ),
    }
}

/// What to do next while waiting for the server to become healthy.
#[derive(Debug, Clone)]
pub enum HealthStep {
    /// Ask for its health.
    Ask,
    /// Wait for the poll interval.
    Rest,
    /// Go on: it is ready.
    Ready,
    /// Give up, reporting this.
    GiveUp(CoinError),
}

/// Decide what to do before a probe: ask while time is left, and give up once
/// it has run out.
pub fn before_probe(expired: bool, base_url: &str) -> (r: HealthStep)
    ensures
        !expired ==> r is Ask,
        expired ==> r is GiveUp && r->GiveUp_0@ == (ErrorView::HealthTimeout {
            url: base_url@,
            seconds: HEALTH_TIMEOUT,
        }),
{
    if expired {
        HealthStep::GiveUp(
            CoinError::HealthTimeout { url: base_url.to_owned(), seconds: HEALTH_TIMEOUT },
        )
    } else {
        HealthStep::Ask
    }
}

/// Decide what to do after a probe. A probe against a server that is still
/// binding fails, so anything but a clear answer means another try.
pub fn after_probe(probe: Probe) -> (r: HealthStep)
    ensures
        reports_ready(probe) ==> r is Ready,
        !reports_ready(probe) ==> r is Rest,
{
    match probe {
        Probe::Unreachable => HealthStep::Rest,
        Probe::Answered { status, healthy } => {
            let ready: bool = match healthy {
                Some(flag) => flag,
                None => false,
            };
            if client::is_success(status) && ready {
                HealthStep::Ready
            } else {
                HealthStep::Rest
            }
        },
    }
}


/// Which address is read out of a line: none where no scheme stands in it, and
/// otherwise all of the line from the first one on, without the white space at
/// its end.
pub proof fn law_the_address_starts_at_the_first_scheme(line: Seq<char>, at: int)
    ensures
        !text::occurs(line, "http://"@) ==> address_in(line) is None,
        text::occurs_at(line, "http://"@, at) && (forall|j: int|
            0 <= j < at ==> !#[trigger] text::occurs_at(line, "http://"@, j)) ==> address_in(line)
            == Some(text::trimmed(line.skip(at))),
{
    text::lemma_next_occurrence(line, ADDRESS_SCHEME@, 0);
    if text::occurs_at(line, "http://"@, at) {
        assert(line.subrange(at, line.len() as int) =~= line.skip(at));
    }
}

/// What a failed start is blamed on: a process that has died on its exit status,
/// whatever the symptom, and one that has not on the symptom itself.
pub proof fn law_a_dead_process_is_the_cause(url: String, reason: String, status: String)
    ensures
        discovery_error(Discovery::Found(url)) is None,
        discovery_error(Discovery::Broken { reason, exit: Some(status) }) == Some(
            ErrorView::OpencodeExited { status: status@ },
        ),
        discovery_error(Discovery::Closed { exit: Some(status) }) == Some(
            ErrorView::OpencodeExited { status: status@ },
        ),
        discovery_error(Discovery::Broken { reason, exit: None }) == Some(
            ErrorView::EventStream("reading opencode stdout: "@ + reason@),
        ),
        discovery_error(Discovery::Closed { exit: None }) == Some(
            ErrorView::EventStream("opencode stdout closed before reporting a listening address"@),
        ),
        discovery_error(Discovery::NotPiped) == Some(
            ErrorView::EventStream("opencode stdout was not piped"@),
        ),
        discovery_error(Discovery::TimedOut) == Some(
            ErrorView::PortDiscoveryTimeout { seconds: 30 },
        ),
{
}

/// The server counts as ready exactly when it answers with success and says that
/// it is healthy.
pub proof fn law_ready_means_healthy(status: u16, healthy: Option<bool>)
    ensures
        !reports_ready(Probe::Unreachable),
        reports_ready(Probe::Answered { status, healthy }) <==> status / 100 == 2 && healthy
            == Some(true),
{
}

/// The server is told to listen on a free port of the loopback interface, and
/// nothing else.
pub proof fn law_the_server_listens_on_loopback()
    ensures
        serve_arguments().len() == 5,
        serve_arguments()[0] == "serve"@,
        serve_arguments()[1] == "--port"@,
        serve_arguments()[2] == "0"@,
        serve_arguments()[3] == "--hostname"@,
        serve_arguments()[4] == "127.0.0.1"@,
{
}

/// The server always gets its password, and the flag for web search exactly when
/// that is wanted.
pub proof fn law_the_server_gets_its_password(
    password: Seq<char>,
    websearch: bool,
    variables: Seq<(String, String)>,
    i: int,
)
    ensures
        serve_environment(password, websearch)[0] == ("OPENCODE_SERVER_PASSWORD"@, password),
        websearch ==> serve_environment(password, websearch).len() == 2 && serve_environment(
            password,
            websearch,
        )[1] == ("OPENCODE_ENABLE_EXA"@, "1"@),
        !websearch ==> serve_environment(password, websearch).len() == 1,
        variable_views(variables).len() == variables.len(),
        0 <= i < variables.len() ==> variable_views(variables)[i] == (
            variables[i].0@,
            variables[i].1@,
        ),
{
}

/// A password is twenty-four small letters, each of the alphabet's letters being
/// one that a draw can give.
pub proof fn law_passwords_are_small_letters(s: Seq<char>, d: int)
    ensures
        is_password(s) <==> s.len() == 24 && forall|i: int|
            0 <= i < s.len() ==> 97 <= #[trigger] s[i] as int <= 122,
        LETTERS@.len() == 26,
        0 <= d < 26 ==> LETTERS@[d] as int == 97 + d,
{
    reveal_strlit("abcdefghijklmnopqrstuvwxyz");
    if is_password(s) {
        assert forall|i: int| 0 <= i < s.len() implies 97 <= #[trigger] s[i] as int <= 122 by {}
    }
}

} // verus!
