//! What the command line decides and prints.
//!
//! Reading arguments and files and writing to the terminal is the program's
//! part. This module says what an argument means, which model argues which
//! side, and what each thing that happens looks like on the terminal.

use vstd::prelude::*;

use crate::config::{self, DebateSettings, Located};
use crate::debate::engine::{self, agent_name, ConfigView, DebateConfig};
use crate::debate::format::{DebateFormat, FormatId};
use crate::debate::state::{
    self, AnalysisView, Credence, CredenceRound, DebateState, ParseView, RowView, Side, StateView,
    StopReason, StopView, Topic, Turn,
};
use crate::error::{CoinError, ErrorView};
use crate::opencode::events::Flow;
use crate::opencode::types::{self, MessageInfo, ModelRef, ModelView, Part, ServerEvent};
use crate::opencode::workspace::{self, AgentFile};
use crate::store;
use crate::term::{self, paint, Style};
use crate::text;

verus! {

/// Model debaters use unless the configuration file or the command line says
/// otherwise.
///
/// Chosen by benchmarking candidates on a real debate: cheap, and still stating
/// well-calibrated confidences, which is what the credence format depends on.
pub const DEFAULT_DEBATE_MODEL: &'static str = "openrouter/z-ai/glm-5.3-flash";

/// The last full stop of a text.
pub open spec fn last_dot(s: Seq<char>) -> Option<int>
    decreases s.len(),
{
    if s.len() == 0 {
        None
    } else if s.last() == '.' {
        Some(s.len() - 1)
    } else {
        last_dot(s.drop_last())
    }
}

/// The extension of a file name: what follows its last full stop, unless that
/// is how the name starts.
pub open spec fn extension_of(name: Seq<char>) -> Option<Seq<char>> {
    match last_dot(name) {
        Some(i) if i > 0 => Some(name.subrange(i + 1, name.len() as int)),
        _ => None,
    }
}

/// An extension that names a text file.
pub open spec fn is_text_extension(extension: Seq<char>) -> bool {
    ||| text::same_ignoring_case(extension, "txt"@)
    ||| text::same_ignoring_case(extension, "md"@)
    ||| text::same_ignoring_case(extension, "text"@)
}

/// A value that was probably meant as a path: one word that holds a separator,
/// starts with `~`, or has the extension of a text file.
pub open spec fn path_like(value: Seq<char>) -> bool {
    &&& value.len() > 0
    &&& forall|i: int| 0 <= i < value.len() ==> !text::is_white(#[trigger] value[i])
    &&& (value.contains('/') || value[0] == '~' || (extension_of(value) matches Some(x)
        && is_text_extension(x)))
}

/// The extension of a name without separators, where it has one.
fn extension<'a>(name: &'a str) -> (r: Option<&'a str>)
    ensures
        match r {
            Some(x) => extension_of(name@) == Some(x@),
            None => extension_of(name@) is None,
        },
{
    let chars = text::chars_of(name);
    let mut i: usize = chars.len();
    assert(name@.take(i as int) =~= name@);
    while i > 0
        invariant
            i <= chars.len(),
            chars@ == name@,
            last_dot(name@) == last_dot(name@.take(i as int)),
        decreases i,
    {
        assert(name@.take(i as int).drop_last() =~= name@.take(i - 1));
        if chars[i - 1] == '.' {
            if i == 1 {
                return None;
            }
            return Some(name.substring_char(i, chars.len()));
        }
        i -= 1;
    }
    None
}

/// Whether a value that does not exist on disk was probably meant as a path.
///
/// A debate position is prose and almost always contains spaces, so a
/// whitespace-free value that carries a separator or a text extension is far
/// more likely to be a mistyped filename than an argument. Reporting that as a
/// missing file beats silently debating the literal string `notes/postion.md`.
///
/// Whitespace is checked first so a genuine question containing a slash, such
/// as "Is TCP/IP better than X?", stays a literal string.
pub fn looks_like_path(value: &str) -> (r: bool)
    ensures
        r == path_like(value@),
{
    let chars = text::chars_of(value);
    if chars.len() == 0 {
        return false;
    }
    let mut slash: bool = false;
    let mut i: usize = 0;
    while i < chars.len()
        invariant
            i <= chars.len(),
            chars@ == value@,
            forall|j: int| 0 <= j < i ==> !text::is_white(#[trigger] value@[j]),
            slash == value@.take(i as int).contains('/'),
        decreases chars.len() - i,
    {
        if text::is_white_space(chars[i]) {
            assert(text::is_white(value@[i as int]));
            return false;
        }
        proof {
            let more = value@.take(i + 1);
            assert(more =~= value@.take(i as int).push(value@[i as int]));
            if value@[i as int] == '/' {
                assert(more[i as int] == '/');
            }
            if slash {
                let k = choose|k: int| 0 <= k < i && value@.take(i as int)[k] == '/';
                assert(more[k] == '/');
            }
            if more.contains('/') && value@[i as int] != '/' {
                let k = choose|k: int| 0 <= k < more.len() && more[k] == '/';
                assert(value@.take(i as int)[k] == '/');
            }
        }
        if chars[i] == '/' {
            slash = true;
        }
        i += 1;
    }
    assert(value@.take(i as int) =~= value@);
    if slash || chars[0] == '~' {
        return true;
    }
    match extension(value) {
        Some(x) => text::same_but_case(x, "txt") || text::same_but_case(x, "md")
            || text::same_but_case(x, "text"),
        None => false,
    }
}

/// What there is on disk under an argument's value.
#[derive(Debug, Clone)]
pub enum OnDisk {
    /// No file.
    Nothing,
    /// A file that says this.
    File(String),
    /// A file that could not be read, with the operating system's words.
    Unreadable(String),
}

/// Resolve an argument that may name a file or may be the text itself.
///
/// Long positions are easier to keep in a file than to paste into a shell, so
/// each of the topic arguments accepts either. An existing file is read and
/// trimmed; any other value is used verbatim, unless it was clearly meant as a
/// file. `label` names the argument in error messages.
pub fn text_or_file(label: &str, value: String, on_disk: OnDisk) -> (r: Result<String, CoinError>)
    ensures
        match on_disk {
            OnDisk::File(contents) => if text::is_blank(contents@) {
                r is Err && r->Err_0@ == ErrorView::Invalid(
                    label@ + " file "@ + value@ + " is empty"@,
                )
            } else {
                r is Ok && r->Ok_0@ == text::trimmed(contents@)
            },
            OnDisk::Unreadable(reason) => r is Err && r->Err_0@ == (ErrorView::Io {
                path: value@,
                source: reason@,
            }),
            OnDisk::Nothing => if path_like(value@) {
                r is Err && r->Err_0@ == ErrorView::Invalid(
                    label@ + " looks like a file path but "@ + value@
                        + " does not exist; pass the text directly if that was intended"@,
                )
            } else {
                r == Ok::<String, CoinError>(value)
            },
        },
{
    match on_disk {
        OnDisk::File(contents) => {
            if text::blank(contents.as_str()) {
                let mut message = label.to_owned();
                message.append(" file ");
                message.append(value.as_str());
                message.append(" is empty");
                return Err(CoinError::Invalid(message));
            }
            Ok(text::trim(contents.as_str()).to_owned())
        },
        OnDisk::Unreadable(reason) => Err(CoinError::io(value.as_str(), reason.as_str())),
        OnDisk::Nothing => {
            if looks_like_path(value.as_str()) {
                let mut message = label.to_owned();
                message.append(" looks like a file path but ");
                message.append(value.as_str());
                message.append(" does not exist; pass the text directly if that was intended");
                return Err(CoinError::Invalid(message));
            }
            Ok(value)
        },
    }
}

/// The built-in default is in `provider/model` form, and only the first of its
/// separators sets the provider off.
pub proof fn law_the_built_in_default_is_routable()
    ensures
        types::is_model_form(DEFAULT_DEBATE_MODEL@),
        types::model_named(DEFAULT_DEBATE_MODEL@) == (ModelView {
            provider_id: "openrouter"@,
            model_id: "z-ai/glm-5.3-flash"@,
        }),
{
    reveal_strlit("openrouter/z-ai/glm-5.3-flash");
    reveal_strlit("openrouter");
    reveal_strlit("z-ai/glm-5.3-flash");
    let s = DEFAULT_DEBATE_MODEL@;
    let slash = seq!['/'];
    assert(s.len() == 29);
    assert(s.subrange(10, 11) =~= slash);
    assert(text::occurs_at(s, slash, 10));
    text::lemma_next_occurrence(s, slash, 0);
    assert forall|j: int| 0 <= j < 10 implies !text::occurs_at(s, slash, j) by {
        assert(s.subrange(j, j + 1)[0] == s[j]);
        assert(s[j] != '/');
    }
    assert(s.subrange(0, 10) =~= "openrouter"@);
    assert(s.subrange(11, 29) =~= "z-ai/glm-5.3-flash"@);
}

/// The first of two choices that was made.
pub open spec fn first_of(a: Option<ModelView>, b: Option<ModelView>) -> Option<ModelView> {
    if a is Some {
        a
    } else {
        b
    }
}

/// The model side A argues with: from the command line, else from the file,
/// else the built-in default.
pub open spec fn chosen_a(flag_a: Option<ModelView>, file_a: Option<ModelView>) -> ModelView {
    match first_of(flag_a, file_a) {
        Some(m) => m,
        None => types::model_named(DEFAULT_DEBATE_MODEL@),
    }
}

/// The model side B argues with. The flag for both sides also overrides a
/// model the file pins for side B, and with no choice of its own side B argues
/// with side A's model.
pub open spec fn chosen_b(
    flag_a: Option<ModelView>,
    flag_b: Option<ModelView>,
    file_a: Option<ModelView>,
    file_b: Option<ModelView>,
) -> ModelView {
    match first_of(first_of(flag_b, flag_a), file_b) {
        Some(m) => m,
        None => chosen_a(flag_a, file_a),
    }
}

/// The first of two choices that was made.
fn first_choice(a: Option<ModelRef>, b: Option<ModelRef>) -> (r: Option<ModelRef>)
    ensures
        types::opt_model(r) == first_of(types::opt_model(a), types::opt_model(b)),
{
    match a {
        Some(m) => Some(m),
        None => b,
    }
}

/// A second copy of an optional model.
fn copied(m: &Option<ModelRef>) -> (r: Option<ModelRef>)
    ensures
        types::opt_model(r) == types::opt_model(*m),
{
    match m {
        Some(v) => Some(v.duplicate()),
        None => None,
    }
}

/// Settle which model each side argues with.
///
/// Three sources, in falling order of precedence: the command line, the
/// configuration file, and the built-in default.
pub fn resolve_models(
    flag_a: Option<ModelRef>,
    flag_b: Option<ModelRef>,
    settings: DebateSettings,
) -> (r: Result<(ModelRef, ModelRef), CoinError>)
    ensures
        r is Ok,
        r->Ok_0.0@ == chosen_a(types::opt_model(flag_a), types::opt_model(settings.model)),
        r->Ok_0.1@ == chosen_b(
            types::opt_model(flag_a),
            types::opt_model(flag_b),
            types::opt_model(settings.model),
            types::opt_model(settings.model_b),
        ),
{
    proof {
        law_the_built_in_default_is_routable();
    }
    let built_in = match ModelRef::parse(DEFAULT_DEBATE_MODEL) {
        Ok(m) => m,
        Err(complaint) => {
            return Err(CoinError::Invalid(complaint));
        },
    };
    let model_a = match first_choice(copied(&flag_a), settings.model) {
        Some(m) => m,
        None => built_in,
    };
    let model_b = match first_choice(first_choice(flag_b, flag_a), settings.model_b) {
        Some(m) => m,
        None => model_a.duplicate(),
    };
    Ok((model_a, model_b))
}

/// Choosing a model for both sides on the command line gives both sides that
/// model whatever the file says, unless side B gets a choice of its own there.
pub proof fn law_the_command_line_beats_the_file(
    flag_a: ModelView,
    flag_b: Option<ModelView>,
    file_a: Option<ModelView>,
    file_b: Option<ModelView>,
)
    ensures
        chosen_a(Some(flag_a), file_a) == flag_a,
        chosen_b(Some(flag_a), flag_b, file_a, file_b) == match flag_b {
            Some(b) => b,
            None => flag_a,
        },
{
}

/// With nothing chosen for side B anywhere, both sides argue with the same
/// model, which isolates the argument from model capability.
pub proof fn law_the_sides_share_a_model_by_default(
    flag_a: Option<ModelView>,
    file_a: Option<ModelView>,
)
    ensures
        chosen_b(flag_a, None, file_a, None) == chosen_a(flag_a, file_a),
{
}

/// The line that says which model each side argues with.
pub open spec fn models_line(config: ConfigView) -> Seq<char> {
    if config.model_a == config.model_b {
        "  model "@ + store::shown_model(config.model_a)
    } else {
        "  model A "@ + store::shown_model(config.model_a) + ", model B "@ + store::shown_model(
            config.model_b,
        )
    }
}

/// Describe which model each side will argue with.
///
/// The two sides usually share a model, so that case is collapsed to a single
/// name.
pub fn describe_models(config: &DebateConfig) -> (r: String)
    ensures
        r@ == models_line(config@),
{
    let model_a = config.model_a.as_ref();
    let model_b = config.model_b.as_ref();
    if store::same_model(model_a, model_b) {
        let mut s = "  model ".to_owned();
        s.append(store::show_model(model_a).as_str());
        s
    } else {
        let mut s = "  model A ".to_owned();
        s.append(store::show_model(model_a).as_str());
        s.append(", model B ");
        s.append(store::show_model(model_b).as_str());
        s
    }
}

/// What is reported of a format that is named but not built.
pub fn unimplemented_format(id: FormatId) -> (r: CoinError)
    ensures
        r@ == ErrorView::Invalid(
            "format "@ + crate::debate::format::slug_of(id)
                + " is specified but not implemented yet; only 'credence' is available so far"@,
        ),
{
    let mut message = "format ".to_owned();
    message.append(id.slug());
    message.append(" is specified but not implemented yet; only 'credence' is available so far");
    CoinError::Invalid(message)
}

/// The message of a probe: its words with a space between them. One that says
/// nothing is refused.
pub fn probe_message(words: &Vec<String>) -> (r: Result<String, CoinError>)
    ensures
        ({
            let message = text::joined(text::texts(words@), " "@);
            if text::is_blank(message) {
                r is Err && r->Err_0@ == ErrorView::Invalid("a probe message is required"@)
            } else {
                r is Ok && r->Ok_0@ == message
            }
        }),
{
    let message = text::join(words, " ");
    if text::blank(message.as_str()) {
        return Err(CoinError::Invalid("a probe message is required".to_owned()));
    }
    Ok(message)
}

/// The identifier of a debate, as text: five groups of hexadecimal digits set
/// off by hyphens.
pub open spec fn is_debate_id(s: Seq<char>) -> bool {
    &&& s.len() == 36
    &&& forall|i: int|
        0 <= i < 36 ==> if i == 8 || i == 13 || i == 18 || i == 23 {
            #[trigger] s[i] == '-'
        } else {
            '0' <= s[i] <= '9' || 'a' <= s[i] <= 'f'
        }
}

/// Calls `uuid::Uuid::new_v4` and renders the identifier in its hyphenated
/// form. Trusted for that form only; which identifier comes is up to chance.
#[verifier::external_body]
fn random_id() -> (r: String)
    ensures
        is_debate_id(r@),
{
    uuid::Uuid::new_v4().to_string()
}

/// A new identifier for a debate, and where its workspace lies.
///
/// Each debate gets a disposable workspace, so a debater's tool use lands
/// somewhere throwaway rather than in a real project.
pub fn fresh_workspace() -> (r: Result<Located<std::path::PathBuf>, CoinError>)
    ensures
        match r {
            Ok(located) => located.segments@.len() == 3 && located.segments@[0]@ == "coin"@
                && located.segments@[1]@ == "debates"@ && is_debate_id(located.segments@[2]@),
            Err(e) => e@ == ErrorView::MissingDirectory("data"@),
        },
{
    let id = random_id();
    let r = config::debate_dir(id.as_str());
    if let Ok(located) = &r {
        let ghost names = text::texts(located.segments@);
        assert(names.len() == located.segments@.len());
        assert(names[0] == located.segments@[0]@);
        assert(names[1] == located.segments@[1]@);
        assert(names[2] == located.segments@[2]@);
    }
    r
}

/// The agent definition of one side: its name, whose side it is, and the
/// format's system prompt.
pub fn debater<F: DebateFormat + ?Sized>(format: &F, side: Side, topic: &Topic) -> (r: AgentFile)
    ensures
        text::texts(r.directory@) == seq![".opencode"@, "agent"@],
        r.file_name@ == engine::agent_of(side) + ".md"@,
        r.contents@ == "---\ndescription: "@ + ("Debate side "@ + state::side_text(side))
            + "\nmode: primary\n---\n"@ + format.persona(side, topic@) + "\n"@,
{
    let mut description = "Debate side ".to_owned();
    description.append(side.to_string().as_str());
    let prompt = format.system_prompt(side, topic);
    workspace::agent_file(agent_name(side).as_str(), description.as_str(), prompt.as_str())
}

/// What a debate opens with: the question, the positions, how it ends, and who
/// argues.
pub open spec fn opening_text(config: ConfigView, id: FormatId, colour: bool) -> Seq<char> {
    let rules = "  "@ + crate::debate::format::slug_of(id) + " format, ends when "@
        + crate::debate::format::ending_of(id) + ", max "@ + text::decimal(
        config.max_rounds as nat,
    ) + " rounds"@;
    term::painted(colour, Style::Heading, config.topic.question) + "\n  "@ + term::painted(
        colour,
        Style::SideA,
        "A:"@,
    ) + " "@ + config.topic.position_a + "\n  "@ + term::painted(colour, Style::SideB, "B:"@) + " "@
        + config.topic.position_b + "\n"@ + term::painted(colour, Style::Dim, rules) + "\n"@
        + term::painted(colour, Style::Dim, models_line(config)) + "\n"@
}

/// What a debate opens with.
pub fn opening(config: &DebateConfig, id: FormatId, colour: bool) -> (r: String)
    ensures
        r@ == opening_text(config@, id, colour),
{
    let mut rules = "  ".to_owned();
    rules.append(id.slug());
    rules.append(" format, ends when ");
    rules.append(id.stop_description());
    rules.append(", max ");
    rules.append(text::number(config.max_rounds as u64).as_str());
    rules.append(" rounds");
    let mut s = paint(colour, Style::Heading, config.topic.question.as_str());
    s.append("\n  ");
    s.append(paint(colour, Style::SideA, "A:").as_str());
    s.append(" ");
    s.append(config.topic.position_a.as_str());
    s.append("\n  ");
    s.append(paint(colour, Style::SideB, "B:").as_str());
    s.append(" ");
    s.append(config.topic.position_b.as_str());
    s.append("\n");
    s.append(paint(colour, Style::Dim, rules.as_str()).as_str());
    s.append("\n");
    s.append(paint(colour, Style::Dim, describe_models(config).as_str()).as_str());
    s.append("\n");
    s
}

/// What a turn starts with: a banner, and the side's colour left open for the
/// fragments that follow.
pub open spec fn banner_text(side: Side, round: int, colour: bool) -> Seq<char> {
    let style = term::style_of(side);
    let words = "--- Round "@ + text::decimal(round as nat) + ", Debater "@ + state::side_text(side)
        + " ---"@;
    "\n"@ + term::painted(colour, style, words) + "\n"@ + term::opening(colour, style)
}

/// What a turn starts with.
pub fn banner(side: Side, round: usize, colour: bool) -> (r: String)
    ensures
        r@ == banner_text(side, round as int, colour),
{
    let style = Style::for_side(side);
    let mut words = "--- Round ".to_owned();
    words.append(text::number(round as u64).as_str());
    words.append(", Debater ");
    words.append(side.to_string().as_str());
    words.append(" ---");
    let mut s = "\n".to_owned();
    s.append(paint(colour, style, words.as_str()).as_str());
    s.append("\n");
    s.append(term::start(colour, style));
    s
}

/// One finding: what it is, and what was found.
pub open spec fn labelled_text(label: Seq<char>, value: Seq<char>, colour: bool) -> Seq<char> {
    "  "@ + term::painted(colour, Style::Dim, label) + " "@ + value + "\n"@
}

/// One line per conceded point.
pub open spec fn conceded_lines(points: Seq<Seq<char>>, colour: bool) -> Seq<char>
    decreases points.len(),
{
    if points.len() == 0 {
        Seq::empty()
    } else {
        conceded_lines(points.drop_last(), colour) + labelled_text(
            "conceded:"@,
            points.last(),
            colour,
        )
    }
}

/// The findings that follow a turn's prose, after the colour opened when the
/// turn started is closed.
pub open spec fn findings_text(a: AnalysisView, colour: bool) -> Seq<char> {
    let confidence = match a.credence {
        Some(value) => labelled_text(
            "confidence:"@,
            term::painted(colour, Style::Value, text::decimal(value as nat)),
            colour,
        ),
        None => Seq::empty(),
    };
    let moved = match a.moved_because {
        Some(reason) => labelled_text("moved because:"@, reason, colour),
        None => Seq::empty(),
    };
    let unread = if a.parse_status == ParseView::Readable {
        Seq::empty()
    } else {
        "  "@ + term::painted(
            colour,
            Style::Dim,
            "(no readable structured block in this turn)"@,
        ) + "\n"@
    };
    term::closing(colour) + "\n"@ + confidence + moved + conceded_lines(a.conceded, colour) + unread
}

/// One finding: what it is, and what was found.
fn labelled(label: &str, value: &str, colour: bool) -> (r: String)
    ensures
        r@ == labelled_text(label@, value@, colour),
{
    let mut s = "  ".to_owned();
    s.append(paint(colour, Style::Dim, label).as_str());
    s.append(" ");
    s.append(value);
    s.append("\n");
    s
}

/// The structured findings that follow a turn's prose.
///
/// The prose itself has already been streamed token by token, so only the
/// extracted analysis is rendered here.
pub fn findings(turn: &Turn, colour: bool) -> (r: String)
    ensures
        r@ == findings_text(turn@.analysis, colour),
{
    let analysis = &turn.analysis;
    let confidence = match analysis.credence {
        Some(credence) => {
            let value = paint(colour, Style::Value, credence.to_string().as_str());
            labelled("confidence:", value.as_str(), colour)
        },
        None => String::new(),
    };
    let moved = match &analysis.moved_because {
        Some(reason) => labelled("moved because:", reason.as_str(), colour),
        None => String::new(),
    };
    let ghost points = text::texts(analysis.conceded@);
    let mut conceded = String::new();
    let mut i: usize = 0;
    while i < analysis.conceded.len()
        invariant
            i <= analysis.conceded.len(),
            points == text::texts(analysis.conceded@),
            conceded@ == conceded_lines(points.take(i as int), colour),
        decreases analysis.conceded.len() - i,
    {
        assert(points.take(i + 1).drop_last() =~= points.take(i as int));
        conceded.append(
            labelled("conceded:", analysis.conceded[i].as_str(), colour).as_str(),
        );
        i += 1;
    }
    assert(points.take(i as int) =~= points);
    let unread = if analysis.parse_status.is_ok() {
        String::new()
    } else {
        let mut note = "  ".to_owned();
        note.append(
            paint(colour, Style::Dim, "(no readable structured block in this turn)").as_str(),
        );
        note.append("\n");
        note
    };
    let mut s = term::reset(colour).to_owned();
    s.append("\n");
    s.append(confidence.as_str());
    s.append(moved.as_str());
    s.append(conceded.as_str());
    s.append(unread.as_str());
    s
}

/// A confidence of the convergence table.
pub open spec fn cell(value: Option<int>) -> Seq<char> {
    match value {
        Some(v) => text::decimal(v as nat),
        None => "  -"@,
    }
}

/// A gap of the convergence table, three columns wide.
pub open spec fn gap_cell(value: Option<int>) -> Seq<char> {
    match value {
        Some(v) => text::padded_left(text::decimal(v as nat), 3),
        None => "  -"@,
    }
}

/// One round of the convergence table.
pub open spec fn round_text(row: RowView, colour: bool) -> Seq<char> {
    "  round "@ + text::decimal(row.round as nat) + "   "@ + term::painted(
        colour,
        Style::SideA,
        "A"@,
    ) + " "@ + cell(row.a) + "   "@ + term::painted(colour, Style::SideB, "B"@) + " "@ + cell(row.b)
        + "   "@ + term::painted(colour, Style::Dim, "gap"@) + " "@ + term::painted(
        colour,
        Style::Value,
        gap_cell(state::row_gap(row)),
    ) + "\n"@
}

/// The rounds of the convergence table.
pub open spec fn round_lines(rows: Seq<RowView>, colour: bool) -> Seq<char>
    decreases rows.len(),
{
    if rows.len() == 0 {
        Seq::empty()
    } else {
        round_lines(rows.drop_last(), colour) + round_text(rows.last(), colour)
    }
}

/// What a debate closes with: the convergence table where anyone stated a
/// confidence, what it omits, why the debate ended, and the totals.
pub open spec fn summary_text(s: StateView, cost: Seq<char>, colour: bool) -> Seq<char> {
    let rows = state::rounds_of(s.turns);
    let table = if rows.len() == 0 {
        Seq::empty()
    } else {
        term::painted(
            colour,
            Style::Dim,
            "confidence in own position, and how far apart that leaves them:"@,
        ) + "\n"@ + round_lines(rows, colour)
    };
    let caution = match store::caution_of(s.turns) {
        Some(sentence) => term::painted(colour, Style::Value, sentence) + "\n"@,
        None => Seq::empty(),
    };
    let totals = text::decimal(s.turns.len()) + " turns | "@ + text::decimal(
        state::input_total(s.turns) as nat,
    ) + " in, "@ + text::decimal(state::output_total(s.turns) as nat) + " out | $"@ + cost;
    "\n"@ + term::painted(colour, Style::Heading, "Result"@) + "\n"@ + table + caution + "ended: "@
        + store::stop_text(s.stop_reason) + "\n"@ + term::painted(colour, Style::Dim, totals)
        + "\n"@
}

/// A confidence of the convergence table.
fn cell_entry(value: Option<Credence>) -> (r: String)
    ensures
        r@ == cell(state::opt_percent(value)),
{
    match value {
        Some(credence) => credence.to_string(),
        None => "  -".to_owned(),
    }
}

/// A gap of the convergence table, three columns wide.
fn gap_entry(value: Option<u8>) -> (r: String)
    ensures
        r@ == gap_cell(
            match value {
                Some(v) => Some(v as int),
                None => None,
            },
        ),
{
    match value {
        Some(v) => text::pad_left(text::number(v as u64), 3),
        None => "  -".to_owned(),
    }
}

/// One round of the convergence table.
fn round_entry(row: &CredenceRound, colour: bool) -> (r: String)
    ensures
        r@ == round_text(row@, colour),
{
    let mut s = "  round ".to_owned();
    s.append(text::number(row.round as u64).as_str());
    s.append("   ");
    s.append(paint(colour, Style::SideA, "A").as_str());
    s.append(" ");
    s.append(cell_entry(row.a).as_str());
    s.append("   ");
    s.append(paint(colour, Style::SideB, "B").as_str());
    s.append(" ");
    s.append(cell_entry(row.b).as_str());
    s.append("   ");
    s.append(paint(colour, Style::Dim, "gap").as_str());
    s.append(" ");
    s.append(paint(colour, Style::Value, gap_entry(row.gap()).as_str()).as_str());
    s.append("\n");
    s
}

/// What a debate closes with. `cost` is the total in USD, as it is to be shown.
///
/// Each side reports confidence in its own position, so the gap column restates
/// them on a single proposition. Without it, two sides that fully agree look
/// maximally far apart.
pub fn summary(debate: &DebateState, cost: &str, colour: bool) -> (r: String)
    requires
        state::totals_fit(debate@.turns),
    ensures
        r@ == summary_text(debate@, cost@, colour),
{
    let rows = debate.credence_rounds();
    let ghost views = state::row_views(rows@);
    assert(views.len() == rows.len());
    let mut list = String::new();
    let mut i: usize = 0;
    while i < rows.len()
        invariant
            i <= rows.len(),
            views == state::row_views(rows@),
            list@ == round_lines(views.take(i as int), colour),
        decreases rows.len() - i,
    {
        assert(views.take(i + 1).drop_last() =~= views.take(i as int));
        list.append(round_entry(&rows[i], colour).as_str());
        i += 1;
    }
    assert(views.take(i as int) =~= views);
    let usage = debate.usage();
    let mut totals = text::number(debate.turns.len() as u64);
    totals.append(" turns | ");
    totals.append(text::number(usage.tokens.input).as_str());
    totals.append(" in, ");
    totals.append(text::number(usage.tokens.output).as_str());
    totals.append(" out | $");
    totals.append(cost);
    let mut table = String::new();
    if rows.len() > 0 {
        table = paint(
            colour,
            Style::Dim,
            "confidence in own position, and how far apart that leaves them:",
        );
        table.append("\n");
        table.append(list.as_str());
    }
    let mut caution = String::new();
    if let Some(sentence) = store::caution(debate) {
        caution = paint(colour, Style::Value, sentence.as_str());
        caution.append("\n");
    }
    let mut s = "\n".to_owned();
    s.append(paint(colour, Style::Heading, "Result").as_str());
    s.append("\n");
    s.append(table.as_str());
    s.append(caution.as_str());
    s.append("ended: ");
    s.append(store::describe_stop(&debate.stop_reason).as_str());
    s.append("\n");
    s.append(paint(colour, Style::Dim, totals.as_str()).as_str());
    s.append("\n");
    s
}

/// A tool invocation as one line, if the part is a tool call.
pub open spec fn tool_words(part: Part) -> Option<Seq<char>> {
    match part {
        Part::Tool { tool, state, .. } => {
            let detail = types::first_text_argument(state.input@);
            let head = "  ["@ + state.status@ + " "@ + tool@;
            Some(
                if detail.len() == 0 {
                    head + "]"@
                } else {
                    head + ": "@ + detail + "]"@
                },
            )
        },
        _ => None,
    }
}

/// Render a tool invocation as one line, if the part is a tool call.
pub fn tool_line(part: &Part) -> (r: Option<String>)
    ensures
        text::opt_text(r) == tool_words(*part),
{
    match part {
        Part::Tool { tool, state, .. } => {
            let detail = state.summary();
            let mut s = "  [".to_owned();
            s.append(state.status.as_str());
            s.append(" ");
            s.append(tool.as_str());
            if !detail.as_str().is_empty() {
                s.append(": ");
                s.append(detail.as_str());
            }
            s.append("]");
            assert(s@ =~= tool_words(*part)->0);
            Some(s)
        },
        _ => None,
    }
}

/// The side that owns a session, if either does. Where both sides have the same
/// session it is side A's.
pub open spec fn owner_of(id: Seq<char>, session_a: Seq<char>, session_b: Seq<char>) -> Option<
    Side,
> {
    if id == session_a {
        Some(Side::A)
    } else if id == session_b {
        Some(Side::B)
    } else {
        None
    }
}

/// The side that owns a session, if either does.
pub fn side_of(id: &str, session_a: &str, session_b: &str) -> (r: Option<Side>)
    ensures
        r == owner_of(id@, session_a@, session_b@),
{
    if text::same(id, session_a) {
        Some(Side::A)
    } else if text::same(id, session_b) {
        Some(Side::B)
    } else {
        None
    }
}

/// What an event looks like while a debate streams: a fragment of a side's
/// argument as it is, a tool invocation on a dimmed line that interrupts the
/// stream and then restores the side's colour, and nothing otherwise.
pub open spec fn debate_output(
    event: ServerEvent,
    session_a: Seq<char>,
    session_b: Seq<char>,
    colour: bool,
) -> Option<Seq<char>> {
    match event {
        ServerEvent::PartDelta(delta) => if delta.field@ == "text"@ && owner_of(
            delta.session_id@,
            session_a,
            session_b,
        ) is Some {
            Some(delta.delta@)
        } else {
            None
        },
        ServerEvent::PartUpdated(update) => match (
            owner_of(update.part.session_id@, session_a, session_b),
            tool_words(update.part.part),
        ) {
            (Some(side), Some(words)) => Some(
                "\n"@ + term::painted(colour, Style::Dim, words) + term::opening(
                    colour,
                    term::style_of(side),
                ) + "\n"@,
            ),
            _ => None,
        },
        _ => None,
    }
}

/// What an event looks like while a debate streams, if it looks like anything.
pub fn render_debate_event(
    event: &ServerEvent,
    session_a: &str,
    session_b: &str,
    colour: bool,
) -> (r: Option<String>)
    ensures
        text::opt_text(r) == debate_output(*event, session_a@, session_b@, colour),
{
    match event {
        ServerEvent::PartDelta(delta) => {
            if delta.is_text() && side_of(delta.session_id.as_str(), session_a, session_b).is_some()
            {
                Some(delta.delta.clone())
            } else {
                None
            }
        },
        ServerEvent::PartUpdated(update) => {
            match (
                side_of(update.part.session_id.as_str(), session_a, session_b),
                tool_line(&update.part.part),
            ) {
                (Some(side), Some(line)) => {
                    let mut s = "\n".to_owned();
                    s.append(paint(colour, Style::Dim, line.as_str()).as_str());
                    s.append(term::start(colour, Style::for_side(side)));
                    s.append("\n");
                    Some(s)
                },
                _ => None,
            }
        },
        _ => None,
    }
}

/// What an event amounts to while a probe streams.
#[derive(Debug, Clone)]
pub struct ProbeOutput {
    /// Text for standard output, which carries only the model's words.
    pub out: Option<String>,
    /// Text for standard error, which carries tool noise.
    pub err: Option<String>,
    /// Whether to keep listening.
    pub flow: Flow,
}

/// React to an event while a probe streams. Only the watched session counts;
/// its visible text and its tool use are shown, and its idling ends the probe.
pub fn render_probe_event(event: &ServerEvent, watched: &str) -> (r: ProbeOutput)
    ensures
        text::opt_text(r.out) == match *event {
            ServerEvent::PartDelta(d) if d.session_id@ == watched@ && d.field@ == "text"@ => Some(
                d.delta@,
            ),
            _ => None,
        },
        text::opt_text(r.err) == match *event {
            ServerEvent::PartUpdated(u) if u.part.session_id@ == watched@ => match tool_words(
                u.part.part,
            ) {
                Some(words) => Some("\n"@ + words + "\n"@),
                None => None,
            },
            _ => None,
        },
        r.flow == Flow::Stop <==> (*event matches ServerEvent::SessionIdle(s) && s.session_id@
            == watched@),
{
    match event {
        ServerEvent::PartDelta(delta) => {
            if text::same(delta.session_id.as_str(), watched) && delta.is_text() {
                return ProbeOutput {
                    out: Some(delta.delta.clone()),
                    err: None,
                    flow: Flow::Continue,
                };
            }
        },
        ServerEvent::PartUpdated(update) => {
            if text::same(update.part.session_id.as_str(), watched) {
                if let Some(line) = tool_line(&update.part.part) {
                    let mut s = "\n".to_owned();
                    s.append(line.as_str());
                    s.append("\n");
                    return ProbeOutput { out: None, err: Some(s), flow: Flow::Continue };
                }
            }
        },
        ServerEvent::SessionIdle(idle) => {
            if text::same(idle.session_id.as_str(), watched) {
                return ProbeOutput { out: None, err: None, flow: Flow::Stop };
            }
        },
        _ => {},
    }
    ProbeOutput { out: None, err: None, flow: Flow::Continue }
}

/// The line a probe closes with. `cost` is in USD, as it is to be shown.
pub fn probe_totals(info: &MessageInfo, cost: &str) -> (r: String)
    ensures
        r@ == "\n"@ + info.model_id@ + " via "@ + info.provider_id@ + " | "@ + text::decimal(
            info.tokens.input as nat,
        ) + " in, "@ + text::decimal(info.tokens.output as nat) + " out | $"@ + cost@,
{
    let mut s = "\n".to_owned();
    s.append(info.model_id.as_str());
    s.append(" via ");
    s.append(info.provider_id.as_str());
    s.append(" | ");
    s.append(text::number(info.tokens.input).as_str());
    s.append(" in, ");
    s.append(text::number(info.tokens.output).as_str());
    s.append(" out | $");
    s.append(cost);
    s
}

/// What a finished debate means for the program's exit.
///
/// A debate that ended because a side could not answer is a failure rather than
/// a result, so anything scripting coin can tell the two apart.
pub fn exit_of(debate: &DebateState, session_a: &str, session_b: &str) -> (r: Result<(), CoinError>)
    ensures
        match debate@.stop_reason {
            Some(StopView::Failed { side, message }) => r is Err && r->Err_0@
                == (ErrorView::Session {
                session_id: match side {
                    Side::A => session_a@,
                    Side::B => session_b@,
                },
                message,
            }),
            _ => r is Ok,
        },
{
    match &debate.stop_reason {
        Some(StopReason::Failed { side, message }) => {
            let session = match side {
                Side::A => session_a,
                Side::B => session_b,
            };
            Err(CoinError::Session { session_id: session.to_owned(), message: message.clone() })
        },
        _ => Ok(()),
    }
}


/// The extension of a name is what follows its last full stop, and a name
/// without one, or with its only one in front, has none.
pub proof fn law_the_extension_follows_the_last_full_stop(name: Seq<char>, i: int)
    ensures
        (forall|j: int| 0 <= j < name.len() ==> #[trigger] name[j] != '.') ==> extension_of(
            name,
        ) is None,
        0 <= i < name.len() && name[i] == '.' && (forall|j: int|
            i < j < name.len() ==> #[trigger] name[j] != '.') ==> extension_of(name) == if i == 0 {
            None
        } else {
            Some(name.skip(i + 1))
        },
{
    lemma_last_dot(name);
    if 0 <= i < name.len() && name[i] == '.' && (forall|j: int|
        i < j < name.len() ==> #[trigger] name[j] != '.') {
        assert(name.subrange(i + 1, name.len() as int) =~= name.skip(i + 1));
    }
}

/// Where the last full stop of a text stands.
proof fn lemma_last_dot(s: Seq<char>)
    ensures
        match last_dot(s) {
            Some(i) => 0 <= i < s.len() && s[i] == '.' && forall|j: int|
                i < j < s.len() ==> #[trigger] s[j] != '.',
            None => forall|j: int| 0 <= j < s.len() ==> #[trigger] s[j] != '.',
        },
    decreases s.len(),
{
    if s.len() > 0 && s.last() != '.' {
        let less = s.drop_last();
        lemma_last_dot(less);
        assert forall|j: int| 0 <= j < less.len() implies #[trigger] s[j] == less[j] by {}
    }
}

/// Which values are taken for paths. One with white space anywhere never is, nor
/// is an empty one. Of the others, one that holds a separator or starts with a
/// tilde always is, and any other is exactly when it has the extension of a text
/// file, in whatever case.
pub proof fn law_what_is_taken_for_a_path(value: Seq<char>)
    ensures
        value.len() == 0 ==> !path_like(value),
        (exists|i: int| 0 <= i < value.len() && text::is_white(#[trigger] value[i])) ==> !path_like(
            value,
        ),
        value.len() > 0 && (forall|i: int|
            0 <= i < value.len() ==> !text::is_white(#[trigger] value[i])) ==> {
            &&& value.contains('/') ==> path_like(value)
            &&& value[0] == '~' ==> path_like(value)
            &&& !value.contains('/') && value[0] != '~' ==> (path_like(value) <==> (extension_of(
                value,
            ) is Some && (text::same_ignoring_case(extension_of(value)->0, "txt"@)
                || text::same_ignoring_case(extension_of(value)->0, "md"@)
                || text::same_ignoring_case(extension_of(value)->0, "text"@))))
        },
{
}

/// Who decides about the models. For side A the command line, then the file,
/// then the built-in default. For side B its own flag, then the flag for both
/// sides, then its own setting in the file, and then whatever side A argues
/// with.
pub proof fn law_model_choices_in_order(
    flag: ModelView,
    setting: ModelView,
    flag_a: Option<ModelView>,
    file_a: Option<ModelView>,
    file_b: Option<ModelView>,
)
    ensures
        chosen_a(Some(flag), file_a) == flag,
        chosen_a(None, Some(setting)) == setting,
        chosen_a(None, None).provider_id == "openrouter"@,
        chosen_a(None, None).model_id == "z-ai/glm-5.3-flash"@,
        chosen_b(flag_a, Some(flag), file_a, file_b) == flag,
        chosen_b(Some(flag), None, file_a, file_b) == flag,
        chosen_b(None, None, file_a, Some(setting)) == setting,
        chosen_b(None, None, file_a, None) == chosen_a(None, file_a),
{
    law_the_built_in_default_is_routable();
}

/// The line on models names one where both sides share it, and each side's own
/// where they do not.
pub proof fn law_models_are_named_once_when_shared(config: ConfigView)
    ensures
        config.model_a == config.model_b ==> models_line(config) == "  model "@
            + store::shown_model(config.model_a),
        config.model_a != config.model_b ==> models_line(config) == "  model A "@
            + store::shown_model(config.model_a) + ", model B "@ + store::shown_model(
            config.model_b,
        ),
{
}

/// A debate opens with the question, then each side's letter and its own
/// position, then how the format ends it and after how many rounds at the most,
/// then the models.
pub proof fn law_the_opening_introduces_both_sides(config: ConfigView, id: FormatId, colour: bool)
    ensures
        ({
            let rules = "  "@ + crate::debate::format::slug_of(id) + " format, ends when "@
                + crate::debate::format::ending_of(id) + ", max "@ + text::decimal(
                config.max_rounds as nat,
            ) + " rounds"@;
            opening_text(config, id, colour) == term::painted(
                colour,
                Style::Heading,
                config.topic.question,
            ) + "\n  "@ + term::painted(colour, Style::SideA, "A:"@) + " "@
                + config.topic.position_a + "\n  "@ + term::painted(colour, Style::SideB, "B:"@)
                + " "@ + config.topic.position_b + "\n"@ + term::painted(colour, Style::Dim, rules)
                + "\n"@ + term::painted(colour, Style::Dim, models_line(config)) + "\n"@
        }),
{
}

/// A turn is announced with its round and its side's letter, in its side's
/// colour, which is left open for what follows.
pub proof fn law_a_banner_names_round_and_side(round: nat, colour: bool)
    ensures
        banner_text(Side::A, round as int, colour) == "\n"@ + term::painted(
            colour,
            Style::SideA,
            "--- Round "@ + text::decimal(round) + ", Debater "@ + "A"@ + " ---"@,
        ) + "\n"@ + term::opening(colour, Style::SideA),
        banner_text(Side::B, round as int, colour) == "\n"@ + term::painted(
            colour,
            Style::SideB,
            "--- Round "@ + text::decimal(round) + ", Debater "@ + "B"@ + " ---"@,
        ) + "\n"@ + term::opening(colour, Style::SideB),
{
}

/// Conceded points are shown one to a line, in order, each as it was put.
pub proof fn law_every_conceded_point_has_its_line(
    a: Seq<Seq<char>>,
    b: Seq<Seq<char>>,
    point: Seq<char>,
    colour: bool,
)
    ensures
        conceded_lines(Seq::empty(), colour).len() == 0,
        conceded_lines(seq![point], colour) == "  "@ + term::painted(
            colour,
            Style::Dim,
            "conceded:"@,
        ) + " "@ + point + "\n"@,
        conceded_lines(a + b, colour) == conceded_lines(a, colour) + conceded_lines(b, colour),
    decreases b.len(),
{
    assert(seq![point].drop_last() =~= Seq::<Seq<char>>::empty());
    assert(seq![point].last() == point);
    assert(conceded_lines(Seq::empty(), colour) =~= Seq::<char>::empty());
    assert(conceded_lines(seq![point], colour) =~= labelled_text("conceded:"@, point, colour));
    if b.len() == 0 {
        assert(a + b =~= a);
        assert(conceded_lines(a, colour) + conceded_lines(b, colour) =~= conceded_lines(a, colour));
    } else {
        law_every_conceded_point_has_its_line(a, b.drop_last(), point, colour);
        assert((a + b).drop_last() =~= a + b.drop_last());
        assert((a + b).last() == b.last());
        assert(conceded_lines(a + b, colour) =~= conceded_lines(a, colour) + conceded_lines(
            b,
            colour,
        ));
    }
}

/// What is shown of a turn, in this order: its confidence where it states one,
/// what moved it where it says so, what it conceded, and a note where its block
/// could not be read; before all of it the side's colour is closed.
pub proof fn law_findings_show_what_was_stated(a: AnalysisView, colour: bool)
    ensures
        ({
            let confidence = if a.credence is Some {
                "  "@ + term::painted(colour, Style::Dim, "confidence:"@) + " "@ + term::painted(
                    colour,
                    Style::Value,
                    text::decimal(a.credence->0 as nat),
                ) + "\n"@
            } else {
                Seq::empty()
            };
            let moved = if a.moved_because is Some {
                "  "@ + term::painted(colour, Style::Dim, "moved because:"@) + " "@
                    + a.moved_because->0 + "\n"@
            } else {
                Seq::empty()
            };
            let note = if a.parse_status is Readable {
                Seq::empty()
            } else {
                "  "@ + term::painted(
                    colour,
                    Style::Dim,
                    "(no readable structured block in this turn)"@,
                ) + "\n"@
            };
            findings_text(a, colour) == term::closing(colour) + "\n"@ + confidence + moved
                + conceded_lines(a.conceded, colour) + note
        }),
{
}

/// What a row of the summary shows: its round, both confidences under their
/// sides' letters, and a gap that reads back, once its padding is off, as the
/// number of points by which the two together miss one hundred. It is nothing
/// exactly when they make one hundred, and a dash stands for what was not
/// stated.
pub proof fn law_a_row_shows_how_far_apart_the_sides_are(row: RowView, colour: bool)
    requires
        row.a is Some ==> 0 <= row.a->0 <= 100,
        row.b is Some ==> 0 <= row.b->0 <= 100,
    ensures
        ({
            let a = match row.a {
                Some(v) => text::decimal(v as nat),
                None => "  -"@,
            };
            let b = match row.b {
                Some(v) => text::decimal(v as nat),
                None => "  -"@,
            };
            let head = "  round "@ + text::decimal(row.round as nat) + "   "@ + term::painted(
                colour,
                Style::SideA,
                "A"@,
            ) + " "@ + a + "   "@ + term::painted(colour, Style::SideB, "B"@) + " "@ + b + "   "@
                + term::painted(colour, Style::Dim, "gap"@) + " "@;
            let sum = row.a->0 + row.b->0;
            exists|gap: Seq<char>|
                {
                    &&& round_text(row, colour) == head + #[trigger] term::painted(
                        colour,
                        Style::Value,
                        gap,
                    ) + "\n"@
                    &&& row.a is Some && row.b is Some ==> gap.len() == 3 && {
                        let shown = text::decimal_value(text::trimmed(gap));
                        &&& sum == 100 + shown || sum == 100 - shown
                        &&& shown >= 0
                        &&& shown == 0 <==> sum == 100
                    }
                    &&& row.a is None || row.b is None ==> gap == "  -"@
                }
        }),
{
    let gap = gap_cell(state::row_gap(row));
    let head = "  round "@ + text::decimal(row.round as nat) + "   "@ + term::painted(
        colour,
        Style::SideA,
        "A"@,
    ) + " "@ + cell(row.a) + "   "@ + term::painted(colour, Style::SideB, "B"@) + " "@ + cell(row.b)
        + "   "@ + term::painted(colour, Style::Dim, "gap"@) + " "@;
    assert(round_text(row, colour) == head + term::painted(colour, Style::Value, gap) + "\n"@);
    if row.a is Some && row.b is Some {
        let n = state::row_gap(row)->0 as nat;
        text::law_padded_numbers_read_back(n, 3);
        text::law_padding_only_puts_spaces_in_front(text::decimal(n), 3);
        lemma_small_numbers_are_short(n);
    }
}

/// A number up to one hundred takes at most three digits.
proof fn lemma_small_numbers_are_short(n: nat)
    requires
        n <= 100,
    ensures
        text::decimal(n).len() <= 3,
{
    assert(text::decimal(n / 10 / 10).len() == 1);
    assert(text::decimal(n / 10).len() <= 2);
}

/// It does not matter in which order three texts are put one after the other,
/// and an empty one adds nothing.
proof fn lemma_three_in_a_row(x: Seq<char>, y: Seq<char>, z: Seq<char>)
    ensures
        x + y + z == x + (y + z),
        Seq::<char>::empty() + z == z,
        x + Seq::<char>::empty() == x,
{
    assert(x + y + z =~= x + (y + z));
    assert(Seq::<char>::empty() + z =~= z);
    assert(x + Seq::<char>::empty() =~= x);
}

/// The rows of the summary stand one after the other, in the order of the table.
pub proof fn law_rows_are_shown_in_order(
    a: Seq<RowView>,
    b: Seq<RowView>,
    row: RowView,
    colour: bool,
)
    ensures
        round_lines(Seq::empty(), colour).len() == 0,
        round_lines(seq![row], colour) == round_text(row, colour),
        round_lines(a + b, colour) == round_lines(a, colour) + round_lines(b, colour),
    decreases b.len(),
{
    assert(seq![row].drop_last() =~= Seq::<RowView>::empty());
    assert(seq![row].last() == row);
    lemma_three_in_a_row(Seq::empty(), Seq::empty(), round_text(row, colour));
    if b.len() == 0 {
        assert(a + b =~= a);
        lemma_three_in_a_row(round_lines(a, colour), Seq::empty(), Seq::empty());
    } else {
        let less = b.drop_last();
        law_rows_are_shown_in_order(a, less, row, colour);
        assert((a + b).drop_last() =~= a + less);
        assert((a + b).last() == b.last());
        lemma_three_in_a_row(
            round_lines(a, colour),
            round_lines(less, colour),
            round_text(b.last(), colour),
        );
    }
}

/// What a summary holds, in this order: the table where it has rows, the caution
/// where there is one, why the debate ended, and on the last line how many turns
/// it took, what they consumed, and what they cost.
pub proof fn law_the_summary_tells_the_result(s: StateView, cost: Seq<char>, colour: bool)
    ensures
        ({
            let rows = state::rounds_of(s.turns);
            let table = if rows.len() > 0 {
                term::painted(
                    colour,
                    Style::Dim,
                    "confidence in own position, and how far apart that leaves them:"@,
                ) + "\n"@ + round_lines(rows, colour)
            } else {
                Seq::empty()
            };
            let caution = if store::caution_of(s.turns) is Some {
                term::painted(colour, Style::Value, store::caution_of(s.turns)->0) + "\n"@
            } else {
                Seq::empty()
            };
            let usage = state::usage_of(s.turns);
            let totals = text::decimal(usage.turns as nat) + " turns | "@ + text::decimal(
                usage.input as nat,
            ) + " in, "@ + text::decimal(usage.output as nat) + " out | $"@ + cost;
            summary_text(s, cost, colour) == "\n"@ + term::painted(
                colour,
                Style::Heading,
                "Result"@,
            ) + "\n"@ + table + caution + "ended: "@ + store::stop_text(s.stop_reason) + "\n"@
                + term::painted(colour, Style::Dim, totals) + "\n"@
        }),
{
}

/// Only a tool invocation has a line, and it shows the status, the tool, and what
/// the invocation was about where that is known.
pub proof fn law_a_tool_line_says_what_was_done(part: Part)
    ensures
        !(part is Tool) ==> tool_words(part) is None,
        part matches Part::Tool { tool, state, .. } ==> tool_words(part) == Some(
            if types::first_text_argument(state.input@).len() == 0 {
                "  ["@ + state.status@ + " "@ + tool@ + "]"@
            } else {
                "  ["@ + state.status@ + " "@ + tool@ + ": "@ + types::first_text_argument(
                    state.input@,
                ) + "]"@
            },
        ),
{
}

/// Whose output an event is, and what of it is shown. A session that is neither
/// side's shows nothing. Of a side's session, visible text is shown as it comes,
/// reasoning is not, and a tool invocation interrupts with its line and then
/// takes up the side's own colour again.
pub proof fn law_only_the_debaters_are_shown(
    event: ServerEvent,
    session_a: Seq<char>,
    session_b: Seq<char>,
    colour: bool,
)
    ensures
        !(event is PartDelta) && !(event is PartUpdated) ==> debate_output(
            event,
            session_a,
            session_b,
            colour,
        ) is None,
        event matches ServerEvent::PartDelta(d) ==> debate_output(
            event,
            session_a,
            session_b,
            colour,
        ) == if d.field@ == "text"@ && (d.session_id@ == session_a || d.session_id@ == session_b) {
            Some(d.delta@)
        } else {
            None
        },
        event matches ServerEvent::PartUpdated(u) ==> debate_output(
            event,
            session_a,
            session_b,
            colour,
        ) == if u.part.session_id@ != session_a && u.part.session_id@ != session_b || tool_words(
            u.part.part,
        ) is None {
            None
        } else {
            Some(
                "\n"@ + term::painted(colour, Style::Dim, tool_words(u.part.part)->0)
                    + term::opening(
                    colour,
                    if u.part.session_id@ == session_a {
                        Style::SideA
                    } else {
                        Style::SideB
                    },
                ) + "\n"@,
            )
        },
{
}

/// Which side a session belongs to: the one it was opened for, and none where it
/// was opened for neither.
pub proof fn law_a_session_belongs_to_its_side(
    id: Seq<char>,
    session_a: Seq<char>,
    session_b: Seq<char>,
)
    ensures
        owner_of(session_a, session_a, session_b) == Some(Side::A),
        session_a != session_b ==> owner_of(session_b, session_a, session_b) == Some(Side::B),
        id != session_a && id != session_b ==> owner_of(id, session_a, session_b) is None,
{
}

} // verus!
