//! Tolerant extraction of the structured block a turn ends with.
//!
//! Each format asks the model to close its turn with a fenced `json` block
//! carrying format-specific fields. Models comply imperfectly: they omit the
//! block, label the fence differently, emit trailing commas, wrap the JSON in
//! commentary, or leave the fence unterminated.
//!
//! Everything here degrades rather than fails. A turn whose block cannot be
//! read is still a turn; it simply carries no structure and is flagged.
//!
//! Reading the JSON itself is the caller's part: [`block_text`] says which
//! text to read, and [`parse_turn`] takes what came of reading it.

use vstd::prelude::*;

use crate::debate::state::{
    self, AnalysisView, Claim, ClaimKind, ClaimView, Credence, ParseStatus, ParseView, TurnAnalysis,
};
use crate::text;

verus! {

/// A claim as a model writes it.
#[derive(Debug, Clone, PartialEq, Eq)]
pub struct RawClaim {
    /// The claim text.
    pub text: String,
    /// Its standing, one of `agreed`, `disputed`, or `unresolved`.
    pub kind: String,
}

/// Fields a format may ask a model to supply.
///
/// Every field may be absent, so that one format's block reads even though it
/// omits another format's fields entirely.
#[derive(Debug, Clone, PartialEq, Eq, Default)]
pub struct StructuredBlock {
    /// Stated confidence, 0-100. Signed so out-of-range values clamp rather
    /// than fail.
    pub credence: Option<i64>,
    /// Justification for any movement in confidence.
    pub moved_because: Option<String>,
    /// Points conceded this turn.
    pub conceded: Vec<String>,
    /// The claim this side's case most depends on.
    pub key_claim: Option<String>,
    /// The disagreement the dispute reduces to.
    pub crux: Option<String>,
    /// Claims for the ledger format.
    pub claims: Vec<RawClaim>,
}

/// The characters that open and close a fenced block.
pub open spec fn fence() -> Seq<char> {
    seq!['`', '`', '`']
}

/// The character that ends the line a fence opens on.
pub open spec fn line_end() -> Seq<char> {
    seq!['\n']
}

/// The fenced blocks of a text from position `from` on, each as the stretch
/// its body takes up.
///
/// A block opens with a fence, whose line may go on with a language tag, and
/// its body runs from the next line to the next fence. A last fence that
/// nothing closes takes the rest of the text; one with no line after it opens
/// nothing.
pub open spec fn blocks_from(s: Seq<char>, from: int) -> Seq<(int, int)>
    decreases s.len() - from,
    when 0 <= from
    via blocks_from_decreases
{
    match text::next_occurrence(s, fence(), from) {
        None => Seq::empty(),
        Some(open) => match text::next_occurrence(s, line_end(), open + 3) {
            None => Seq::empty(),
            Some(newline) => match text::next_occurrence(s, fence(), newline + 1) {
                None => seq![(newline + 1, s.len() as int)],
                Some(close) => seq![(newline + 1, close)] + blocks_from(s, close + 3),
            },
        },
    }
}

#[via_fn]
proof fn blocks_from_decreases(s: Seq<char>, from: int) {
    if 0 <= from {
        text::lemma_next_occurrence(s, fence(), from);
        if let Some(open) = text::next_occurrence(s, fence(), from) {
            text::lemma_next_occurrence(s, line_end(), open + 3);
            if let Some(newline) = text::next_occurrence(s, line_end(), open + 3) {
                text::lemma_next_occurrence(s, fence(), newline + 1);
            }
        }
    }
}

/// The stretch that the last fenced block's body takes up.
///
/// The **last** block counts because models often illustrate a point with an
/// example block mid-argument before emitting the real one at the end.
pub open spec fn last_block(s: Seq<char>) -> Option<(int, int)> {
    let blocks = blocks_from(s, 0);
    if blocks.len() == 0 {
        None
    } else {
        Some(blocks.last())
    }
}

/// The body of the last fenced block.
pub open spec fn last_body(s: Seq<char>) -> Option<Seq<char>> {
    match last_block(s) {
        Some((from, to)) => Some(s.subrange(from, to)),
        None => None,
    }
}

/// Where the fences of a text stand from position `from` on, none overlapping
/// the one before it.
pub open spec fn fences_from(s: Seq<char>, from: int) -> Seq<int>
    decreases s.len() - from,
    when 0 <= from
    via fences_from_decreases
{
    match text::next_occurrence(s, fence(), from) {
        None => Seq::empty(),
        Some(at) => seq![at] + fences_from(s, at + 3),
    }
}

#[via_fn]
proof fn fences_from_decreases(s: Seq<char>, from: int) {
    if 0 <= from {
        text::lemma_next_occurrence(s, fence(), from);
    }
}

/// The fence that opens the final block: fences pair up, so that is the last
/// one when their number is odd, and the one before it when it is even.
pub open spec fn opening_fence(s: Seq<char>) -> Option<int> {
    let fences = fences_from(s, 0);
    if fences.len() == 0 {
        None
    } else if fences.len() % 2 == 1 {
        Some(fences.last())
    } else {
        Some(fences[fences.len() - 2])
    }
}

/// A reply without its final block and the white space around what is left.
pub open spec fn prose_of(s: Seq<char>) -> Seq<char> {
    match opening_fence(s) {
        Some(at) => text::trimmed(s.subrange(0, at)),
        None => text::trimmed(s),
    }
}

/// How a label names a claim's standing. Case does not matter, and a label
/// that is not recognized leaves the claim unresolved.
pub open spec fn kind_of(label: Seq<char>) -> ClaimKind {
    if text::same_ignoring_case(label, "agreed"@) {
        ClaimKind::Agreed
    } else if text::same_ignoring_case(label, "disputed"@) {
        ClaimKind::Disputed
    } else {
        ClaimKind::Unresolved
    }
}

/// The claims that say anything, with their standing.
pub open spec fn claims_of(raw: Seq<RawClaim>) -> Seq<ClaimView>
    decreases raw.len(),
{
    if raw.len() == 0 {
        Seq::empty()
    } else {
        let before = claims_of(raw.drop_last());
        let claim = raw.last();
        if text::is_blank(claim.text@) {
            before
        } else {
            before.push(ClaimView { text: claim.text@, kind: kind_of(claim.kind@) })
        }
    }
}

/// The analysis that a block's fields amount to.
pub open spec fn analysis_of(block: StructuredBlock) -> AnalysisView {
    AnalysisView {
        credence: match block.credence {
            Some(value) => Some(state::clamp_percent(value as int)),
            None => None,
        },
        moved_because: text::opt_text(block.moved_because),
        conceded: text::texts(block.conceded@),
        key_claim: text::opt_text(block.key_claim),
        crux: text::opt_text(block.crux),
        claims: claims_of(block.claims@),
        parse_status: ParseView::Readable,
    }
}

/// The analysis of a reply, given what came of reading its block. What was
/// read counts for nothing where the reply has no block.
pub open spec fn turn_analysis(
    s: Seq<char>,
    decoded: Result<StructuredBlock, String>,
) -> AnalysisView {
    if last_block(s) is None {
        state::no_structure(ParseView::Missing)
    } else {
        match decoded {
            Ok(block) => analysis_of(block),
            Err(reason) => state::no_structure(ParseView::Malformed { reason: reason@ }),
        }
    }
}

/// The fence as characters.
fn fence_chars() -> (r: Vec<char>)
    ensures
        r@ == fence(),
{
    let mut v: Vec<char> = Vec::new();
    v.push('`');
    v.push('`');
    v.push('`');
    assert(v@ =~= fence());
    v
}

/// The end of a line as characters.
fn line_end_chars() -> (r: Vec<char>)
    ensures
        r@ == line_end(),
{
    let mut v: Vec<char> = Vec::new();
    v.push('\n');
    assert(v@ =~= line_end());
    v
}

/// The last block found after position `from`, or else one found before it.
spec fn last_from(s: Seq<char>, from: int, found: Option<(int, int)>) -> Option<(int, int)> {
    let blocks = blocks_from(s, from);
    if blocks.len() == 0 {
        found
    } else {
        Some(blocks.last())
    }
}

/// Locate the last fenced block in the text and return its body.
///
/// Both a `json` fence and a bare one are accepted; models label
/// inconsistently and rejecting an unlabelled fence would discard otherwise
/// valid output.
pub fn find_fenced_block<'a>(raw: &'a str) -> (r: Option<&'a str>)
    ensures
        r is Some <==> last_body(raw@) is Some,
        r matches Some(body) ==> last_body(raw@) == Some(body@),
{
    let chars = text::chars_of(raw);
    let ticks = fence_chars();
    let newline = line_end_chars();
    let mut from: usize = 0;
    let mut found: Option<(usize, usize)> = None;
    loop
        invariant
            chars@ == raw@,
            ticks@ == fence(),
            newline@ == line_end(),
            from <= chars.len(),
            found matches Some((a, b)) ==> a <= b <= chars.len(),
            last_from(
                raw@,
                from as int,
                match found {
                    Some((a, b)) => Some((a as int, b as int)),
                    None => None,
                },
            ) == last_block(raw@),
        decreases chars.len() - from,
    {
        proof {
            text::lemma_next_occurrence(raw@, fence(), from as int);
        }
        let open: usize = match text::find_from(&chars, &ticks, from) {
            Some(at) => at,
            None => {
                return match found {
                    Some((a, b)) => Some(raw.substring_char(a, b)),
                    None => None,
                };
            },
        };
        proof {
            text::lemma_next_occurrence(raw@, line_end(), open + 3);
        }
        // The rest of the fence line may hold a language tag.
        let body: usize = match text::find_from(&chars, &newline, open + 3) {
            Some(at) => at + 1,
            None => {
                return match found {
                    Some((a, b)) => Some(raw.substring_char(a, b)),
                    None => None,
                };
            },
        };
        proof {
            text::lemma_next_occurrence(raw@, fence(), body as int);
        }
        match text::find_from(&chars, &ticks, body) {
            Some(close) => {
                proof {
                    let rest = blocks_from(raw@, close + 3);
                    let here = blocks_from(raw@, from as int);
                    assert(here == seq![(body as int, close as int)] + rest);
                    assert(here.len() > 0);
                    if rest.len() > 0 {
                        assert(here.last() == rest.last());
                    } else {
                        assert(here.last() == (body as int, close as int));
                    }
                }
                found = Some((body, close));
                from = close + 3;
            },
            None => {
                // Nothing closes the fence: a model that stops mid-block still
                // produced usable JSON more often than not.
                assert(blocks_from(raw@, from as int) == seq![(body as int, raw@.len() as int)]);
                return Some(raw.substring_char(body, chars.len()));
            },
        }
    }
}

/// The text that is to be read as JSON: the last block's body without the
/// white space around it.
pub fn block_text(raw: &str) -> (r: Option<String>)
    ensures
        r is Some <==> last_body(raw@) is Some,
        r matches Some(t) ==> t@ == text::trimmed(last_body(raw@)->0),
{
    match find_fenced_block(raw) {
        Some(body) => Some(text::trim(body).to_owned()),
        None => None,
    }
}

/// Index of the fence that opens the final fenced block, counting bytes.
pub fn find_last_opening_fence(raw: &str) -> (r: Option<usize>)
    ensures
        match (r, opening_fence(raw@)) {
            (Some(at), Some(n)) => 0 <= n <= raw@.len() && at == text::byte_offset(raw@, n),
            (None, None) => true,
            _ => false,
        },
{
    let chars = text::chars_of(raw);
    let ticks = fence_chars();
    let mut fences: Vec<usize> = Vec::new();
    let mut from: usize = 0;
    let ghost mut seen: Seq<int> = Seq::empty();
    assert(seen + fences_from(raw@, 0) =~= fences_from(raw@, 0));
    loop
        invariant_except_break
            seen + fences_from(raw@, from as int) == fences_from(raw@, 0),
        invariant
            chars@ == raw@,
            ticks@ == fence(),
            from <= chars.len(),
            fences.len() == seen.len(),
            forall|i: int|
                0 <= i < seen.len() ==> seen[i] == fences@[i] && fences@[i] <= raw@.len(),
        ensures
            seen == fences_from(raw@, 0),
        decreases chars.len() - from,
    {
        proof {
            text::lemma_next_occurrence(raw@, fence(), from as int);
        }
        match text::find_from(&chars, &ticks, from) {
            Some(at) => {
                proof {
                    let rest = fences_from(raw@, at + 3);
                    assert(fences_from(raw@, from as int) == seq![at as int] + rest);
                    assert(seen + (seq![at as int] + rest) =~= seen.push(at as int) + rest);
                    seen = seen.push(at as int);
                }
                fences.push(at);
                from = at + 3;
            },
            None => {
                assert(fences_from(raw@, from as int) =~= Seq::<int>::empty());
                assert(seen + Seq::<int>::empty() =~= seen);
                break;
            },
        }
    }
    let count: usize = fences.len();
    if count == 0 {
        return None;
    }
    let n: usize = if count % 2 == 1 {
        fences[count - 1]
    } else {
        fences[count - 2]
    };
    assert(raw@.subrange(0, n as int) =~= raw@.take(n as int));
    Some(raw.substring_char(0, n).as_bytes().len())
}

/// Remove the trailing fenced block from a turn's prose.
///
/// Returns the argument with its structured block removed and white space
/// trimmed. If no block is present the whole input is returned, trimmed.
pub fn strip_structured_block<'a>(raw: &'a str) -> (r: &'a str)
    ensures
        r@ == prose_of(raw@),
{
    match find_last_opening_fence(raw) {
        Some(at) => {
            let ghost n = opening_fence(raw@)->0;
            assert(raw@.subrange(0, n) =~= raw@.take(n));
            text::trim(text::before_byte(raw, at, Ghost(n)))
        },
        None => text::trim(raw),
    }
}

/// The standing that a label names.
fn claim_kind(label: &str) -> (r: ClaimKind)
    ensures
        r == kind_of(label@),
{
    if text::same_but_case(label, "agreed") {
        ClaimKind::Agreed
    } else if text::same_but_case(label, "disputed") {
        ClaimKind::Disputed
    } else {
        ClaimKind::Unresolved
    }
}

/// The claims that say anything, with their standing.
fn read_claims(raw: &Vec<RawClaim>) -> (r: Vec<Claim>)
    ensures
        state::claim_views(r@) == claims_of(raw@),
{
    let mut claims: Vec<Claim> = Vec::new();
    let mut i: usize = 0;
    assert(state::claim_views(claims@) =~= claims_of(raw@.take(0)));
    while i < raw.len()
        invariant
            i <= raw.len(),
            state::claim_views(claims@) == claims_of(raw@.take(i as int)),
        decreases raw.len() - i,
    {
        assert(raw@.take(i + 1).drop_last() =~= raw@.take(i as int));
        if !text::blank(raw[i].text.as_str()) {
            let ghost before = claims@;
            let claim = Claim {
                text: raw[i].text.clone(),
                kind: claim_kind(raw[i].kind.as_str()),
            };
            claims.push(claim);
            assert(state::claim_views(claims@) =~= state::claim_views(before).push(claim@));
        }
        i += 1;
    }
    assert(raw@.take(i as int) =~= raw@);
    claims
}

/// Split a turn's reply into prose and structure.
///
/// `decoded` is what came of reading [`block_text`] as JSON: the fields, or
/// why they could not be read. The analysis records a failure rather than
/// reporting success.
pub fn parse_turn(raw: &str, decoded: Result<StructuredBlock, String>) -> (r: (
    String,
    TurnAnalysis,
))
    ensures
        r.0@ == prose_of(raw@),
        r.1@ == turn_analysis(raw@, decoded),
{
    let prose = strip_structured_block(raw).to_owned();
    if find_fenced_block(raw).is_none() {
        return (prose, TurnAnalysis::empty(ParseStatus::Missing));
    }
    match decoded {
        Err(reason) => (prose, TurnAnalysis::empty(ParseStatus::Malformed { reason })),
        Ok(block) => {
            let claims = read_claims(&block.claims);
            let credence = match block.credence {
                Some(value) => Some(Credence::clamped(value)),
                None => None,
            };
            let analysis = TurnAnalysis {
                credence,
                moved_because: block.moved_because,
                conceded: block.conceded,
                key_claim: block.key_claim,
                crux: block.crux,
                claims,
                parse_status: ParseStatus::Readable,
            };
            (prose, analysis)
        },
    }
}

/// A text whose fences, from position `from` on, come in pairs with a line
/// break between opening and closing. Prose that quotes whole blocks is such a
/// text, and so is prose without any.
pub open spec fn settled_from(s: Seq<char>, from: int) -> bool
    decreases s.len() - from,
    when 0 <= from
    via settled_from_decreases
{
    match text::next_occurrence(s, fence(), from) {
        None => true,
        Some(open) => match (
            text::next_occurrence(s, line_end(), open + 3),
            text::next_occurrence(s, fence(), open + 3),
        ) {
            (Some(newline), Some(close)) => newline < close && settled_from(s, close + 3),
            _ => false,
        },
    }
}

#[via_fn]
proof fn settled_from_decreases(s: Seq<char>, from: int) {
    if 0 <= from {
        text::lemma_next_occurrence(s, fence(), from);
        if let Some(open) = text::next_occurrence(s, fence(), from) {
            text::lemma_next_occurrence(s, fence(), open + 3);
        }
    }
}

/// A fence written after a text cannot be taken to start inside it.
pub open spec fn takes_a_fence(s: Seq<char>) -> bool {
    s.len() == 0 || s.last() != '`'
}

/// A reply that ends in a block: the argument, then the block with whatever
/// its opening line says behind the fence, then whatever follows it.
pub open spec fn reply_with_block(
    argument: Seq<char>,
    tag: Seq<char>,
    body: Seq<char>,
    tail: Seq<char>,
) -> Seq<char> {
    argument + fence() + tag + line_end() + body + fence() + tail
}

/// A reply that stops in the middle of its block.
pub open spec fn reply_cut_short(argument: Seq<char>, tag: Seq<char>, body: Seq<char>) -> Seq<
    char,
> {
    argument + fence() + tag + line_end() + body
}

/// The position of a match with none before it is what searching finds.
proof fn lemma_found_first(s: Seq<char>, pat: Seq<char>, from: int, at: int)
    requires
        0 <= from <= at,
        text::occurs_at(s, pat, at),
        forall|j: int| from <= j < at ==> !text::occurs_at(s, pat, j),
    ensures
        text::next_occurrence(s, pat, from) == Some(at),
{
    text::lemma_next_occurrence(s, pat, from);
}

/// Searching a stretch of a longer text, from a place in it, agrees with
/// searching the stretch itself.
proof fn lemma_occurs_in_stretch(s: Seq<char>, a: int, part: Seq<char>, pat: Seq<char>, j: int)
    requires
        0 <= a,
        a + part.len() <= s.len(),
        s.subrange(a, a + part.len()) == part,
        a <= j,
        j + pat.len() <= a + part.len(),
    ensures
        text::occurs_at(s, pat, j) == text::occurs_at(part, pat, j - a),
{
    assert(s.subrange(j, j + pat.len()) =~= part.subrange(j - a, j - a + pat.len()));
}

/// No fence starts inside a stretch that holds none, whose last character is
/// not part of one, and that a fence or the end of the text follows.
proof fn lemma_no_fence_in_stretch(s: Seq<char>, a: int, part: Seq<char>, j: int)
    requires
        0 <= a,
        a + part.len() <= s.len(),
        s.subrange(a, a + part.len()) == part,
        !text::occurs(part, fence()),
        takes_a_fence(part),
        a <= j < a + part.len(),
    ensures
        !text::occurs_at(s, fence(), j),
{
    if j + 3 <= a + part.len() {
        lemma_occurs_in_stretch(s, a, part, fence(), j);
    } else if text::occurs_at(s, fence(), j) {
        let last = a + part.len() - 1;
        assert(s.subrange(j, j + 3)[last - j] == '`');
        assert(s.subrange(a, a + part.len())[part.len() - 1] == s[last]);
    }
}

/// The blocks and fences of a settled argument are found first, whatever block
/// comes after it.
proof fn lemma_argument_comes_first(argument: Seq<char>, rest: Seq<char>, from: int)
    requires
        0 <= from <= argument.len(),
        settled_from(argument, from),
        takes_a_fence(argument),
        text::occurs_at(rest, fence(), 0),
    ensures
        ({
            let s = argument + rest;
            let n = argument.len() as int;
            &&& blocks_from(s, from) == blocks_from(argument, from) + blocks_from(s, n)
            &&& fences_from(s, from) == fences_from(argument, from) + fences_from(s, n)
            &&& fences_from(argument, from).len() % 2 == 0
        }),
    decreases argument.len() - from,
{
    let s = argument + rest;
    let n = argument.len() as int;
    assert(s.subrange(0, n) =~= argument);
    assert(s.subrange(n, n + 3) =~= rest.subrange(0, 3));
    assert(text::occurs_at(s, fence(), n));
    assert forall|j: int|
        #![trigger text::occurs_at(s, fence(), j)]
        0 <= j < n && !text::occurs_at(argument, fence(), j) implies !text::occurs_at(
        s,
        fence(),
        j,
    ) by {
        if j + 3 <= n {
            lemma_occurs_in_stretch(s, 0, argument, fence(), j);
        } else if text::occurs_at(s, fence(), j) {
            assert(s.subrange(j, j + 3)[n - 1 - j] == '`');
        }
    }
    text::lemma_next_occurrence(argument, fence(), from);
    match text::next_occurrence(argument, fence(), from) {
        None => {
            lemma_found_first(s, fence(), from, n);
            lemma_found_first(s, fence(), n, n);
            assert(blocks_from(argument, from) =~= Seq::<(int, int)>::empty());
            assert(fences_from(argument, from) =~= Seq::<int>::empty());
            assert(blocks_from(s, from) == blocks_from(s, n));
            assert(fences_from(s, from) == fences_from(s, n));
            assert(blocks_from(argument, from) + blocks_from(s, n) =~= blocks_from(s, n));
            assert(fences_from(argument, from) + fences_from(s, n) =~= fences_from(s, n));
        },
        Some(open) => {
            let newline = text::next_occurrence(argument, line_end(), open + 3)->0;
            let close = text::next_occurrence(argument, fence(), open + 3)->0;
            text::lemma_next_occurrence(argument, line_end(), open + 3);
            text::lemma_next_occurrence(argument, fence(), open + 3);
            lemma_occurs_in_stretch(s, 0, argument, fence(), open);
            lemma_occurs_in_stretch(s, 0, argument, fence(), close);
            lemma_occurs_in_stretch(s, 0, argument, line_end(), newline);
            assert forall|j: int| open + 3 <= j < newline implies !text::occurs_at(
                s,
                line_end(),
                j,
            ) by {
                lemma_occurs_in_stretch(s, 0, argument, line_end(), j);
            }
            lemma_found_first(s, fence(), from, open);
            lemma_found_first(s, line_end(), open + 3, newline);
            lemma_found_first(s, fence(), open + 3, close);
            lemma_found_first(s, fence(), newline + 1, close);
            lemma_found_first(argument, fence(), newline + 1, close);
            lemma_argument_comes_first(argument, rest, close + 3);

            let block = seq![(newline + 1, close)];
            assert(blocks_from(s, from) == block + blocks_from(s, close + 3));
            assert(blocks_from(argument, from) == block + blocks_from(argument, close + 3));
            assert(blocks_from(s, from) =~= blocks_from(argument, from) + blocks_from(s, n));

            lemma_found_first(s, fence(), close, close);
            lemma_found_first(argument, fence(), close, close);
            let pair = seq![open] + (seq![close] + fences_from(s, close + 3));
            assert(fences_from(s, open + 3) == seq![close] + fences_from(s, close + 3));
            assert(fences_from(s, from) == pair);
            assert(fences_from(argument, open + 3) == seq![close] + fences_from(
                argument,
                close + 3,
            ));
            assert(fences_from(argument, from) == seq![open] + fences_from(argument, open + 3));
            assert(fences_from(s, from) =~= fences_from(argument, from) + fences_from(s, n));
        },
    }
}

/// A closing block is read back: a reply that ends in a block, written after an
/// argument that may itself quote whole blocks, gives that block's body as the
/// one to read and the argument as the prose.
pub proof fn law_a_closing_block_is_read_back(
    argument: Seq<char>,
    tag: Seq<char>,
    body: Seq<char>,
    tail: Seq<char>,
)
    requires
        settled_from(argument, 0),
        takes_a_fence(argument),
        !tag.contains('\n'),
        !text::occurs(tag, fence()),
        !text::occurs(body, fence()),
        takes_a_fence(body),
        !text::occurs(tail, fence()),
    ensures
        last_body(reply_with_block(argument, tag, body, tail)) == Some(body),
        prose_of(reply_with_block(argument, tag, body, tail)) == text::trimmed(argument),
{
    let s = reply_with_block(argument, tag, body, tail);
    let n = argument.len() as int;
    let rest = fence() + tag + line_end() + body + fence() + tail;
    assert(s =~= argument + rest);
    assert(rest.subrange(0, 3) =~= fence());
    lemma_argument_comes_first(argument, rest, 0);

    let newline = n + 3 + tag.len();
    let close = newline + 1 + body.len();
    assert(s.subrange(n, newline + 1) =~= fence() + tag + line_end());
    lemma_opening_line(s, n, tag);
    assert(s.subrange(newline + 1, close) =~= body);
    assert(s.subrange(close, close + 3) =~= fence());
    assert(text::occurs_at(s, fence(), close));
    assert forall|j: int| newline + 1 <= j < close implies !text::occurs_at(s, fence(), j) by {
        lemma_no_fence_in_stretch(s, newline + 1, body, j);
    }
    assert(s.subrange(close + 3, s.len() as int) =~= tail);
    assert forall|j: int| close + 3 <= j implies !text::occurs_at(s, fence(), j) by {
        if j + 3 <= s.len() {
            lemma_occurs_in_stretch(s, close + 3, tail, fence(), j);
        }
    }
    text::lemma_next_occurrence(s, fence(), close + 3);
    lemma_found_first(s, fence(), newline + 1, close);
    lemma_found_first(s, fence(), n + 3, close);

    let here = blocks_from(s, n);
    assert(blocks_from(s, close + 3) =~= Seq::<(int, int)>::empty());
    assert(here =~= seq![(newline + 1, close)]);
    assert(blocks_from(s, 0).last() == (newline + 1, close));

    assert(fences_from(s, close + 3) =~= Seq::<int>::empty());
    assert(fences_from(s, n + 3) =~= seq![close]);
    assert(fences_from(s, n) =~= seq![n, close]);
    let all = fences_from(s, 0);
    assert(all[all.len() - 2] == n);
    assert(s.subrange(0, n) =~= argument);
}

/// A block that nothing closes still counts: its body is the rest of the reply,
/// and the prose is what stands before it.
pub proof fn law_an_open_block_is_read_to_the_end(
    argument: Seq<char>,
    tag: Seq<char>,
    body: Seq<char>,
)
    requires
        settled_from(argument, 0),
        takes_a_fence(argument),
        !tag.contains('\n'),
        !text::occurs(tag, fence()),
        !text::occurs(body, fence()),
    ensures
        last_body(reply_cut_short(argument, tag, body)) == Some(body),
        prose_of(reply_cut_short(argument, tag, body)) == text::trimmed(argument),
{
    let s = reply_cut_short(argument, tag, body);
    let n = argument.len() as int;
    let rest = fence() + tag + line_end() + body;
    assert(s =~= argument + rest);
    assert(rest.subrange(0, 3) =~= fence());
    lemma_argument_comes_first(argument, rest, 0);

    let newline = n + 3 + tag.len();
    assert(s.subrange(n, newline + 1) =~= fence() + tag + line_end());
    lemma_opening_line(s, n, tag);
    assert(s.subrange(newline + 1, s.len() as int) =~= body);
    assert forall|j: int| newline + 1 <= j implies !text::occurs_at(s, fence(), j) by {
        if j + 3 <= s.len() {
            lemma_occurs_in_stretch(s, newline + 1, body, fence(), j);
        }
    }
    text::lemma_next_occurrence(s, fence(), newline + 1);
    text::lemma_next_occurrence(s, fence(), n + 3);

    assert(blocks_from(s, n) =~= seq![(newline + 1, s.len() as int)]);
    assert(blocks_from(s, 0).last() == (newline + 1, s.len() as int));
    assert(fences_from(s, n + 3) =~= Seq::<int>::empty());
    assert(fences_from(s, n) =~= seq![n]);
    assert(fences_from(s, 0).last() == n);
    assert(s.subrange(0, n) =~= argument);
}

/// What searching finds on the line a block opens on.
proof fn lemma_opening_line(s: Seq<char>, n: int, tag: Seq<char>)
    requires
        0 <= n,
        n + 3 + tag.len() + 1 <= s.len(),
        s.subrange(n, n + 3 + tag.len() + 1) == fence() + tag + line_end(),
        !tag.contains('\n'),
        !text::occurs(tag, fence()),
    ensures
        text::occurs_at(s, fence(), n),
        text::next_occurrence(s, fence(), n) == Some(n),
        text::next_occurrence(s, line_end(), n + 3) == Some(n + 3 + tag.len()),
        forall|j: int|
            n + 3 <= j <= n + 3 + tag.len() ==> !#[trigger] text::occurs_at(s, fence(), j),
{
    let line = fence() + tag + line_end();
    let newline = n + 3 + tag.len();
    assert forall|i: int| n <= i <= newline implies #[trigger] s[i] == line[i - n] by {
        assert(s.subrange(n, newline + 1)[i - n] == s[i]);
    }
    assert(s[newline] == '\n');
    assert(text::occurs_at(s, fence(), n)) by {
        assert(s.subrange(n, n + 3) =~= fence());
    }
    assert(text::occurs_at(s, line_end(), newline)) by {
        assert(s.subrange(newline, newline + 1) =~= line_end());
    }
    assert(s.subrange(n + 3, newline) =~= tag);
    lemma_found_first(s, fence(), n, n);
    assert forall|j: int| n + 3 <= j < newline implies !text::occurs_at(s, line_end(), j) by {
        if text::occurs_at(s, line_end(), j) {
            assert(s.subrange(j, j + 1)[0] == s[j]);
            assert(tag[j - n - 3] == s[j]);
        }
    }
    lemma_found_first(s, line_end(), n + 3, newline);
    assert forall|j: int| n + 3 <= j <= newline implies !#[trigger] text::occurs_at(
        s,
        fence(),
        j,
    ) by {
        if j + 3 <= newline {
            lemma_occurs_in_stretch(s, n + 3, tag, fence(), j);
        } else if text::occurs_at(s, fence(), j) {
            assert(s.subrange(j, j + 3)[newline - j] == s[newline]);
        }
    }
}

/// A reply without any fence has no block, and is prose from end to end.
pub proof fn law_prose_without_a_fence_is_kept_whole(s: Seq<char>)
    requires
        !text::occurs(s, fence()),
    ensures
        last_block(s) is None,
        prose_of(s) == text::trimmed(s),
{
    text::lemma_next_occurrence(s, fence(), 0);
}

/// The argument of a turn is always a stretch at the start of the reply,
/// without the white space around it: it ends at the fence that opens the final
/// block, and where there is none it is the whole reply.
pub proof fn law_prose_is_a_stretch_from_the_start(s: Seq<char>) -> (end: int)
    ensures
        0 <= end <= s.len(),
        prose_of(s) == text::trimmed(s.subrange(0, end)),
        opening_fence(s) matches Some(at) ==> end == at && text::occurs_at(s, fence(), at),
        opening_fence(s) is None ==> end == s.len(),
{
    lemma_fences_are_fences(s, 0);
    match opening_fence(s) {
        Some(at) => {
            at
        },
        None => {
            assert(s.subrange(0, s.len() as int) =~= s);
            s.len() as int
        },
    }
}

/// Every position listed as a fence holds one.
proof fn lemma_fences_are_fences(s: Seq<char>, from: int)
    requires
        0 <= from,
    ensures
        forall|i: int|
            0 <= i < fences_from(s, from).len() ==> text::occurs_at(
                s,
                fence(),
                #[trigger] fences_from(s, from)[i],
            ),
    decreases s.len() - from,
{
    text::lemma_next_occurrence(s, fence(), from);
    if let Some(at) = text::next_occurrence(s, fence(), from) {
        lemma_fences_are_fences(s, at + 3);
        let rest = fences_from(s, at + 3);
        let all = fences_from(s, from);
        assert(all == seq![at] + rest);
        assert forall|i: int| 0 <= i < all.len() implies text::occurs_at(
            s,
            fence(),
            #[trigger] all[i],
        ) by {
            if i > 0 {
                assert(all[i] == rest[i - 1]);
            }
        }
    }
}


/// Searching a text from a place on is searching what stands behind that place.
proof fn lemma_search_behind(s: Seq<char>, pat: Seq<char>, k: int, from: int)
    requires
        0 <= k <= s.len(),
        0 <= from,
        pat.len() > 0,
    ensures
        text::next_occurrence(s, pat, k + from) is Some <==> text::next_occurrence(
            s.skip(k),
            pat,
            from,
        ) is Some,
        text::next_occurrence(s.skip(k), pat, from) matches Some(i) ==> text::next_occurrence(
            s,
            pat,
            k + from,
        ) == Some(k + i),
    decreases s.len() - k - from + 1,
{
    let rest = s.skip(k);
    if k + from + pat.len() <= s.len() {
        assert(rest.subrange(from, from + pat.len()) =~= s.subrange(
            k + from,
            k + from + pat.len(),
        ));
        if !text::occurs_at(rest, pat, from) {
            lemma_search_behind(s, pat, k, from + 1);
        }
    }
}

/// The blocks of a text from a place on are those of what stands behind it.
proof fn lemma_blocks_behind(s: Seq<char>, k: int, from: int)
    requires
        0 <= k <= s.len(),
        0 <= from,
    ensures
        blocks_from(s, k + from) == blocks_from(s.skip(k), from).map_values(
            |b: (int, int)| (b.0 + k, b.1 + k),
        ),
    decreases s.len() - k - from,
{
    let rest = s.skip(k);
    let shift = |b: (int, int)| (b.0 + k, b.1 + k);
    lemma_search_behind(s, fence(), k, from);
    text::lemma_next_occurrence(rest, fence(), from);
    match text::next_occurrence(rest, fence(), from) {
        None => {
            assert(blocks_from(s, k + from) =~= blocks_from(rest, from).map_values(shift));
        },
        Some(open) => {
            lemma_search_behind(s, line_end(), k, open + 3);
            text::lemma_next_occurrence(rest, line_end(), open + 3);
            match text::next_occurrence(rest, line_end(), open + 3) {
                None => {
                    assert(blocks_from(s, k + from) =~= blocks_from(rest, from).map_values(shift));
                },
                Some(newline) => {
                    lemma_search_behind(s, fence(), k, newline + 1);
                    text::lemma_next_occurrence(rest, fence(), newline + 1);
                    match text::next_occurrence(rest, fence(), newline + 1) {
                        None => {
                            assert(blocks_from(s, k + from) =~= blocks_from(rest, from).map_values(
                                shift,
                            ));
                        },
                        Some(close) => {
                            lemma_blocks_behind(s, k, close + 3);
                            let here = seq![(newline + 1, close)];
                            assert(blocks_from(rest, from) == here + blocks_from(rest, close + 3));
                            assert(blocks_from(s, k + from) == seq![
                                (k + newline + 1, k + close),
                            ] + blocks_from(s, k + close + 3));
                            assert(blocks_from(s, k + from) =~= blocks_from(rest, from).map_values(
                                shift,
                            ));
                        },
                    }
                },
            }
        },
    }
}

/// The fences of a text from a place on are those of what stands behind it.
proof fn lemma_fences_behind(s: Seq<char>, k: int, from: int)
    requires
        0 <= k <= s.len(),
        0 <= from,
    ensures
        fences_from(s, k + from) == fences_from(s.skip(k), from).map_values(|f: int| f + k),
    decreases s.len() - k - from,
{
    let rest = s.skip(k);
    let shift = |f: int| f + k;
    lemma_search_behind(s, fence(), k, from);
    text::lemma_next_occurrence(rest, fence(), from);
    match text::next_occurrence(rest, fence(), from) {
        None => {
            assert(fences_from(s, k + from) =~= fences_from(rest, from).map_values(shift));
        },
        Some(at) => {
            lemma_fences_behind(s, k, at + 3);
            assert(fences_from(rest, from) == seq![at] + fences_from(rest, at + 3));
            assert(fences_from(s, k + from) == seq![k + at] + fences_from(s, k + at + 3));
            assert(fences_from(s, k + from) =~= fences_from(rest, from).map_values(shift));
        },
    }
}

/// Every block that is found lies in the text it is found in.
proof fn lemma_blocks_lie_inside(s: Seq<char>, from: int)
    requires
        0 <= from,
    ensures
        forall|i: int|
            0 <= i < blocks_from(s, from).len() ==> 0 <= (#[trigger] blocks_from(s, from)[i]).0
                <= blocks_from(s, from)[i].1 <= s.len(),
    decreases s.len() - from,
{
    text::lemma_next_occurrence(s, fence(), from);
    if let Some(open) = text::next_occurrence(s, fence(), from) {
        text::lemma_next_occurrence(s, line_end(), open + 3);
        if let Some(newline) = text::next_occurrence(s, line_end(), open + 3) {
            text::lemma_next_occurrence(s, fence(), newline + 1);
            if let Some(close) = text::next_occurrence(s, fence(), newline + 1) {
                lemma_blocks_lie_inside(s, close + 3);
                let rest = blocks_from(s, close + 3);
                let all = blocks_from(s, from);
                assert(all == seq![(newline + 1, close)] + rest);
                assert forall|i: int| 0 <= i < all.len() implies 0 <= (#[trigger] all[i]).0
                    <= all[i].1 <= s.len() by {
                    if i > 0 {
                        assert(all[i] == rest[i - 1]);
                    }
                }
            }
        }
    }
}

/// How the last block of a reply is found. Where the first three backticks and,
/// from the line after them on, the next three set off a block, it is the last
/// block of what follows, if anything there is one, and else what stands between
/// the two.
pub proof fn law_the_last_block_is_the_one_read(s: Seq<char>, open: int, newline: int, close: int)
    requires
        0 <= open && text::occurs_at(s, "```"@, open) && (forall|j: int|
            0 <= j < open ==> !#[trigger] text::occurs_at(s, "```"@, j)),
        open + 3 <= newline && text::occurs_at(s, "\n"@, newline) && (forall|j: int|
            open + 3 <= j < newline ==> !#[trigger] text::occurs_at(s, "\n"@, j)),
        newline + 1 <= close && text::occurs_at(s, "```"@, close) && (forall|j: int|
            newline + 1 <= j < close ==> !#[trigger] text::occurs_at(s, "```"@, j)),
    ensures
        last_body(s) == match last_body(s.skip(close + 3)) {
            Some(body) => Some(body),
            None => Some(s.subrange(newline + 1, close)),
        },
{
    let rest = s.skip(close + 3);
    lemma_marks();
    lemma_found_first(s, fence(), 0, open);
    lemma_found_first(s, line_end(), open + 3, newline);
    lemma_found_first(s, fence(), newline + 1, close);
    lemma_blocks_behind(s, close + 3, 0);
    lemma_blocks_lie_inside(rest, 0);
    let all = blocks_from(s, 0);
    let behind = blocks_from(rest, 0);
    let moved = blocks_from(s, close + 3);
    assert(all == seq![(newline + 1, close)] + moved);
    assert(moved.len() == behind.len());
    if behind.len() > 0 {
        assert(all.last() == moved.last());
        let (x, y) = behind.last();
        assert(behind[behind.len() - 1] == (x, y));
        assert(moved.last() == (x + close + 3, y + close + 3));
        assert(s.subrange(x + close + 3, y + close + 3) =~= rest.subrange(x, y));
    } else {
        assert(all.last() == (newline + 1, close));
    }
}

/// A reply whose first block is never closed has everything from the next line
/// on as its body; one without a line after its first three backticks, and one
/// without any backticks, has no block.
pub proof fn law_a_block_may_be_open_or_missing(s: Seq<char>, open: int, newline: int)
    ensures
        (forall|j: int|
            0 <= j ==> !#[trigger] text::occurs_at(s, "```"@, j)) ==> last_body(
            s,
        ) is None,
        0 <= open && text::occurs_at(s, "```"@, open) && (forall|j: int|
            0 <= j < open ==> !#[trigger] text::occurs_at(s, "```"@, j)) && (forall|j: int|
            open + 3 <= j ==> !#[trigger] text::occurs_at(s, "\n"@, j)) ==> last_body(
            s,
        ) is None,
        0 <= open && text::occurs_at(s, "```"@, open) && (forall|j: int|
            0 <= j < open ==> !#[trigger] text::occurs_at(s, "```"@, j)) && open + 3 <= newline
            && text::occurs_at(s, "\n"@, newline) && (forall|j: int|
            open + 3 <= j < newline ==> !#[trigger] text::occurs_at(s, "\n"@, j)) && (forall|j: int|
            newline + 1 <= j ==> !#[trigger] text::occurs_at(s, "```"@, j))
            ==> last_body(s) == Some(s.skip(newline + 1)),
{
    lemma_marks();
    text::lemma_next_occurrence(s, fence(), 0);
    if 0 <= open {
        text::lemma_next_occurrence(s, line_end(), open + 3);
        if open + 3 <= newline {
            text::lemma_next_occurrence(s, fence(), newline + 1);
            assert(s.subrange(newline + 1, s.len() as int) =~= s.skip(newline + 1));
            assert(seq![(newline + 1, s.len() as int)].last() == (newline + 1, s.len() as int));
        }
    }
}

/// How the fence that opens the final block is found: fences pair up from the
/// start, so after two of them it is the one of what follows, if there is any,
/// and else the first of the two; a fence without a second opens the block
/// itself, and without any there is none.
pub proof fn law_fences_pair_up(s: Seq<char>, first: int, second: int)
    ensures
        (forall|j: int|
            0 <= j ==> !#[trigger] text::occurs_at(s, "```"@, j)) ==> opening_fence(
            s,
        ) is None,
        0 <= first && text::occurs_at(s, "```"@, first) && (forall|j: int|
            0 <= j < first ==> !#[trigger] text::occurs_at(s, "```"@, j)) && (forall|j: int|
            first + 3 <= j ==> !#[trigger] text::occurs_at(s, "```"@, j))
            ==> opening_fence(s) == Some(first),
        0 <= first && text::occurs_at(s, "```"@, first) && (forall|j: int|
            0 <= j < first ==> !#[trigger] text::occurs_at(s, "```"@, j)) && first + 3 <= second
            && text::occurs_at(s, "```"@, second) && (forall|j: int|
            first + 3 <= j < second ==> !#[trigger] text::occurs_at(s, "```"@, j))
            ==> opening_fence(s) == match opening_fence(s.skip(second + 3)) {
            Some(at) => Some(second + 3 + at),
            None => Some(first),
        },
{
    let ticks = "```"@;
    lemma_marks();
    text::lemma_next_occurrence(s, fence(), 0);
    if 0 <= first && text::occurs_at(s, ticks, first) && (forall|j: int|
            0 <= j < first ==> !#[trigger] text::occurs_at(s, ticks, j)) {
        lemma_found_first(s, fence(), 0, first);
        text::lemma_next_occurrence(s, fence(), first + 3);
        let all = fences_from(s, 0);
        assert(all == seq![first] + fences_from(s, first + 3));
        if (forall|j: int| first + 3 <= j ==> !#[trigger] text::occurs_at(s, ticks, j)) {
            assert(fences_from(s, first + 3) =~= Seq::<int>::empty());
            assert(all =~= seq![first]);
        }
        if first + 3 <= second && text::occurs_at(s, ticks, second) && (forall|j: int|
            first + 3 <= j < second ==> !#[trigger] text::occurs_at(s, ticks, j)) {
            lemma_found_first(s, fence(), first + 3, second);
            lemma_fences_behind(s, second + 3, 0);
            let behind = fences_from(s.skip(second + 3), 0);
            let moved = fences_from(s, second + 3);
            assert(fences_from(s, first + 3) == seq![second] + moved);
            assert(all =~= seq![first, second] + moved);
            assert(moved.len() == behind.len());
            if behind.len() % 2 == 1 {
                assert(all.last() == moved.last());
                assert(moved.last() == behind.last() + second + 3);
            } else if behind.len() > 0 {
                assert(all[all.len() - 2] == moved[moved.len() - 2]);
                assert(moved[moved.len() - 2] == behind[behind.len() - 2] + second + 3);
            }
        }
    }
}

/// What opens, closes, and ends a line, as text.
proof fn lemma_marks()
    ensures
        fence() == "```"@,
        line_end() == "\n"@,
{
    reveal_strlit("```");
    reveal_strlit("\n");
    assert(fence() =~= "```"@);
    assert(line_end() =~= "\n"@);
}

/// The prose of a reply is what stands before the fence that opens its final
/// block, or all of it, without the white space around it.
pub proof fn law_prose_ends_at_the_final_block(s: Seq<char>)
    ensures
        opening_fence(s) matches Some(at) ==> 0 <= at <= s.len() && prose_of(s) == text::trimmed(
            s.take(at),
        ),
        opening_fence(s) is None ==> prose_of(s) == text::trimmed(s),
{
    lemma_fences_are_fences(s, 0);
    if let Some(at) = opening_fence(s) {
        assert(s.subrange(0, at) =~= s.take(at));
    }
}

/// What a label makes of a claim: agreed or disputed where it is that word in
/// whatever case, and unresolved otherwise.
pub proof fn law_labels_settle_a_claims_standing(label: Seq<char>)
    ensures
        kind_of(label) == ClaimKind::Agreed <==> text::same_ignoring_case(label, "agreed"@),
        kind_of(label) == ClaimKind::Disputed <==> text::same_ignoring_case(label, "disputed"@),
{
    reveal_strlit("agreed");
    reveal_strlit("disputed");
    assert("agreed"@.len() == 6);
    assert("disputed"@.len() == 8);
}

/// What a claim comes to: nothing where its text is blank, and otherwise its text
/// as it stands, with the standing its label gives it. Claims keep their order.
pub proof fn law_claims_are_kept_in_order(a: Seq<RawClaim>, b: Seq<RawClaim>, claim: RawClaim)
    ensures
        claims_of(Seq::empty()).len() == 0,
        text::is_blank(claim.text@) ==> claims_of(seq![claim]).len() == 0,
        !text::is_blank(claim.text@) ==> claims_of(seq![claim]).len() == 1 && claims_of(
            seq![claim],
        )[0].text == claim.text@ && claims_of(seq![claim])[0].kind == kind_of(claim.kind@),
        claims_of(a + b) == claims_of(a) + claims_of(b),
    decreases b.len(),
{
    assert(seq![claim].drop_last() =~= Seq::<RawClaim>::empty());
    assert(seq![claim].last() == claim);
    assert(claims_of(Seq::empty()) =~= Seq::<ClaimView>::empty());
    if b.len() == 0 {
        assert(a + b =~= a);
        assert(claims_of(a) + claims_of(b) =~= claims_of(a));
    } else {
        law_claims_are_kept_in_order(a, b.drop_last(), claim);
        assert((a + b).drop_last() =~= a + b.drop_last());
        assert((a + b).last() == b.last());
        assert(claims_of(a + b) =~= claims_of(a) + claims_of(b));
    }
}

/// What a turn's structure comes to. Without a block there is none, whatever was
/// read. A block that could not be read leaves nothing but the reason. One that
/// was read gives every field as the model stated it, with a confidence outside
/// the range brought to its nearer end.
pub proof fn law_structure_comes_from_the_block(
    s: Seq<char>,
    block: StructuredBlock,
    reason: String,
    decoded: Result<StructuredBlock, String>,
)
    ensures
        last_body(s) is None ==> turn_analysis(s, decoded) == state::no_structure(
            ParseView::Missing,
        ),
        last_body(s) is Some ==> turn_analysis(s, Err(reason)) == state::no_structure(
            ParseView::Malformed { reason: reason@ },
        ),
        last_body(s) is Some ==> ({
            let a = turn_analysis(s, Ok(block));
            &&& a.parse_status == ParseView::Readable
            &&& a.credence is Some <==> block.credence is Some
            &&& block.credence matches Some(value) ==> a.credence == Some(
                if value < 0 {
                    0int
                } else if value > 100 {
                    100int
                } else {
                    value as int
                },
            )
            &&& a.moved_because == text::opt_text(block.moved_because)
            &&& a.key_claim == text::opt_text(block.key_claim)
            &&& a.crux == text::opt_text(block.crux)
            &&& a.conceded == text::texts(block.conceded@)
            &&& a.claims == claims_of(block.claims@)
        }),
{
}

} // verus!
