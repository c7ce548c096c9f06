//! Text primitives: white space, trimming, searching, and number rendering.
//!
//! Text is modelled as a sequence of Unicode scalar values. Positions are
//! counted in those scalars, never in bytes, so a position is always a place
//! where the text can be cut.

use vstd::prelude::*;

verus! {

/// The code points with the Unicode `White_Space` property.
pub open spec fn is_white(c: char) -> bool {
    ||| '\u{9}' <= c <= '\u{d}'
    ||| c == '\u{20}'
    ||| c == '\u{85}'
    ||| c == '\u{a0}'
    ||| c == '\u{1680}'
    ||| '\u{2000}' <= c <= '\u{200a}'
    ||| '\u{2028}' <= c <= '\u{2029}'
    ||| c == '\u{202f}'
    ||| c == '\u{205f}'
    ||| c == '\u{3000}'
}

/// Nothing but white space, which an empty text is too.
pub open spec fn is_blank(s: Seq<char>) -> bool {
    forall|i: int| 0 <= i < s.len() ==> is_white(#[trigger] s[i])
}

/// The text without the white space at either end.
pub open spec fn trimmed(s: Seq<char>) -> Seq<char>
    decreases s.len(),
{
    if s.len() == 0 {
        s
    } else if is_white(s.first()) {
        trimmed(s.drop_first())
    } else if is_white(s.last()) {
        trimmed(s.drop_last())
    } else {
        s
    }
}

/// `pat` stands in `s` starting at position `i`.
pub open spec fn occurs_at(s: Seq<char>, pat: Seq<char>, i: int) -> bool {
    &&& 0 <= i
    &&& i + pat.len() <= s.len()
    &&& s.subrange(i, i + pat.len()) == pat
}

/// `pat` stands somewhere in `s`.
pub open spec fn occurs(s: Seq<char>, pat: Seq<char>) -> bool {
    exists|i: int| occurs_at(s, pat, i)
}

/// The first position at or after `from` where `pat` stands in `s`.
pub open spec fn next_occurrence(s: Seq<char>, pat: Seq<char>, from: int) -> Option<int>
    decreases s.len() - from + 1,
{
    if from < 0 || from + pat.len() > s.len() {
        None
    } else if occurs_at(s, pat, from) {
        Some(from)
    } else {
        next_occurrence(s, pat, from + 1)
    }
}

/// The character of a decimal digit.
pub open spec fn digit_char(d: nat) -> char {
    ('0' as int + d) as char
}

/// A number in base ten, without leading zeros.
pub open spec fn decimal(n: nat) -> Seq<char>
    decreases n,
{
    if n < 10 {
        seq![digit_char(n)]
    } else {
        decimal(n / 10).push(digit_char(n % 10))
    }
}

/// The number that a run of decimal digits stands for.
pub open spec fn decimal_value(s: Seq<char>) -> int
    decreases s.len(),
{
    if s.len() == 0 {
        0
    } else {
        10 * decimal_value(s.drop_last()) + (s.last() as int - '0' as int)
    }
}

/// Spaces put before a text until it is `width` long.
pub open spec fn padded_left(s: Seq<char>, width: int) -> Seq<char>
    decreases width - s.len(),
{
    if s.len() >= width {
        s
    } else {
        padded_left(seq![' '] + s, width)
    }
}

/// The parts in order, with `sep` between neighbours.
pub open spec fn joined(parts: Seq<Seq<char>>, sep: Seq<char>) -> Seq<char>
    decreases parts.len(),
{
    if parts.len() == 0 {
        Seq::empty()
    } else if parts.len() == 1 {
        parts[0]
    } else {
        joined(parts.drop_last(), sep) + sep + parts.last()
    }
}

/// An ASCII capital letter as its small letter; any other character as it is.
pub open spec fn ascii_lower(c: char) -> char {
    if 'A' <= c <= 'Z' {
        ((c as u32) + 32) as char
    } else {
        c
    }
}

/// Equal when ASCII letters are compared without regard to case.
pub open spec fn same_ignoring_case(a: Seq<char>, b: Seq<char>) -> bool {
    &&& a.len() == b.len()
    &&& forall|i: int| 0 <= i < a.len() ==> ascii_lower(#[trigger] a[i]) == ascii_lower(b[i])
}

/// The texts of a list of strings.
pub open spec fn texts(list: Seq<String>) -> Seq<Seq<char>> {
    list.map_values(|s: String| s@)
}

/// The text of an optional string.
pub open spec fn opt_text(s: Option<String>) -> Option<Seq<char>> {
    match s {
        Some(v) => Some(v@),
        None => None,
    }
}

/// Whether a character has the Unicode `White_Space` property.
pub fn is_white_space(c: char) -> (r: bool)
    ensures
        r == is_white(c),
{
    ('\u{9}' <= c && c <= '\u{d}') || c == '\u{20}' || c == '\u{85}' || c == '\u{a0}' || c
        == '\u{1680}' || ('\u{2000}' <= c && c <= '\u{200a}') || ('\u{2028}' <= c && c
        <= '\u{2029}') || c == '\u{202f}' || c == '\u{205f}' || c == '\u{3000}'
}

/// Where the `n`-th character of a text starts, counting bytes.
pub open spec fn byte_offset(s: Seq<char>, n: int) -> int {
    vstd::utf8::encode_utf8(s.take(n)).len() as int
}

/// Where a character starts, the bytes of a text can be divided, and what stands
/// before is the encoding of the characters before.
pub proof fn lemma_byte_offset(s: Seq<char>, n: int)
    requires
        0 <= n <= s.len(),
    ensures
        0 <= byte_offset(s, n) <= vstd::utf8::encode_utf8(s).len(),
        vstd::utf8::is_char_boundary(vstd::utf8::encode_utf8(s), byte_offset(s, n)),
        vstd::utf8::encode_utf8(s).subrange(0, byte_offset(s, n)) == vstd::utf8::encode_utf8(
            s.take(n),
        ),
    decreases n,
{
    vstd::utf8::encode_utf8_valid_utf8(s);
    let bytes = vstd::utf8::encode_utf8(s);
    let start = vstd::utf8::encode_utf8(s.take(n));
    if n > 0 {
        let rest = s.drop_first();
        lemma_byte_offset(rest, n - 1);
        vstd::utf8::encode_utf8_first_scalar(s);
        assert(s.take(n).drop_first() =~= rest.take(n - 1));
        assert(vstd::utf8::pop_first_scalar(bytes) =~= vstd::utf8::encode_utf8(rest));
        let first = vstd::utf8::encode_scalar(s[0] as u32);
        assert(bytes.subrange(0, start.len() as int) =~= first
            + vstd::utf8::encode_utf8(rest).subrange(0, byte_offset(rest, n - 1)));
    }
    assert(bytes.subrange(0, start.len() as int) =~= start);
}

/// The characters of a text that stand before the `at`-th byte.
pub(crate) fn before_byte<'a>(s: &'a str, at: usize, Ghost(n): Ghost<int>) -> (r: &'a str)
    requires
        0 <= n <= s@.len(),
        at == byte_offset(s@, n),
    ensures
        r@ == s@.take(n),
{
    proof {
        lemma_byte_offset(s@, n);
    }
    let (start, _rest) = s.split_at(at);
    proof {
        vstd::utf8::encode_utf8_decode_utf8(start@);
        vstd::utf8::encode_utf8_decode_utf8(s@.take(n));
    }
    start
}

/// The characters of a text, one per element.
pub fn chars_of(s: &str) -> (r: Vec<char>)
    ensures
        r@ == s@,
{
    let mut v: Vec<char> = Vec::new();
    for c in it: s.chars()
        invariant
            it.seq() == s@,
            v@ == it.seq().take(it.index() as int),
    {
        v.push(c);
    }
    v
}

/// Whether two texts are the same.
pub fn same(a: &str, b: &str) -> (r: bool)
    ensures
        r == (a@ == b@),
{
    a.to_owned() == b.to_owned()
}

/// Whether two texts are the same up to the case of ASCII letters.
pub fn same_but_case(a: &str, b: &str) -> (r: bool)
    ensures
        r == same_ignoring_case(a@, b@),
{
    let x = chars_of(a);
    let y = chars_of(b);
    if x.len() != y.len() {
        return false;
    }
    let mut i: usize = 0;
    while i < x.len()
        invariant
            i <= x.len(),
            x.len() == y.len(),
            x@ == a@,
            y@ == b@,
            forall|j: int| 0 <= j < i ==> ascii_lower(#[trigger] a@[j]) == ascii_lower(b@[j]),
        decreases x.len() - i,
    {
        if lower(x[i]) != lower(y[i]) {
            assert(ascii_lower(a@[i as int]) != ascii_lower(b@[i as int]));
            return false;
        }
        i += 1;
    }
    true
}

/// An ASCII capital letter as its small letter; any other character as it is.
fn lower(c: char) -> (r: char)
    ensures
        r == ascii_lower(c),
{
    if 'A' <= c && c <= 'Z' {
        let small: u8 = (c as u8) + 32;
        small as char
    } else {
        c
    }
}

/// Dropping a white character at the front does not change what trimming
/// leaves, and neither does dropping one at the back.
pub proof fn lemma_trim_drops_either_end(s: Seq<char>)
    requires
        s.len() > 0,
    ensures
        is_white(s.first()) ==> trimmed(s) == trimmed(s.drop_first()),
        is_white(s.last()) ==> trimmed(s) == trimmed(s.drop_last()),
    decreases s.len(),
{
    if is_white(s.first()) && is_white(s.last()) {
        if s.len() == 1 {
            assert(s.drop_first() =~= s.drop_last());
        } else {
            let front = s.drop_first();
            lemma_trim_drops_either_end(front);
            assert(front.last() == s.last());
            assert(s.drop_last().first() == s.first());
            assert(front.drop_last() =~= s.drop_last().drop_first());
        }
    }
}

/// A blank text trims to nothing, and only a blank one does.
pub proof fn lemma_trimmed_blank(s: Seq<char>)
    ensures
        trimmed(s).len() == 0 <==> is_blank(s),
    decreases s.len(),
{
    if s.len() > 0 {
        if is_white(s.first()) {
            lemma_trimmed_blank(s.drop_first());
            let t = s.drop_first();
            if is_blank(t) {
                assert forall|i: int| 0 <= i < s.len() implies is_white(#[trigger] s[i]) by {
                    if i > 0 {
                        assert(t[i - 1] == s[i]);
                    }
                }
            }
            if is_blank(s) {
                assert forall|i: int| 0 <= i < t.len() implies is_white(#[trigger] t[i]) by {
                    assert(t[i] == s[i + 1]);
                }
            }
        } else {
            assert(!is_blank(s)) by {
                assert(!is_white(s[0]));
            }
            if is_white(s.last()) {
                let t = s.drop_last();
                lemma_trimmed_blank(t);
                assert(t[0] == s[0]);
                assert(!is_blank(t));
            }
        }
    }
}

/// What trimming leaves: a stretch of the text with nothing but white space
/// before and after it, and no white space at its own ends.
pub proof fn law_trimming_leaves_the_inner_stretch(s: Seq<char>) -> (bounds: (int, int))
    ensures
        0 <= bounds.0 <= bounds.1 <= s.len(),
        trimmed(s) == s.subrange(bounds.0, bounds.1),
        forall|i: int| 0 <= i < bounds.0 ==> is_white(#[trigger] s[i]),
        forall|i: int| bounds.1 <= i < s.len() ==> is_white(#[trigger] s[i]),
        trimmed(s).len() > 0 ==> !is_white(trimmed(s).first()) && !is_white(trimmed(s).last()),
    decreases s.len(),
{
    if s.len() == 0 {
        assert(s.subrange(0, 0) =~= s);
        (0, 0)
    } else if is_white(s.first()) {
        let t = s.drop_first();
        let (a, b) = law_trimming_leaves_the_inner_stretch(t);
        assert(t.subrange(a, b) =~= s.subrange(a + 1, b + 1));
        assert forall|i: int| 0 <= i < a + 1 implies is_white(#[trigger] s[i]) by {
            if i > 0 {
                assert(t[i - 1] == s[i]);
            }
        }
        assert forall|i: int| b + 1 <= i < s.len() implies is_white(#[trigger] s[i]) by {
            assert(t[i - 1] == s[i]);
        }
        (a + 1, b + 1)
    } else if is_white(s.last()) {
        let t = s.drop_last();
        let (a, b) = law_trimming_leaves_the_inner_stretch(t);
        assert(t.subrange(a, b) =~= s.subrange(a, b));
        assert forall|i: int| 0 <= i < a implies is_white(#[trigger] s[i]) by {
            assert(t[i] == s[i]);
        }
        assert forall|i: int| b <= i < s.len() implies is_white(#[trigger] s[i]) by {
            if i < t.len() {
                assert(t[i] == s[i]);
            }
        }
        (a, b)
    } else {
        assert(s.subrange(0, s.len() as int) =~= s);
        (0, s.len() as int)
    }
}

/// The text without the white space at either end.
pub fn trim<'a>(s: &'a str) -> (r: &'a str)
    ensures
        r@ == trimmed(s@),
{
    let v = chars_of(s);
    let mut from: usize = 0;
    let mut to: usize = v.len();
    assert(s@.subrange(0, to as int) =~= s@);
    while from < to && is_white_space(v[from])
        invariant
            from <= to <= v.len(),
            v@ == s@,
            trimmed(s@.subrange(from as int, to as int)) == trimmed(s@),
        decreases to - from,
    {
        proof {
            let rest = s@.subrange(from as int, to as int);
            assert(rest.drop_first() =~= s@.subrange(from + 1, to as int));
        }
        from += 1;
    }
    while from < to && is_white_space(v[to - 1])
        invariant
            from <= to <= v.len(),
            v@ == s@,
            from < to ==> !is_white(s@[from as int]),
            trimmed(s@.subrange(from as int, to as int)) == trimmed(s@),
        decreases to - from,
    {
        proof {
            let rest = s@.subrange(from as int, to as int);
            lemma_trim_drops_either_end(rest);
            assert(rest.drop_last() =~= s@.subrange(from as int, to - 1));
        }
        to -= 1;
    }
    s.substring_char(from, to)
}

/// Whether a text is nothing but white space.
pub fn blank(s: &str) -> (r: bool)
    ensures
        r == is_blank(s@),
        r == (trimmed(s@).len() == 0),
{
    proof {
        lemma_trimmed_blank(s@);
    }
    let t = trim(s);
    t.is_empty()
}

/// What searching returns: the first match at or after `from`, if there is any.
pub proof fn lemma_next_occurrence(s: Seq<char>, pat: Seq<char>, from: int)
    requires
        0 <= from,
    ensures
        match next_occurrence(s, pat, from) {
            Some(i) => from <= i && occurs_at(s, pat, i) && forall|j: int|
                from <= j < i ==> !occurs_at(s, pat, j),
            None => forall|j: int| from <= j ==> !occurs_at(s, pat, j),
        },
    decreases s.len() - from + 1,
{
    if from + pat.len() <= s.len() && !occurs_at(s, pat, from) {
        lemma_next_occurrence(s, pat, from + 1);
    }
}

/// Whether `pat` stands in `s` at position `at`.
fn matches_at(s: &Vec<char>, pat: &Vec<char>, at: usize) -> (r: bool)
    requires
        at <= s.len(),
    ensures
        r == occurs_at(s@, pat@, at as int),
{
    if pat.len() > s.len() - at {
        return false;
    }
    let mut i: usize = 0;
    while i < pat.len()
        invariant
            i <= pat.len(),
            at + pat.len() <= s.len(),
            forall|j: int| 0 <= j < i ==> s@[at + j] == #[trigger] pat@[j],
        decreases pat.len() - i,
    {
        if s[at + i] != pat[i] {
            assert(s@.subrange(at as int, at + pat.len())[i as int] != pat@[i as int]);
            return false;
        }
        i += 1;
    }
    assert(s@.subrange(at as int, at + pat.len()) =~= pat@);
    true
}

/// The first position at or after `from` where `pat` stands in `s`.
pub fn find_from(s: &Vec<char>, pat: &Vec<char>, from: usize) -> (r: Option<usize>)
    requires
        from <= s.len(),
    ensures
        match r {
            Some(i) => next_occurrence(s@, pat@, from as int) == Some(i as int) && i + pat.len()
                <= s.len(),
            None => next_occurrence(s@, pat@, from as int) is None,
        },
{
    let mut i: usize = from;
    loop
        invariant
            from <= i <= s.len(),
            next_occurrence(s@, pat@, from as int) == next_occurrence(s@, pat@, i as int),
        decreases s.len() - i,
    {
        if pat.len() > s.len() - i {
            return None;
        }
        if matches_at(s, pat, i) {
            return Some(i);
        }
        if i == s.len() {
            assert(pat@.len() == 0);
            assert(s@.subrange(i as int, i as int) =~= pat@);
        }
        i += 1;
    }
}

/// One decimal digit as text.
fn digit(d: u64) -> (r: &'static str)
    requires
        d < 10,
    ensures
        r@ == seq![digit_char(d as nat)],
{
    proof {
        reveal_strlit("0");
        reveal_strlit("1");
        reveal_strlit("2");
        reveal_strlit("3");
        reveal_strlit("4");
        reveal_strlit("5");
        reveal_strlit("6");
        reveal_strlit("7");
        reveal_strlit("8");
        reveal_strlit("9");
    }
    let r = match d {
        0 => "0",
        1 => "1",
        2 => "2",
        3 => "3",
        4 => "4",
        5 => "5",
        6 => "6",
        7 => "7",
        8 => "8",
        _ => "9",
    };
    assert(r@ =~= seq![digit_char(d as nat)]);
    r
}

/// A number in base ten.
pub fn number(n: u64) -> (r: String)
    ensures
        r@ == decimal(n as nat),
    decreases n,
{
    if n < 10 {
        digit(n).to_owned()
    } else {
        let mut s = number(n / 10);
        s.append(digit(n % 10));
        assert(s@ =~= decimal((n / 10) as nat).push(digit_char((n % 10) as nat)));
        s
    }
}

/// A decimal rendering reads back as the number it came from.
pub proof fn law_numbers_read_back(n: nat)
    ensures
        decimal_value(decimal(n)) == n,
        decimal(n).len() > 0,
    decreases n,
{
    if n < 10 {
        let s = seq![digit_char(n)];
        assert(s.drop_last() =~= Seq::<char>::empty());
        assert(decimal_value(s.drop_last()) == 0);
    } else {
        law_numbers_read_back(n / 10);
        let s = decimal(n);
        assert(s.drop_last() =~= decimal(n / 10));
    }
}

/// Spaces put before a text until it is `width` long.
pub fn pad_left(s: String, width: usize) -> (r: String)
    ensures
        r@ == padded_left(s@, width as int),
{
    let mut len: usize = s.as_str().unicode_len();
    let mut r = s;
    proof {
        reveal_strlit(" ");
        assert(" "@ =~= seq![' ']);
    }
    while len < width
        invariant
            len == r@.len(),
            padded_left(r@, width as int) == padded_left(s@, width as int),
            " "@ == seq![' '],
        decreases width - len,
    {
        let mut wider = " ".to_owned();
        wider.append(r.as_str());
        r = wider;
        len += 1;
    }
    r
}

/// The parts in order, with `sep` between neighbours.
pub fn join(parts: &Vec<String>, sep: &str) -> (r: String)
    ensures
        r@ == joined(texts(parts@), sep@),
{
    let mut r = String::new();
    let mut i: usize = 0;
    while i < parts.len()
        invariant
            i <= parts.len(),
            r@ == joined(texts(parts@).take(i as int), sep@),
        decreases parts.len() - i,
    {
        proof {
            let so_far = texts(parts@).take(i as int);
            let more = texts(parts@).take(i + 1);
            assert(more.drop_last() =~= so_far);
            assert(more.last() == parts@[i as int]@);
        }
        if i > 0 {
            r.append(sep);
        }
        r.append(parts[i].as_str());
        if i == 0 {
            assert(r@ =~= parts@[0]@);
        }
        i += 1;
    }
    assert(texts(parts@).take(i as int) =~= texts(parts@));
    r
}

/// Whether `a` comes before `b` in the order of their characters' code points,
/// which is also the order of their bytes.
pub open spec fn precedes(a: Seq<char>, b: Seq<char>) -> bool
    decreases a.len(),
{
    if b.len() == 0 {
        false
    } else if a.len() == 0 {
        true
    } else if a.first() != b.first() {
        a.first() < b.first()
    } else {
        precedes(a.drop_first(), b.drop_first())
    }
}

/// Of two texts exactly one comes first, unless they are the same.
pub proof fn lemma_precedes_is_total(a: Seq<char>, b: Seq<char>)
    ensures
        a == b ==> !precedes(a, b) && !precedes(b, a),
        a != b ==> precedes(a, b) != precedes(b, a),
    decreases a.len(),
{
    if a.len() > 0 && b.len() > 0 && a.first() == b.first() {
        lemma_precedes_is_total(a.drop_first(), b.drop_first());
        if a.drop_first() == b.drop_first() {
            assert(a =~= seq![a.first()] + a.drop_first());
            assert(b =~= seq![b.first()] + b.drop_first());
        }
    } else if a.len() == 0 && b.len() == 0 {
        assert(a =~= b);
    }
}

/// What comes before a text comes before everything after it.
pub proof fn lemma_precedes_is_transitive(a: Seq<char>, b: Seq<char>, c: Seq<char>)
    requires
        precedes(a, b),
        precedes(b, c),
    ensures
        precedes(a, c),
    decreases a.len(),
{
    if a.len() > 0 && a.first() == b.first() && b.first() == c.first() {
        lemma_precedes_is_transitive(a.drop_first(), b.drop_first(), c.drop_first());
    }
}

/// Whether `a` comes before `b` in the order of their characters' code points.
pub fn comes_first(a: &str, b: &str) -> (r: bool)
    ensures
        r == precedes(a@, b@),
{
    let x = chars_of(a);
    let y = chars_of(b);
    let mut i: usize = 0;
    assert(a@.skip(0) =~= a@);
    assert(b@.skip(0) =~= b@);
    while i < x.len() && i < y.len()
        invariant
            x@ == a@,
            y@ == b@,
            i <= x.len(),
            i <= y.len(),
            precedes(a@, b@) == precedes(a@.skip(i as int), b@.skip(i as int)),
        decreases x.len() - i,
    {
        if x[i] != y[i] {
            return x[i] < y[i];
        }
        assert(a@.skip(i as int).drop_first() =~= a@.skip(i + 1));
        assert(b@.skip(i as int).drop_first() =~= b@.skip(i + 1));
        i += 1;
    }
    i < y.len()
}

/// Which characters are white space, by their code points.
pub proof fn law_white_space_by_code_point(c: char)
    ensures
        is_white(c) <==> ({
            let n = c as int;
            9 <= n <= 13 || n == 32 || n == 133 || n == 160 || n == 5760 || 8192 <= n <= 8202 || n
                == 8232 || n == 8233 || n == 8239 || n == 8287 || n == 12288
        }),
{
}

/// A text is blank exactly when both of its halves are, wherever it is divided;
/// an empty one is, and a single character is when it is white space.
pub proof fn law_blank_texts_are_blank_throughout(a: Seq<char>, b: Seq<char>, c: char)
    ensures
        is_blank(a + b) <==> is_blank(a) && is_blank(b),
        is_blank(Seq::<char>::empty()),
        is_blank(seq![c]) <==> is_white(c),
{
    let whole = a + b;
    if is_blank(whole) {
        assert forall|i: int| 0 <= i < a.len() implies is_white(#[trigger] a[i]) by {
            assert(whole[i] == a[i]);
        }
        assert forall|i: int| 0 <= i < b.len() implies is_white(#[trigger] b[i]) by {
            assert(whole[a.len() + i] == b[i]);
        }
    }
    assert(seq![c][0] == c);
}

/// White space around a text is what trimming takes away, and all that it
/// takes away.
pub proof fn law_trimming_undoes_surrounding_space(before: Seq<char>, s: Seq<char>, after: Seq<char>)
    requires
        is_blank(before),
        is_blank(after),
        s.len() > 0 ==> !is_white(s.first()) && !is_white(s.last()),
    ensures
        trimmed(before + s + after) == s,
    decreases before.len() + after.len(),
{
    let whole = before + s + after;
    if before.len() > 0 {
        let rest = before.drop_first();
        assert(is_white(before[0]));
        assert(whole.first() == before[0]);
        assert(whole.drop_first() =~= rest + s + after);
        assert forall|i: int| 0 <= i < rest.len() implies is_white(#[trigger] rest[i]) by {
            assert(rest[i] == before[i + 1]);
        }
        law_trimming_undoes_surrounding_space(rest, s, after);
    } else if after.len() > 0 {
        let rest = after.drop_last();
        assert(is_white(after[after.len() - 1]));
        assert(whole.last() == after.last());
        assert(whole.drop_last() =~= before + s + rest);
        assert forall|i: int| 0 <= i < rest.len() implies is_white(#[trigger] rest[i]) by {
            assert(rest[i] == after[i]);
        }
        law_trimming_undoes_surrounding_space(before, s, rest);
        lemma_trim_drops_either_end(whole);
    } else {
        assert(whole =~= s);
    }
}

/// A text stands where every one of its characters does.
pub proof fn law_an_occurrence_is_character_by_character(s: Seq<char>, pat: Seq<char>, i: int)
    ensures
        occurs_at(s, pat, i) <==> 0 <= i && i + pat.len() <= s.len() && forall|k: int|
            0 <= k < pat.len() ==> s[i + k] == #[trigger] pat[k],
{
    if occurs_at(s, pat, i) {
        assert forall|k: int| 0 <= k < pat.len() implies s[i + k] == #[trigger] pat[k] by {
            assert(s.subrange(i, i + pat.len())[k] == s[i + k]);
        }
    }
    if 0 <= i && i + pat.len() <= s.len() && (forall|k: int|
        0 <= k < pat.len() ==> s[i + k] == #[trigger] pat[k]) {
        assert(s.subrange(i, i + pat.len()) =~= pat);
    }
}

/// How a number is written: in decimal digits alone, without a zero in front
/// unless it is zero itself, the last digit being what is left of it by ten.
pub proof fn law_numbers_are_written_in_base_ten(n: nat)
    ensures
        decimal(n).len() > 0,
        forall|i: int| 0 <= i < decimal(n).len() ==> '0' <= #[trigger] decimal(n)[i] <= '9',
        n > 0 ==> decimal(n).first() != '0',
        n == 0 ==> decimal(n) == seq!['0'],
        decimal(n).last() as int == '0' as int + n % 10,
        n >= 10 ==> decimal(n).drop_last() == decimal(n / 10),
        n < 10 ==> decimal(n).len() == 1,
    decreases n,
{
    if n < 10 {
        assert(decimal(n) =~= seq![digit_char(n)]);
        if n == 0 {
            assert(digit_char(0) == '0');
        }
    } else {
        law_numbers_are_written_in_base_ten(n / 10);
        let less = decimal(n / 10);
        assert(decimal(n).drop_last() =~= less);
        assert forall|i: int| 0 <= i < decimal(n).len() implies '0' <= #[trigger] decimal(n)[i]
            <= '9' by {
            if i < less.len() {
                assert(decimal(n)[i] == less[i]);
            }
        }
        assert(decimal(n)[0] == less[0]);
    }
}

/// How a run of digits is read: ten times what stands before the last digit,
/// and that digit.
pub proof fn law_digits_are_read_in_base_ten(s: Seq<char>, d: nat)
    requires
        d < 10,
    ensures
        decimal_value(Seq::empty()) == 0,
        decimal_value(s.push(('0' as int + d) as char)) == 10 * decimal_value(s) + d,
{
    let more = s.push(('0' as int + d) as char);
    assert(more.drop_last() =~= s);
}

/// No two numbers are written alike.
pub proof fn law_numbers_are_told_apart(m: nat, n: nat)
    ensures
        decimal(m) == decimal(n) ==> m == n,
{
    law_numbers_read_back(m);
    law_numbers_read_back(n);
}

/// What padding does: it puts spaces in front of a text, as many as it takes to
/// make it as wide as asked for, and leaves one that is wide enough alone.
pub proof fn law_padding_only_puts_spaces_in_front(s: Seq<char>, width: int)
    ensures
        ({
            let wide = padded_left(s, width);
            let extra = wide.len() - s.len();
            &&& extra == if width > s.len() {
                width - s.len()
            } else {
                0
            }
            &&& wide.skip(extra) == s
            &&& forall|i: int| 0 <= i < extra ==> #[trigger] wide[i] == ' '
        }),
    decreases width - s.len(),
{
    if s.len() >= width {
        assert(s.skip(0) =~= s);
    } else {
        let more = seq![' '] + s;
        law_padding_only_puts_spaces_in_front(more, width);
        let wide = padded_left(s, width);
        let extra = wide.len() - s.len();
        assert(wide.skip(extra - 1) == more);
        assert(wide.skip(extra) =~= more.skip(1));
        assert(more.skip(1) =~= s);
        assert forall|i: int| 0 <= i < extra implies #[trigger] wide[i] == ' ' by {
            if i == extra - 1 {
                assert(wide.skip(extra - 1)[0] == wide[extra - 1]);
            }
        }
    }
}

/// A number that was padded reads back once the spaces are trimmed off.
pub proof fn law_padded_numbers_read_back(n: nat, width: int)
    ensures
        trimmed(padded_left(decimal(n), width)) == decimal(n),
        decimal_value(trimmed(padded_left(decimal(n), width))) == n,
{
    let s = decimal(n);
    let wide = padded_left(s, width);
    law_padding_only_puts_spaces_in_front(s, width);
    law_numbers_are_written_in_base_ten(n);
    law_numbers_read_back(n);
    let extra = wide.len() - s.len();
    let front = wide.take(extra);
    assert forall|i: int| 0 <= i < front.len() implies is_white(#[trigger] front[i]) by {
        assert(wide[i] == ' ');
    }
    assert(wide =~= front + wide.skip(extra));
    assert(front + s + Seq::<char>::empty() =~= wide);
    assert('0' <= s[0] <= '9' && '0' <= s[s.len() - 1] <= '9');
    law_trimming_undoes_surrounding_space(front, s, Seq::empty());
}

/// How parts are joined: nothing for none, a part alone as it is, and two lists
/// one after the other with the separator between them.
pub proof fn law_joining_puts_the_separator_between(
    a: Seq<Seq<char>>,
    b: Seq<Seq<char>>,
    part: Seq<char>,
    sep: Seq<char>,
)
    requires
        a.len() > 0,
        b.len() > 0,
    ensures
        joined(Seq::empty(), sep) == Seq::<char>::empty(),
        joined(seq![part], sep) == part,
        joined(a + b, sep) == joined(a, sep) + sep + joined(b, sep),
    decreases b.len(),
{
    let all = a + b;
    assert(all.last() == b.last());
    if b.len() == 1 {
        assert(all.drop_last() =~= a);
    } else {
        let less = b.drop_last();
        law_joining_puts_the_separator_between(a, less, part, sep);
        assert(all.drop_last() =~= a + less);
        assert(joined(all, sep) =~= joined(a, sep) + sep + joined(b, sep));
    }
}

/// When two texts are the same but for case: they are as long as each other, and
/// wherever they differ one has an ASCII capital and the other its small
/// letter.
pub proof fn law_case_is_the_only_difference_ignored(a: Seq<char>, b: Seq<char>)
    ensures
        same_ignoring_case(a, b) <==> a.len() == b.len() && forall|i: int|
            0 <= i < a.len() ==> #[trigger] a[i] == b[i] || ('A' <= a[i] <= 'Z' && b[i] as int
                == a[i] as int + 32) || ('A' <= b[i] <= 'Z' && a[i] as int == b[i] as int + 32),
{
    if a.len() == b.len() {
        if same_ignoring_case(a, b) {
            assert forall|i: int| 0 <= i < a.len() implies #[trigger] a[i] == b[i] || ('A' <= a[i]
                <= 'Z' && b[i] as int == a[i] as int + 32) || ('A' <= b[i] <= 'Z' && a[i] as int
                == b[i] as int + 32) by {
                assert(ascii_lower(a[i]) == ascii_lower(b[i]));
                lemma_lower(a[i]);
                lemma_lower(b[i]);
            }
        }
        if forall|i: int|
            0 <= i < a.len() ==> #[trigger] a[i] == b[i] || ('A' <= a[i] <= 'Z' && b[i] as int
                == a[i] as int + 32) || ('A' <= b[i] <= 'Z' && a[i] as int == b[i] as int + 32) {
            assert forall|i: int| 0 <= i < a.len() implies ascii_lower(#[trigger] a[i])
                == ascii_lower(b[i]) by {
                lemma_lower(a[i]);
                lemma_lower(b[i]);
            }
        }
    }
}

/// What the small letter of a character is.
proof fn lemma_lower(c: char)
    ensures
        ascii_lower(c) as int == if 'A' <= c <= 'Z' {
            c as int + 32
        } else {
            c as int
        },
{
}

/// How texts are ordered: by the first character in which they differ, and where
/// one is the start of the other, the shorter one first.
pub proof fn law_order_goes_by_the_first_difference(a: Seq<char>, b: Seq<char>)
    ensures
        precedes(a, b) <==> exists|k: int|
            {
                &&& 0 <= k <= a.len()
                &&& k < b.len()
                &&& #[trigger] a.take(k) == b.take(k)
                &&& k == a.len() || a[k] < b[k]
            },
    decreases a.len(),
{
    let differ = |k: int|
        0 <= k <= a.len() && k < b.len() && a.take(k) == b.take(k) && (k == a.len() || a[k]
            < b[k]);
    if b.len() == 0 {
    } else if a.len() == 0 || a.first() != b.first() {
        assert(a.take(0) =~= b.take(0));
        if precedes(a, b) {
            assert(differ(0));
        }
        if exists|k: int|
            0 <= k <= a.len() && k < b.len() && #[trigger] a.take(k) == b.take(k) && (k == a.len()
                || a[k] < b[k]) {
            let k = choose|k: int|
                0 <= k <= a.len() && k < b.len() && #[trigger] a.take(k) == b.take(k) && (k
                    == a.len() || a[k] < b[k]);
            if k > 0 {
                assert(a.take(k)[0] == b.take(k)[0]);
            }
        }
    } else {
        let x = a.drop_first();
        let y = b.drop_first();
        law_order_goes_by_the_first_difference(x, y);
        if precedes(a, b) {
            let k = choose|k: int|
                0 <= k <= x.len() && k < y.len() && #[trigger] x.take(k) == y.take(k) && (k
                    == x.len() || x[k] < y[k]);
            assert(a.take(k + 1) =~= seq![a.first()] + x.take(k));
            assert(b.take(k + 1) =~= seq![b.first()] + y.take(k));
            assert(a.take(k + 1) == b.take(k + 1));
        }
        if exists|k: int|
            0 <= k <= a.len() && k < b.len() && #[trigger] a.take(k) == b.take(k) && (k == a.len()
                || a[k] < b[k]) {
            let k = choose|k: int|
                0 <= k <= a.len() && k < b.len() && #[trigger] a.take(k) == b.take(k) && (k
                    == a.len() || a[k] < b[k]);
            assert(k > 0);
            assert(x.take(k - 1) =~= a.take(k).drop_first());
            assert(y.take(k - 1) =~= b.take(k).drop_first());
            assert(x.take(k - 1) == y.take(k - 1));
        }
    }
}

/// The texts of a list of strings are those of its elements, in order.
pub proof fn law_texts_are_the_elements_in_order(list: Seq<String>, one: Option<String>)
    ensures
        texts(list).len() == list.len(),
        forall|i: int| 0 <= i < list.len() ==> #[trigger] texts(list)[i] == list[i]@,
        one is None <==> opt_text(one) is None,
        one matches Some(t) ==> opt_text(one) == Some(t@),
{
}

} // verus!
