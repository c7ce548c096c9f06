//! Text primitives, held against the standard library.

use coin::text::{
    blank, chars_of, comes_first, find_from, is_white_space, join, number, pad_left, same,
    same_but_case, trim,
};

#[test]
fn white_space_is_what_the_standard_library_says() {
    for c in '\0'..=char::MAX {
        assert_eq!(is_white_space(c), c.is_whitespace(), "{:x}", c as u32);
    }
}

#[test]
fn no_foreign_letter_is_a_case_of_a_compared_word() {
    // Words are compared up to the case of ASCII letters. Comparing lower-cased
    // texts would give the same answer, since no other character lower-cases to
    // a letter these words are made of.
    let words = "cruxcredenceclassicledgeragreeddisputed";
    for c in '\u{80}'..=char::MAX {
        let lower: String = c.to_lowercase().collect();
        assert!(
            lower.chars().count() != 1 || !words.contains(&lower),
            "{:x}",
            c as u32
        );
    }
}

#[test]
fn trimming_agrees_with_the_standard_library() {
    for text in ["", " ", "a", " a ", "\u{3000}a b\u{85}", "\n\t", "a\u{200b}"] {
        assert_eq!(trim(text), text.trim());
        assert_eq!(blank(text), text.trim().is_empty());
    }
}

#[test]
fn numbers_are_written_in_base_ten() {
    for n in [0u64, 7, 10, 99, 100, 1_234_567_890, u64::MAX] {
        assert_eq!(number(n), n.to_string());
    }
}

#[test]
fn searching_and_comparing_agree_with_the_standard_library() {
    let pairs = [
        ("", ""),
        ("abc", "bc"),
        ("aab", "ab"),
        ("b", "a"),
        ("\u{e9}a", "\u{e9}"),
        ("Z", "a"),
    ];
    for (a, b) in pairs {
        let at = find_from(&chars_of(a), &chars_of(b), 0);
        assert_eq!(at, a.find(b).map(|byte| a[..byte].chars().count()));
        assert_eq!(comes_first(a, b), a < b);
        assert_eq!(comes_first(b, a), b < a);
        assert_eq!(same(a, b), a == b);
        assert_eq!(same_but_case(a, b), a.eq_ignore_ascii_case(b));
    }
    assert!(same_but_case("MiXeD", "mIxEd"));
    assert!(!same_but_case("\u{e9}", "\u{c9}"));
}

#[test]
fn padding_and_joining() {
    assert_eq!(pad_left("7".to_string(), 3), "  7");
    assert_eq!(pad_left("1234".to_string(), 3), "1234");
    let parts = vec!["a".to_string(), "b".to_string(), "c".to_string()];
    assert_eq!(join(&parts, ", "), "a, b, c");
    assert_eq!(join(&Vec::new(), ", "), "");
}
