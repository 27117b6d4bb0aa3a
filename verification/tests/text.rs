use typwrtr::recorder::autolearn::AUTO_LEARN_MIN_RATIO;
use typwrtr::text::{decimal_text, join, split_lines, split_words, to_chars, to_text, trim, Class};

fn words(s: &str) -> Vec<String> {
    split_words(&to_chars(s)).iter().map(|w| to_text(w)).collect()
}

fn lines(s: &str) -> Vec<String> {
    split_lines(&to_chars(s)).iter().map(|w| to_text(w)).collect()
}

#[test]
fn words_are_those_of_the_standard_library() {
    for s in ["", " ", "a", " a  b\tc\n", "\u{3000}x\u{85}y\u{a0}", "\u{200b}z\u{2028}"] {
        let expected: Vec<String> = s.split_whitespace().map(|w| w.to_string()).collect();
        assert_eq!(words(s), expected);
    }
}

#[test]
fn lines_are_those_of_the_standard_library() {
    for s in ["", "\n", "a", "a\n", "a\r\nb", "\r", "a\r", "a\n\r\n\nb\r\n", "\n\n"] {
        let expected: Vec<String> = s.lines().map(|w| w.to_string()).collect();
        assert_eq!(lines(s), expected);
    }
}

#[test]
fn white_space_is_the_property() {
    let listed = |c: char| -> bool {
        ('\u{9}'..='\u{d}').contains(&c)
            || c == ' '
            || c == '\u{85}'
            || c == '\u{a0}'
            || c == '\u{1680}'
            || ('\u{2000}'..='\u{200a}').contains(&c)
            || c == '\u{2028}'
            || c == '\u{2029}'
            || c == '\u{202f}'
            || c == '\u{205f}'
            || c == '\u{3000}'
    };
    for c in '\u{0}'..=char::MAX {
        assert_eq!(c.is_whitespace(), listed(c));
        assert_eq!(Class::WhiteSpace.contains(c), c.is_whitespace());
        assert_eq!(Class::AsciiPunctuation.contains(c), c.is_ascii_punctuation());
        assert_eq!(Class::NonAlphanumeric.contains(c), !c.is_alphanumeric());
    }
}

#[test]
fn upper_case_of_a_character_is_that_of_its_text() {
    for c in '\u{0}'..=char::MAX {
        let alone: String = c.to_uppercase().collect();
        assert_eq!(c.to_string().to_uppercase(), alone);
    }
}

#[test]
fn trimming_and_joining() {
    let s = to_chars("**bold**");
    assert_eq!(to_text(trim(Class::AsciiPunctuation, &s)), "bold");
    let parts = vec![to_chars("a"), to_chars(""), to_chars("b")];
    assert_eq!(to_text(&join(&parts, &to_chars(", "))), "a, , b");
    assert_eq!(to_text(&join(&vec![], &to_chars(", "))), "");
}

#[test]
fn numbers_in_decimal() {
    for n in [0u64, 7, 10, 99, 100, 65_536, u64::MAX] {
        assert_eq!(decimal_text(n), n.to_string());
    }
}

#[test]
fn the_least_ratio_is_the_next_single() {
    assert!(f64::from(f32::from_bits(AUTO_LEARN_MIN_RATIO)) >= 0.85);
    assert!(f64::from(f32::from_bits(AUTO_LEARN_MIN_RATIO - 1)) < 0.85);
}
