use typwrtr::cleanup::postprocess::apply;
use typwrtr::cleanup::{collapse_repeats, scrub_hallucinations, CodeCase, Mode};

#[test]
fn default_is_passthrough() {
    assert_eq!(
        apply("Hello world.", Mode::Default, false, CodeCase::Snake),
        "Hello world."
    );
}

#[test]
fn markdown_preserves_bullets() {
    let s = "groceries\n- eggs\n- milk";
    assert_eq!(apply(s, Mode::Markdown, false, CodeCase::Snake), s);
}

#[test]
fn plain_strips_bold_italic_code() {
    assert_eq!(
        apply(
            "**bold** and *italic* and `code`",
            Mode::Plain,
            false,
            CodeCase::Snake
        ),
        "bold and italic and code"
    );
}

#[test]
fn plain_strips_list_markers_and_headings() {
    assert_eq!(
        apply(
            "# Heading\n- one\n- two\n1. first",
            Mode::Plain,
            false,
            CodeCase::Snake
        ),
        "Heading\none\ntwo\nfirst"
    );
}

#[test]
fn plain_strips_links() {
    assert_eq!(
        apply(
            "see [docs](https://example.com) here",
            Mode::Plain,
            false,
            CodeCase::Snake
        ),
        "see docs here"
    );
}

#[test]
fn code_mode_inactive_keeps_text() {
    assert_eq!(
        apply("My New Function", Mode::Code, false, CodeCase::Snake),
        "My New Function"
    );
}

#[test]
fn code_mode_snake() {
    assert_eq!(
        apply("My New Function", Mode::Code, true, CodeCase::Snake),
        "my_new_function"
    );
}

#[test]
fn code_mode_camel() {
    assert_eq!(
        apply("my new function", Mode::Code, true, CodeCase::Camel),
        "myNewFunction"
    );
}

#[test]
fn code_mode_kebab() {
    assert_eq!(
        apply("My New Function", Mode::Code, true, CodeCase::Kebab),
        "my-new-function"
    );
}

#[test]
fn code_mode_strips_punctuation() {
    assert_eq!(
        apply("get-the-thing!", Mode::Code, true, CodeCase::Snake),
        "get_the_thing"
    );
}

#[test]
fn code_of_nothing_is_nothing() {
    assert_eq!(apply("?!", Mode::Code, true, CodeCase::Camel), "");
    assert_eq!(apply("", Mode::Code, true, CodeCase::Kebab), "");
}

#[test]
fn modes_by_name() {
    assert_eq!(Mode::from_str("plain"), Mode::Plain);
    assert_eq!(Mode::from_str("markdown"), Mode::Markdown);
    assert_eq!(Mode::from_str("code"), Mode::Code);
    assert_eq!(Mode::from_str("default"), Mode::Default);
    assert_eq!(Mode::from_str("Plain"), Mode::Default);
    assert_eq!(CodeCase::from_str("camel"), CodeCase::Camel);
    assert_eq!(CodeCase::from_str("kebab"), CodeCase::Kebab);
    assert_eq!(CodeCase::from_str("snake"), CodeCase::Snake);
    assert_eq!(CodeCase::from_str(""), CodeCase::Snake);
}

fn plain(s: &str) -> String {
    apply(s, Mode::Plain, false, CodeCase::Snake)
}

#[test]
fn a_marker_left_over_stays() {
    assert_eq!(plain("2 * 3"), "2 * 3");
    assert_eq!(plain("**a** and *b"), "a and *b");
    assert_eq!(plain("a ** b"), "a  b");
    assert_eq!(plain("__x__ _y_"), "x y");
}

#[test]
fn quotes_and_numbers_at_the_start() {
    assert_eq!(plain("> quoted"), "quoted");
    assert_eq!(plain("12. twelfth"), "twelfth");
    assert_eq!(plain("12.5 is a number"), "12.5 is a number");
    assert_eq!(plain("- > nested"), "nested");
}

#[test]
fn a_broken_link_stays() {
    assert_eq!(plain("[text](no end"), "[text](no end");
    assert_eq!(plain("[text] (gap)"), "[text] (gap)");
    assert_eq!(plain("a [b](c) [d](e)"), "a b d");
}

#[test]
fn plain_keeps_characters_beyond_ascii() {
    assert_eq!(plain("# caf\u{e9} [na\u{ef}ve](u) \u{1f600}"), "caf\u{e9} na\u{ef}ve \u{1f600}");
}

#[test]
fn plain_leaves_white_space_where_it_is() {
    assert_eq!(plain("\nhello"), "\nhello");
    assert_eq!(plain("hello\n"), "hello\n");
    assert_eq!(plain("\n\n**a**\n"), "\n\na\n");
    assert_eq!(plain("a\r\n- b\r\n"), "a\r\nb\r\n");
    assert_eq!(plain("a\n\nb"), "a\n\nb");
    assert_eq!(plain("  indented  text "), "  indented  text ");
    assert_eq!(plain("  - nested\n    1. deeper"), "  nested\n    deeper");
    assert_eq!(plain("  ## Title"), "Title");
    assert_eq!(plain("\ttab"), "\ttab");
    assert_eq!(plain(""), "");
}

#[test]
fn kebab_is_snake_with_dashes() {
    let code = |s: &str, case: CodeCase| apply(s, Mode::Code, true, case);
    assert_eq!(code("\u{c9}t\u{e9}_\u{130} 42", CodeCase::Snake), "\u{e9}t\u{e9}_i\u{307}_42");
    for s in ["\u{c9}t\u{e9}_\u{130} 42", "\u{39f}\u{394}\u{39f}\u{3a3}__x", "\u{ff3f}a b", "_"] {
        let snake = code(s, CodeCase::Snake);
        assert_eq!(code(s, CodeCase::Kebab), snake.replace('_', "-"));
    }
}

#[test]
fn identifiers_of_ascii_text() {
    let code = |s: &str, case: CodeCase| apply(s, Mode::Code, true, case);
    for s in ["Parse the JSON-2 file, now!", "__a__b", "...", "", "x", "A1 b2"] {
        let snake = code(s, CodeCase::Snake);
        assert_eq!(code(&snake, CodeCase::Snake), snake);
        assert_eq!(code(s, CodeCase::Kebab), snake.replace('_', "-"));
        let letters: String = s.chars().filter(|c| c.is_ascii_alphanumeric()).collect();
        assert_eq!(snake.replace('_', ""), letters.to_lowercase());
    }
    assert_eq!(code("Parse the JSON-2 file, now!", CodeCase::Snake), "parse_the_json_2_file_now");
    assert_eq!(code("__a__b", CodeCase::Snake), "a_b");
    assert_eq!(code("...", CodeCase::Snake), "");
}

#[test]
fn collapse_repeats_empty_passthrough() {
    assert_eq!(collapse_repeats(""), "");
}

#[test]
fn collapse_repeats_no_repeat_passthrough() {
    assert_eq!(collapse_repeats("hello world"), "hello world");
}

#[test]
fn collapse_repeats_single_repeat_collapsed() {
    assert_eq!(collapse_repeats("i i want a sandwich"), "i want a sandwich");
}

#[test]
fn collapse_repeats_case_insensitive_keeps_first_casing() {
    assert_eq!(collapse_repeats("Hello hello world"), "Hello world");
}

#[test]
fn collapse_repeats_multiple_runs_collapsed() {
    assert_eq!(
        collapse_repeats("the the cat sat on on the mat"),
        "the cat sat on the mat"
    );
}

#[test]
fn collapse_repeats_preserves_punctuation_separated_repeat() {
    assert_eq!(collapse_repeats("cat, cat"), "cat, cat");
}

#[test]
fn collapse_repeats_three_in_a_row() {
    assert_eq!(collapse_repeats("no no no really"), "no really");
}

#[test]
fn collapse_keeps_white_space_that_separates() {
    assert_eq!(collapse_repeats("  a\n\nb  b\tc "), "  a\n\nb\tc ");
    assert_eq!(collapse_repeats("a a "), "a ");
}

#[test]
fn collapse_twice_is_collapse_once() {
    for s in ["a a b b a a", " x X  x y ", "no no no no", "\u{c9}t\u{e9} \u{e9}t\u{e9}"] {
        let once = collapse_repeats(s);
        assert_eq!(collapse_repeats(&once), once);
    }
    assert_eq!(collapse_repeats("\u{c9}t\u{e9} \u{e9}t\u{e9} fini"), "\u{c9}t\u{e9} fini");
}

#[test]
fn scrub_empty_passthrough() {
    assert_eq!(scrub_hallucinations(""), "");
}

#[test]
fn scrub_no_match_passthrough() {
    assert_eq!(
        scrub_hallucinations("This is a normal sentence."),
        "This is a normal sentence."
    );
}

#[test]
fn scrub_whole_line_thanks_for_watching_dropped() {
    assert_eq!(
        scrub_hallucinations("Hello there.\nThanks for watching."),
        "Hello there."
    );
}

#[test]
fn scrub_trailing_hallucination_stripped() {
    assert_eq!(
        scrub_hallucinations("Some real content. Thank you."),
        "Some real content."
    );
}

#[test]
fn scrub_mid_sentence_match_preserved() {
    let input = "I said thank you to the team and moved on.";
    assert_eq!(scrub_hallucinations(input), input);
}

#[test]
fn scrub_music_token_line_dropped() {
    assert_eq!(
        scrub_hallucinations("real content\n[Music]\nmore content"),
        "real content\nmore content"
    );
}

#[test]
fn scrub_case_insensitive() {
    assert_eq!(scrub_hallucinations("THANKS FOR WATCHING."), "");
}

#[test]
fn scrub_only_hallucination_input() {
    assert_eq!(scrub_hallucinations("Thanks for watching!"), "");
}

#[test]
fn scrub_finds_phrases_behind_wide_characters() {
    assert_eq!(scrub_hallucinations("caf\u{e9} \u{1f600} thank you."), "caf\u{e9} \u{1f600}");
    assert_eq!(scrub_hallucinations("song \u{266a}"), "song");
    assert_eq!(scrub_hallucinations("\u{266a}\nsong"), "song");
}

#[test]
fn scrub_takes_the_longest_phrase() {
    assert_eq!(scrub_hallucinations("ok Thank you for watching."), "ok");
    assert_eq!(scrub_hallucinations("ok Thanks. Thanks."), "ok Thanks.");
}

#[test]
fn scrub_phrase_with_text_behind_it_stays() {
    let input = "Thank you. Now on to business";
    assert_eq!(scrub_hallucinations(input), input);
}

#[test]
fn scrub_keeps_blank_lines_and_the_last_line_feed() {
    assert_eq!(scrub_hallucinations("a\n\nb\n"), "a\n\nb\n");
    assert_eq!(scrub_hallucinations("a \t"), "a");
    assert_eq!(scrub_hallucinations("  Thanks.  \nb"), "b");
}
