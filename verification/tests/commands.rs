use typwrtr::commands::{apply_voice_commands, apply_voice_commands_with_snippets, Snippet};

fn run(s: &str) -> String {
    apply_voice_commands(s).text
}

fn snippet(trigger: &str, expansion: &str, is_dynamic: bool) -> Snippet {
    Snippet {
        trigger: trigger.to_string(),
        expansion: expansion.to_string(),
        is_dynamic,
    }
}

fn dummy_resolver(key: &str) -> Option<String> {
    match key {
        "date" => Some("2026-04-27".to_string()),
        "time" => Some("14:32".to_string()),
        "day" => Some("Monday".to_string()),
        _ => None,
    }
}

#[test]
fn passthrough_when_no_commands() {
    assert_eq!(run("hello world"), "hello world");
}

#[test]
fn comma_attaches_to_previous_word() {
    assert_eq!(run("hey team comma how are you"), "hey team, how are you");
}

#[test]
fn period_doesnt_double_up_after_existing_period() {
    assert_eq!(run("done. period"), "done.");
}

#[test]
fn new_line_inserts_newline() {
    assert_eq!(run("hello new line world"), "hello\nworld");
}

#[test]
fn new_paragraph_inserts_two_newlines() {
    assert_eq!(run("intro new paragraph body"), "intro\n\nbody");
}

#[test]
fn question_mark_and_exclamation() {
    assert_eq!(run("are you ok question mark"), "are you ok?");
    assert_eq!(run("watch out exclamation point"), "watch out!");
    assert_eq!(run("watch out exclamation mark"), "watch out!");
}

#[test]
fn plan_acceptance_test() {
    assert_eq!(
        run("Hey team comma new line we shipped the new build period"),
        "Hey team,\nwe shipped the new build."
    );
}

#[test]
fn scratch_that_drops_previous_sentence() {
    assert_eq!(
        run("First sentence. Second sentence scratch that"),
        "First sentence."
    );
}

#[test]
fn delete_that_alias_works() {
    assert_eq!(run("typo here delete that"), "");
}

#[test]
fn cap_that_uppercases_previous_word() {
    assert_eq!(run("send to kaidhar cap that"), "send to Kaidhar");
}

#[test]
fn all_caps_toggles_state() {
    assert_eq!(
        run("normal all caps on yelling now all caps off back to normal"),
        "normal YELLING NOW back to normal"
    );
}

#[test]
fn bullet_list_prefixes_subsequent_lines() {
    assert_eq!(
        run("groceries bullet list eggs new line milk new line bread"),
        "groceries\n- eggs\n- milk\n- bread"
    );
}

#[test]
fn clipboard_instead_sets_flag() {
    let r = apply_voice_commands("paste this text clipboard instead");
    assert_eq!(r.text, "paste this text");
    assert!(r.clipboard_only);
}

#[test]
fn no_leading_space_after_punctuation() {
    assert_eq!(run("done period now"), "done. now");
}

#[test]
fn code_mode_strips_activator_and_sets_flag() {
    let r = apply_voice_commands("code mode my new function");
    assert_eq!(r.text, "my new function");
    assert!(r.code_mode);
}

#[test]
fn static_snippet_expansion_inline() {
    let snippets = vec![snippet("insert email signature", "Best,\n[your name]", false)];
    let r = apply_voice_commands_with_snippets(
        "thanks insert email signature",
        &snippets,
        &dummy_resolver,
    );
    assert_eq!(r.text, "thanks Best,\n[your name]");
}

#[test]
fn dynamic_snippet_resolves_template_vars() {
    let snippets = vec![snippet("insert date", "{{date}}", true)];
    let r = apply_voice_commands_with_snippets("today is insert date", &snippets, &dummy_resolver);
    assert_eq!(r.text, "today is 2026-04-27");
}

#[test]
fn dynamic_snippet_unresolved_var_left_literal() {
    let snippets = vec![snippet("insert mystery", "{{nope}}", true)];
    let r = apply_voice_commands_with_snippets("hi insert mystery", &snippets, &dummy_resolver);
    assert_eq!(r.text, "hi {{nope}}");
}

#[test]
fn longer_trigger_wins_over_shorter_prefix() {
    let snippets = vec![
        snippet("insert", "INSERT_ALONE", false),
        snippet("insert date", "{{date}}", true),
    ];
    let r = apply_voice_commands_with_snippets("ok insert date", &snippets, &dummy_resolver);
    assert_eq!(r.text, "ok 2026-04-27");
}

#[test]
fn snippet_doesnt_block_voice_command_in_same_input() {
    let snippets = vec![snippet("insert date", "{{date}}", true)];
    let r = apply_voice_commands_with_snippets(
        "today is insert date period",
        &snippets,
        &dummy_resolver,
    );
    assert_eq!(r.text, "today is 2026-04-27.");
}

#[test]
fn of_equal_triggers_the_first_is_used() {
    let snippets = vec![snippet("sign off", "one", false), snippet("Sign Off", "two", false)];
    let r = apply_voice_commands_with_snippets("sign off", &snippets, &dummy_resolver);
    assert_eq!(r.text, "one");
}

#[test]
fn a_command_comes_before_a_snippet_of_the_same_words() {
    let snippets = vec![snippet("comma", "never", false)];
    let r = apply_voice_commands_with_snippets("a comma b", &snippets, &dummy_resolver);
    assert_eq!(r.text, "a, b");
}

#[test]
fn a_snippet_without_a_trigger_is_never_used() {
    let snippets = vec![snippet("   ", "never", false)];
    let r = apply_voice_commands_with_snippets("a b", &snippets, &dummy_resolver);
    assert_eq!(r.text, "a b");
}

#[test]
fn several_variables_and_text_around_them() {
    let snippets = vec![snippet("stamp", "[{{ day }}, {{date}} at {{time}} by {{who}}]", true)];
    let r = apply_voice_commands_with_snippets("stamp", &snippets, &dummy_resolver);
    assert_eq!(r.text, "[Monday, 2026-04-27 at 14:32 by {{who}}]");
}

#[test]
fn an_opening_that_is_never_closed_is_text() {
    let snippets = vec![snippet("stamp", "{{date}} and {{date", true)];
    let r = apply_voice_commands_with_snippets("stamp", &snippets, &dummy_resolver);
    assert_eq!(r.text, "2026-04-27 and {{date");
}

#[test]
fn a_static_snippet_keeps_its_braces() {
    let snippets = vec![snippet("stamp", "{{date}}", false)];
    let r = apply_voice_commands_with_snippets("stamp", &snippets, &dummy_resolver);
    assert_eq!(r.text, "{{date}}");
}

#[test]
fn an_expansion_that_starts_on_a_new_line_gets_no_space() {
    let snippets = vec![snippet("list", "\n- a", false)];
    let r = apply_voice_commands_with_snippets("todo list", &snippets, &dummy_resolver);
    assert_eq!(r.text, "todo\n- a");
}

#[test]
fn commands_are_heard_in_any_case_and_with_punctuation() {
    assert_eq!(run("one New Line, two"), "one\ntwo");
}

#[test]
fn punctuation_said_twice_is_written_once() {
    assert_eq!(run("stop comma comma now"), "stop, now");
    assert_eq!(run("really question mark period"), "really?");
}

#[test]
fn capitals_go_beyond_ascii() {
    assert_eq!(run("caf\u{e9} \u{e9}lan cap that"), "caf\u{e9} \u{c9}lan");
    assert_eq!(run("all caps on stra\u{df}e"), "STRASSE");
}

#[test]
fn cap_that_without_a_word_does_nothing() {
    assert_eq!(run("42 cap that"), "42");
}

#[test]
fn white_space_of_any_kind_separates_words() {
    assert_eq!(run("a\u{2003}b\u{3000}c\td"), "a b c d");
}

#[test]
fn nothing_said_is_nothing_written() {
    let r = apply_voice_commands("");
    assert_eq!(r.text, "");
    assert!(!r.clipboard_only);
    assert!(!r.code_mode);
}

#[test]
fn the_order_of_snippets_does_not_matter() {
    let a = snippet("sign off", "Best,\nMe", false);
    let b = snippet("sign off now", "Bye", false);
    let c = snippet("today", "{{date}}", true);
    let input = "well sign off now today then Sign Off";
    let one = [a.clone(), b.clone(), c.clone()];
    let two = [c, b, a];
    let first = apply_voice_commands_with_snippets(input, &one, &dummy_resolver);
    let second = apply_voice_commands_with_snippets(input, &two, &dummy_resolver);
    assert_eq!(first.text, "well Bye 2026-04-27 then Best,\nMe");
    assert_eq!(second.text, first.text);
}
