//! Spoken commands and snippets.
//!
//! A transcript is walked step by step. The first laws say which steps it
//! takes, by the words that stand in it; the others say what each step makes of
//! the text before it.
use vstd::prelude::*;
use crate::chars;
use crate::commands;
use crate::commands::{Action, CommandResult, Draft, Piece, Snippet, Step};
use crate::laws;
use crate::text;
use crate::text::Class;

verus! {

/// Whether words stand at position `i` of others, one after the other.
pub open spec fn stand_at(phrase: Seq<Seq<char>>, tokens: Seq<Seq<char>>, i: int) -> bool {
    &&& 0 < phrase.len()
    &&& 0 <= i
    &&& i + phrase.len() <= tokens.len()
    &&& forall|j: int| 0 <= j < phrase.len() ==> tokens[i + j] == #[trigger] phrase[j]
}

/// Whether a phrase is the command for an action.
pub open spec fn is_command(phrase: Seq<Seq<char>>, action: Action) -> bool {
    ||| (phrase == seq!["all"@, "caps"@, "on"@] && action == Action::SetAllCaps(true))
    ||| (phrase == seq!["all"@, "caps"@, "off"@] && action == Action::SetAllCaps(false))
    ||| (phrase == seq!["new"@, "paragraph"@] && action == Action::Newlines(2))
    ||| (phrase == seq!["new"@, "line"@] && action == Action::Newlines(1))
    ||| (phrase == seq!["question"@, "mark"@] && action == Action::Punct('?'))
    ||| (phrase == seq!["exclamation"@, "point"@] && action == Action::Punct('!'))
    ||| (phrase == seq!["exclamation"@, "mark"@] && action == Action::Punct('!'))
    ||| (phrase == seq!["scratch"@, "that"@] && action == Action::ScratchPrevSentence)
    ||| (phrase == seq!["delete"@, "that"@] && action == Action::ScratchPrevSentence)
    ||| (phrase == seq!["cap"@, "that"@] && action == Action::CapPrevWord)
    ||| (phrase == seq!["bullet"@, "list"@] && action == Action::BulletList)
    ||| (phrase == seq!["clipboard"@, "instead"@] && action == Action::ClipboardInstead)
    ||| (phrase == seq!["code"@, "mode"@] && action == Action::CodeMode)
    ||| (phrase == seq!["newline"@] && action == Action::Newlines(1))
    ||| (phrase == seq!["period"@] && action == Action::Punct('.'))
    ||| (phrase == seq!["comma"@] && action == Action::Punct(','))
}

proof fn lemma_stand_at(phrase: Seq<Seq<char>>, tokens: Seq<Seq<char>>, i: int)
    requires
        0 <= i,
    ensures
        stand_at(phrase, tokens, i) == commands::spoken_at(phrase, tokens, i),
{
    if commands::spoken_at(phrase, tokens, i) {
        let sub = tokens.subrange(i, i + phrase.len());
        assert forall|j: int| 0 <= j < phrase.len() implies tokens[i + j] == #[trigger] phrase[j] by {
            assert(sub[j] == tokens[i + j]);
        }
    }
    if stand_at(phrase, tokens, i) {
        assert(tokens.subrange(i, i + phrase.len()) =~= phrase);
    }
}

/// The commands are those of the list, and there is none but them.
proof fn lemma_commands(phrase: Seq<Seq<char>>, action: Action)
    ensures
        is_command(phrase, action) == exists|k: int|
            0 <= k < commands::phrases().len() && #[trigger] commands::phrases()[k] == (
                phrase,
                action,
            ),
{
    let all = commands::phrases();
    assert(all.len() == 16);
    if is_command(phrase, action) {
        let k = choose|k: int| 0 <= k < 16 && all[k] == (phrase, action);
        assert(all[0] == (phrase, action) || all[1] == (phrase, action) || all[2] == (phrase, action)
            || all[3] == (phrase, action) || all[4] == (phrase, action) || all[5] == (
            phrase,
            action,
        ) || all[6] == (phrase, action) || all[7] == (phrase, action) || all[8] == (phrase, action)
            || all[9] == (phrase, action) || all[10] == (phrase, action) || all[11] == (
            phrase,
            action,
        ) || all[12] == (phrase, action) || all[13] == (phrase, action) || all[14] == (
            phrase,
            action,
        ) || all[15] == (phrase, action));
    }
}

/// No two commands are spoken alike, even in part.
proof fn lemma_commands_apart(p: int, q: int, tokens: Seq<Seq<char>>, i: int)
    requires
        0 <= p < commands::phrases().len(),
        0 <= q < commands::phrases().len(),
        stand_at(commands::phrases()[p].0, tokens, i),
        stand_at(commands::phrases()[q].0, tokens, i),
    ensures
        p == q,
{
    reveal_strlit("all");
    reveal_strlit("caps");
    reveal_strlit("on");
    reveal_strlit("off");
    reveal_strlit("new");
    reveal_strlit("paragraph");
    reveal_strlit("line");
    reveal_strlit("question");
    reveal_strlit("mark");
    reveal_strlit("exclamation");
    reveal_strlit("point");
    reveal_strlit("scratch");
    reveal_strlit("that");
    reveal_strlit("delete");
    reveal_strlit("cap");
    reveal_strlit("bullet");
    reveal_strlit("list");
    reveal_strlit("clipboard");
    reveal_strlit("instead");
    reveal_strlit("code");
    reveal_strlit("mode");
    reveal_strlit("newline");
    reveal_strlit("period");
    reveal_strlit("comma");
    let all = commands::phrases();
    assert(all.len() == 16);
    let a = all[p].0;
    let b = all[q].0;
    assert(tokens[i + 0] == a[0]);
    assert(tokens[i + 0] == b[0]);
    assert(a[0].len() == b[0].len() && a[0][0] == b[0][0]);
    if a.len() > 1 && b.len() > 1 {
        assert(tokens[i + 1] == a[1]);
        assert(tokens[i + 1] == b[1]);
        assert(a[1].len() == b[1].len());
    }
    if a.len() > 2 && b.len() > 2 {
        assert(tokens[i + 2] == a[2]);
        assert(tokens[i + 2] == b[2]);
        assert(a[2].len() == b[2].len());
    }
}

proof fn lemma_phrase_is_found(tokens: Seq<Seq<char>>, i: int, k: int, from: int)
    requires
        0 <= from <= k < commands::phrases().len(),
        commands::spoken_at(commands::phrases()[k].0, tokens, i),
    ensures
        commands::phrase_from(tokens, i, from) is Some,
    decreases k - from,
{
    if !commands::spoken_at(commands::phrases()[from].0, tokens, i) {
        lemma_phrase_is_found(tokens, i, k, from + 1);
    }
}

/// A command that stands in the words is carried out, whatever snippets there
/// are, and the walk goes on behind it.
pub proof fn law_command_is_obeyed(
    tokens: Seq<Seq<char>>,
    trigs: Seq<Seq<Seq<char>>>,
    i: int,
    phrase: Seq<Seq<char>>,
    action: Action,
)
    requires
        is_command(phrase, action),
        stand_at(phrase, tokens, i),
    ensures
        commands::steps_from(tokens, trigs, i) == seq![Step::Act(action)] + commands::steps_from(
            tokens,
            trigs,
            i + phrase.len(),
        ),
{
    lemma_commands(phrase, action);
    let all = commands::phrases();
    let k = choose|k: int| 0 <= k < all.len() && #[trigger] all[k] == (phrase, action);
    lemma_stand_at(phrase, tokens, i);
    lemma_phrase_is_found(tokens, i, k, 0);
    commands::lemma_phrase_from(tokens, i, 0);
    let p = commands::phrase_from(tokens, i, 0)->0;
    lemma_stand_at(all[p].0, tokens, i);
    lemma_commands_apart(p, k, tokens, i);
}

/// Whether no command stands at position `i`.
pub open spec fn no_command(tokens: Seq<Seq<char>>, i: int) -> bool {
    forall|phrase: Seq<Seq<char>>, action: Action| #[trigger]
        is_command(phrase, action) ==> !stand_at(phrase, tokens, i)
}

proof fn lemma_no_command(tokens: Seq<Seq<char>>, i: int)
    requires
        0 <= i,
        no_command(tokens, i),
    ensures
        commands::phrase_from(tokens, i, 0) is None,
{
    commands::lemma_phrase_from(tokens, i, 0);
    if let Some(p) = commands::phrase_from(tokens, i, 0) {
        let (phrase, action) = commands::phrases()[p];
        lemma_commands(phrase, action);
        lemma_stand_at(phrase, tokens, i);
        assert(is_command(phrase, action));
    }
}

/// Where no command stands, the snippet with the longest trigger that stands
/// there is expanded, the first of equally long ones, and the walk goes on
/// behind the trigger.
pub proof fn law_snippet_is_expanded(
    tokens: Seq<Seq<char>>,
    trigs: Seq<Seq<Seq<char>>>,
    i: int,
    k: int,
)
    requires
        0 <= i < tokens.len(),
        no_command(tokens, i),
        0 <= k < trigs.len(),
        stand_at(trigs[k], tokens, i),
        forall|j: int|
            0 <= j < trigs.len() && #[trigger] stand_at(trigs[j], tokens, i) ==> trigs[j].len()
                < trigs[k].len() || (trigs[j].len() == trigs[k].len() && k <= j),
    ensures
        commands::steps_from(tokens, trigs, i) == seq![Step::Expand(k)] + commands::steps_from(
            tokens,
            trigs,
            i + trigs[k].len(),
        ),
{
    lemma_no_command(tokens, i);
    commands::law_longest_trigger_wins(trigs, tokens, i, trigs.len() as int);
    lemma_stand_at(trigs[k], tokens, i);
    assert(commands::spoken_at(trigs[k], tokens, i));
    let b = commands::snippet_at(trigs, tokens, i, trigs.len() as int)->0;
    lemma_stand_at(trigs[b], tokens, i);
    assert(stand_at(trigs[b], tokens, i));
}

/// Where neither a command nor a trigger stands, the word is written, and the
/// walk goes on with the next.
pub proof fn law_word_is_said(tokens: Seq<Seq<char>>, trigs: Seq<Seq<Seq<char>>>, i: int)
    requires
        0 <= i < tokens.len(),
        no_command(tokens, i),
        forall|j: int| 0 <= j < trigs.len() ==> !#[trigger] stand_at(trigs[j], tokens, i),
    ensures
        commands::steps_from(tokens, trigs, i) == seq![Step::Say(i)] + commands::steps_from(
            tokens,
            trigs,
            i + 1,
        ),
{
    lemma_no_command(tokens, i);
    commands::law_longest_trigger_wins(trigs, tokens, i, trigs.len() as int);
    if let Some(b) = commands::snippet_at(trigs, tokens, i, trigs.len() as int) {
        lemma_stand_at(trigs[b], tokens, i);
        assert(stand_at(trigs[b], tokens, i));
    }
}

/// The walk ends behind the last word.
pub proof fn law_walk_ends(tokens: Seq<Seq<char>>, trigs: Seq<Seq<Seq<char>>>)
    ensures
        commands::steps_from(tokens, trigs, tokens.len() as int).len() == 0,
{
}

/// A transcript is walked over all its words, each compared in lower case and
/// without the punctuation around it, and with the words of each trigger in
/// lower case.
pub proof fn law_all_words_are_walked(
    input: Seq<char>,
    snippets: Seq<Snippet>,
    tokens: Seq<Seq<char>>,
    trigs: Seq<Seq<Seq<char>>>,
)
    requires
        tokens.len() == text::words(input).len(),
        forall|i: int|
            0 <= i < tokens.len() ==> #[trigger] tokens[i] == chars::lowercase(
                text::trimmed(Class::AsciiPunctuation, text::words(input)[i]),
            ),
        trigs.len() == snippets.len(),
        forall|k: int|
            0 <= k < trigs.len() ==> (#[trigger] trigs[k]).len() == text::words(
                snippets[k].trigger@,
            ).len(),
        forall|k: int, j: int|
            0 <= k < trigs.len() && 0 <= j < trigs[k].len() ==> #[trigger] trigs[k][j]
                == chars::lowercase(text::words(snippets[k].trigger@)[j]),
    ensures
        commands::steps(input, snippets) == commands::steps_from(tokens, trigs, 0),
{
    assert(tokens =~= commands::normalized_words(text::words(input)));
    assert forall|k: int| 0 <= k < trigs.len() implies #[trigger] trigs[k]
        == commands::triggers(snippets)[k] by {
        assert(trigs[k] =~= commands::trigger_words(snippets[k].trigger@));
    }
    assert(trigs =~= commands::triggers(snippets));
}

/// A word is compared without the punctuation around it, in lower case.
pub proof fn law_word_is_compared_bare(head: Seq<char>, body: Seq<char>, tail: Seq<char>)
    requires
        laws::text::all_of(Class::AsciiPunctuation, head),
        laws::text::all_of(Class::AsciiPunctuation, tail),
        laws::text::bare(Class::AsciiPunctuation, body),
    ensures
        commands::normalized(head + body + tail) == chars::lowercase(body),
{
    laws::text::law_trimmed(Class::AsciiPunctuation, head, body, tail);
}

/// The walk starts with nothing written and nothing set.
pub proof fn law_walk_starts_blank(raw: Seq<Seq<char>>)
    ensures
        commands::walked(raw, Seq::empty(), Seq::empty()) == (Draft {
            out: Seq::empty(),
            all_caps: false,
            bullet_list: false,
            clipboard_only: false,
            code_mode: false,
        }),
{
}

/// Whether a text is of spaces and tabs.
pub open spec fn blanks(s: Seq<char>) -> bool {
    forall|i: int| 0 <= i < s.len() ==> #[trigger] s[i] == ' ' || s[i] == '\t'
}

/// Whether a text does not end in a space or a tab.
pub open spec fn ends_firmly(s: Seq<char>) -> bool {
    s.len() > 0 ==> s.last() != ' ' && s.last() != '\t'
}

proof fn lemma_blanks_go(body: Seq<char>, tail: Seq<char>)
    requires
        blanks(tail),
        ends_firmly(body),
    ensures
        text::trimmed_end(Class::Blank, body + tail) == body,
{
    assert forall|i: int| 0 <= i < tail.len() implies Class::Blank.has(#[trigger] tail[i]) by {
        assert(tail[i] == ' ' || tail[i] == '\t');
    }
    laws::text::law_trimmed_end(Class::Blank, body, tail);
}

proof fn lemma_one_step(
    raw: Seq<Seq<char>>,
    steps: Seq<Step>,
    exps: Seq<Seq<char>>,
    step: Step,
    exp: Seq<char>,
)
    ensures
        commands::walked(raw, steps.push(step), exps.push(exp)) == commands::stepped(
            raw,
            step,
            exp,
            commands::walked(raw, steps, exps),
        ),
{
    assert(steps.push(step).drop_last() =~= steps);
    assert(exps.push(exp).drop_last() =~= exps);
}

/// A punctuation mark goes right behind the text, without the blanks at its
/// end, whatever stands further in. It is left out only where the text ends in
/// that mark, or, for a full stop, ends a sentence.
pub proof fn law_mark_is_written(
    raw: Seq<Seq<char>>,
    steps: Seq<Step>,
    exps: Seq<Seq<char>>,
    c: char,
    body: Seq<char>,
    tail: Seq<char>,
)
    requires
        commands::walked(raw, steps, exps).out == body + tail,
        ends_firmly(body),
        blanks(tail),
    ensures
        ({
            let d = commands::walked(raw, steps, exps);
            let after = commands::walked(
                raw,
                steps.push(Step::Act(Action::Punct(c))),
                exps.push(Seq::empty()),
            );
            let there = body.len() > 0 && (body.last() == c || (c == '.' && (body.last() == '!'
                || body.last() == '?')));
            &&& there ==> after == (Draft { out: body, ..d })
            &&& !there ==> after == (Draft { out: body.push(c), ..d })
        }),
{
    lemma_one_step(raw, steps, exps, Step::Act(Action::Punct(c)), Seq::empty());
    lemma_blanks_go(body, tail);
}

/// New lines go behind the text, without the blanks at its end, as many as
/// were asked for. In a list the last of them opens with a bullet.
pub proof fn law_lines_are_started(
    raw: Seq<Seq<char>>,
    steps: Seq<Step>,
    exps: Seq<Seq<char>>,
    n: u8,
    body: Seq<char>,
    tail: Seq<char>,
)
    requires
        commands::walked(raw, steps, exps).out == body + tail,
        ends_firmly(body),
        blanks(tail),
    ensures
        ({
            let d = commands::walked(raw, steps, exps);
            let after = commands::walked(
                raw,
                steps.push(Step::Act(Action::Newlines(n))),
                exps.push(Seq::empty()),
            );
            let feeds = Seq::new(n as nat, |i: int| '\n');
            &&& d.bullet_list ==> after == (Draft { out: body + feeds + seq!['-', ' '], ..d })
            &&& !d.bullet_list ==> after == (Draft { out: body + feeds, ..d })
        }),
{
    lemma_one_step(raw, steps, exps, Step::Act(Action::Newlines(n)), Seq::empty());
    lemma_blanks_go(body, tail);
    lemma_newlines(body, n as nat);
    let feeds = Seq::new(n as nat, |i: int| '\n');
    assert(body + feeds + Seq::<char>::empty() =~= body + feeds);
}

proof fn lemma_newlines(out: Seq<char>, n: nat)
    ensures
        commands::with_newlines(out, n) == out + Seq::new(n, |i: int| '\n'),
    decreases n,
{
    if n > 0 {
        lemma_newlines(out, (n - 1) as nat);
    }
    assert(commands::with_newlines(out, n) =~= out + Seq::new(n, |i: int| '\n'));
}

/// "Bullet list" opens a bullet on a line of its own, and from then on new
/// lines open with one.
pub proof fn law_list_is_started(
    raw: Seq<Seq<char>>,
    steps: Seq<Step>,
    exps: Seq<Seq<char>>,
    body: Seq<char>,
    tail: Seq<char>,
)
    requires
        commands::walked(raw, steps, exps).out == body + tail,
        ends_firmly(body),
        blanks(tail),
    ensures
        ({
            let d = commands::walked(raw, steps, exps);
            let after = commands::walked(
                raw,
                steps.push(Step::Act(Action::BulletList)),
                exps.push(Seq::empty()),
            );
            let own = body.len() == 0 || body.last() == '\n';
            &&& own ==> after == (Draft { out: body + seq!['-', ' '], bullet_list: true, ..d })
            &&& !own ==> after == (Draft {
                out: body + seq!['\n', '-', ' '],
                bullet_list: true,
                ..d
            })
        }),
{
    lemma_one_step(raw, steps, exps, Step::Act(Action::BulletList), Seq::empty());
    lemma_blanks_go(body, tail);
    assert(body.push('\n') + seq!['-', ' '] =~= body + seq!['\n', '-', ' ']);
}

/// "Scratch that" drops what stands behind the last sentence end, and only
/// that.
pub proof fn law_sentence_is_scratched(
    raw: Seq<Seq<char>>,
    steps: Seq<Step>,
    exps: Seq<Seq<char>>,
    kept: Seq<char>,
    rest: Seq<char>,
)
    requires
        commands::walked(raw, steps, exps).out == kept + rest,
        kept.len() > 0 ==> kept.last() == '.' || kept.last() == '!' || kept.last() == '?',
        forall|i: int|
            0 <= i < rest.len() ==> #[trigger] rest[i] != '.' && rest[i] != '!' && rest[i] != '?',
    ensures
        commands::walked(
            raw,
            steps.push(Step::Act(Action::ScratchPrevSentence)),
            exps.push(Seq::empty()),
        ) == (Draft { out: kept, ..commands::walked(raw, steps, exps) }),
{
    lemma_one_step(raw, steps, exps, Step::Act(Action::ScratchPrevSentence), Seq::empty());
    lemma_scratched(kept, rest);
}

proof fn lemma_scratched(kept: Seq<char>, rest: Seq<char>)
    requires
        kept.len() > 0 ==> kept.last() == '.' || kept.last() == '!' || kept.last() == '?',
        forall|i: int|
            0 <= i < rest.len() ==> #[trigger] rest[i] != '.' && rest[i] != '!' && rest[i] != '?',
    ensures
        commands::up_to_sentence_end(kept + rest) == kept,
    decreases rest.len(),
{
    if rest.len() == 0 {
        assert(kept + rest =~= kept);
    } else {
        let r = rest.drop_last();
        assert(rest[rest.len() - 1] != '.');
        assert forall|i: int| 0 <= i < r.len() implies #[trigger] r[i] != '.' && r[i] != '!' && r[i]
            != '?' by {
            assert(rest[i] != '.');
        }
        assert((kept + rest).drop_last() =~= kept + r);
        lemma_scratched(kept, r);
    }
}

/// Whether every character of a text is a letter.
pub open spec fn letters(s: Seq<char>) -> bool {
    forall|i: int| 0 <= i < s.len() ==> chars::alphabetic(#[trigger] s[i])
}

/// Whether no character of a text is a letter.
pub open spec fn letterless(s: Seq<char>) -> bool {
    forall|i: int| 0 <= i < s.len() ==> !chars::alphabetic(#[trigger] s[i])
}

/// "Cap that" puts the first letter of the last word into upper case, and
/// nothing else. A text without letters stays.
pub proof fn law_word_is_capitalised(
    raw: Seq<Seq<char>>,
    steps: Seq<Step>,
    exps: Seq<Seq<char>>,
    before: Seq<char>,
    word: Seq<char>,
    after: Seq<char>,
)
    requires
        commands::walked(raw, steps, exps).out == before + word + after,
        letters(word),
        letterless(after),
        before.len() > 0 ==> !chars::alphabetic(before.last()),
        word.len() == 0 ==> letterless(before),
    ensures
        ({
            let d = commands::walked(raw, steps, exps);
            let capped = commands::walked(
                raw,
                steps.push(Step::Act(Action::CapPrevWord)),
                exps.push(Seq::empty()),
            );
            &&& word.len() == 0 ==> capped == d
            &&& word.len() > 0 ==> capped == (Draft {
                out: before + chars::uppercase(seq![word[0]]) + word.skip(1) + after,
                ..d
            })
        }),
{
    lemma_one_step(raw, steps, exps, Step::Act(Action::CapPrevWord), Seq::empty());
    lemma_capitalised(before, word, after);
}

proof fn lemma_capitalised(before: Seq<char>, word: Seq<char>, after: Seq<char>)
    requires
        letters(word),
        letterless(after),
        before.len() > 0 ==> !chars::alphabetic(before.last()),
        word.len() == 0 ==> letterless(before),
    ensures
        commands::last_word_capitalised(before + word + after) == (if word.len() == 0 {
            before + word + after
        } else {
            before + chars::uppercase(seq![word[0]]) + word.skip(1) + after
        }),
{
    let out = before + word + after;
    if word.len() == 0 {
        assert forall|i: int| 0 <= i < out.len() implies !chars::alphabetic(#[trigger] out[i]) by {
            if i < before.len() {
                assert(!chars::alphabetic(before[i]));
            } else {
                assert(!chars::alphabetic(after[i - before.len()]));
            }
        }
        lemma_letters_end(Seq::empty(), out);
        assert(Seq::<char>::empty() + out =~= out);
    } else {
        assert(chars::alphabetic(word[word.len() - 1]));
        lemma_letters_end(before + word, after);
        let end = (before + word).len() as int;
        assert(out.take(end) =~= before + word);
        lemma_letters_start(before, word);
        assert(out[before.len() as int] == word[0]);
        assert(out.take(before.len() as int) =~= before);
        assert(out.skip((before.len() + 1) as int) =~= word.skip(1) + after);
        let up = chars::uppercase(seq![word[0]]);
        assert(before + up + (word.skip(1) + after) =~= before + up + word.skip(1) + after);
    }
}

proof fn lemma_letters_end(head: Seq<char>, tail: Seq<char>)
    requires
        head.len() > 0 ==> chars::alphabetic(head.last()),
        letterless(tail),
    ensures
        commands::letters_end(head + tail) == head.len(),
    decreases tail.len(),
{
    if tail.len() == 0 {
        assert(head + tail =~= head);
    } else {
        let t = tail.drop_last();
        assert(!chars::alphabetic(tail[tail.len() - 1]));
        assert forall|i: int| 0 <= i < t.len() implies !chars::alphabetic(#[trigger] t[i]) by {
            assert(!chars::alphabetic(tail[i]));
        }
        assert((head + tail).drop_last() =~= head + t);
        lemma_letters_end(head, t);
    }
}

proof fn lemma_letters_start(head: Seq<char>, word: Seq<char>)
    requires
        head.len() > 0 ==> !chars::alphabetic(head.last()),
        letters(word),
    ensures
        commands::letters_start(head + word) == head.len(),
    decreases word.len(),
{
    if word.len() == 0 {
        assert(head + word =~= head);
    } else {
        let w = word.drop_last();
        assert(chars::alphabetic(word[word.len() - 1]));
        assert forall|i: int| 0 <= i < w.len() implies chars::alphabetic(#[trigger] w[i]) by {
            assert(chars::alphabetic(word[i]));
        }
        assert((head + word).drop_last() =~= head + w);
        lemma_letters_start(head, w);
    }
}

/// The commands that only set something leave the text as it is, and set what
/// they name and nothing else.
pub proof fn law_settings_are_set(
    raw: Seq<Seq<char>>,
    steps: Seq<Step>,
    exps: Seq<Seq<char>>,
    on: bool,
)
    ensures
        ({
            let d = commands::walked(raw, steps, exps);
            let e = exps.push(Seq::empty());
            &&& commands::walked(raw, steps.push(Step::Act(Action::SetAllCaps(on))), e) == (Draft {
                all_caps: on,
                ..d
            })
            &&& commands::walked(raw, steps.push(Step::Act(Action::ClipboardInstead)), e) == (
            Draft { clipboard_only: true, ..d })
            &&& commands::walked(raw, steps.push(Step::Act(Action::CodeMode)), e) == (Draft {
                code_mode: true,
                ..d
            })
        }),
{
    lemma_one_step(raw, steps, exps, Step::Act(Action::SetAllCaps(on)), Seq::empty());
    lemma_one_step(raw, steps, exps, Step::Act(Action::ClipboardInstead), Seq::empty());
    lemma_one_step(raw, steps, exps, Step::Act(Action::CodeMode), Seq::empty());
}

/// A word goes behind the text as it was heard, or in capitals where those are
/// on. A space comes between them unless the text is empty or ends in white
/// space.
pub proof fn law_word_is_written(
    raw: Seq<Seq<char>>,
    steps: Seq<Step>,
    exps: Seq<Seq<char>>,
    i: int,
)
    requires
        0 <= i < raw.len(),
        raw[i].len() > 0,
        commands::walked(raw, steps, exps).all_caps ==> chars::uppercase(raw[i]).len() > 0,
    ensures
        ({
            let d = commands::walked(raw, steps, exps);
            let after = commands::walked(raw, steps.push(Step::Say(i)), exps.push(Seq::empty()));
            let close = d.out.len() == 0 || chars::white_space(d.out.last());
            let gap = if close {
                Seq::<char>::empty()
            } else {
                seq![' ']
            };
            &&& d.all_caps ==> after == (Draft {
                out: d.out + gap + chars::uppercase(raw[i]),
                ..d
            })
            &&& !d.all_caps ==> after == (Draft { out: d.out + gap + raw[i], ..d })
        }),
{
    lemma_one_step(raw, steps, exps, Step::Say(i), Seq::empty());
    let d = commands::walked(raw, steps, exps);
    assert(d.out + Seq::<char>::empty() =~= d.out);
    assert(d.out.push(' ') =~= d.out + seq![' ']);
}

/// An expansion goes behind the text as it is, whether or not capitals are on.
/// A space comes between them unless the text is empty or ends in white space,
/// or the expansion starts with white space or is empty.
pub proof fn law_expansion_is_written(
    raw: Seq<Seq<char>>,
    steps: Seq<Step>,
    exps: Seq<Seq<char>>,
    k: int,
    expansion: Seq<char>,
)
    ensures
        ({
            let d = commands::walked(raw, steps, exps);
            let after = commands::walked(raw, steps.push(Step::Expand(k)), exps.push(expansion));
            let close = d.out.len() == 0 || chars::white_space(d.out.last()) || expansion.len() == 0
                || chars::white_space(expansion[0]);
            &&& close ==> after == (Draft { out: d.out + expansion, ..d })
            &&& !close ==> after == (Draft { out: d.out + seq![' '] + expansion, ..d })
        }),
{
    lemma_one_step(raw, steps, exps, Step::Expand(k), expansion);
    let d = commands::walked(raw, steps, exps);
    assert(d.out.push(' ') =~= d.out + seq![' ']);
    if expansion.len() == 0 {
        assert(d.out + expansion =~= d.out);
    }
}

/// What the user gets is the text without the white space at its end, and what
/// was set.
pub proof fn law_result_is_the_draft(d: Draft, r: CommandResult, body: Seq<char>, tail: Seq<char>)
    requires
        commands::result_of(d, r),
        d.out == body + tail,
        laws::text::all_of(Class::WhiteSpace, tail),
        body.len() > 0 ==> !chars::white_space(body.last()),
    ensures
        r.text@ == body,
        r.clipboard_only == d.clipboard_only,
        r.code_mode == d.code_mode,
{
    laws::text::law_trimmed_end(Class::WhiteSpace, body, tail);
}

/// Whether a pattern stands nowhere in a text before position `p`.
pub open spec fn nowhere_before(pat: Seq<char>, s: Seq<char>, p: int) -> bool {
    forall|i: int| 0 <= i < p && i + pat.len() <= s.len() ==> #[trigger] s.subrange(
        i,
        i + pat.len(),
    ) != pat
}

/// A template is text up to the first double brace that opens, a variable up
/// to the first that closes behind it, and then the pieces of the rest.
pub proof fn law_template_pieces(template: Seq<char>, p: int, q: int)
    requires
        0 <= p,
        p + 2 <= q,
        q + 2 <= template.len(),
        template.subrange(p, p + 2) == seq!['{', '{'],
        nowhere_before(seq!['{', '{'], template, p),
        template.subrange(q, q + 2) == seq!['}', '}'],
        nowhere_before(seq!['}', '}'], template.skip(p + 2), q - p - 2),
    ensures
        commands::pieces(template) == seq![
            Piece::Text(template.take(p)),
            Piece::Var(template.subrange(p + 2, q)),
        ] + commands::pieces(template.skip(q + 2)),
{
    text::lemma_first_from_occurs(template, commands::opening(), 0);
    assert(text::occurs_at(template, commands::opening(), p));
    let after = template.skip(p + 2);
    text::lemma_first_from_occurs(after, commands::closing(), 0);
    assert(after.subrange(q - p - 2, q - p) =~= template.subrange(q, q + 2));
    assert(text::occurs_at(after, commands::closing(), q - p - 2));
    assert(after.take(q - p - 2) =~= template.subrange(p + 2, q));
    assert(after.skip(q - p) =~= template.skip(q + 2));
    let x = text::first_of(template, commands::opening())->0;
    if x < p {
        assert(template.subrange(x, x + 2) == commands::opening());
    }
    let y = text::first_of(after, commands::closing())->0;
    if y < q - p - 2 {
        assert(after.subrange(y, y + 2) == commands::closing());
    }
}

/// A template in which no variable is opened and closed is one text.
pub proof fn law_template_without_variables(template: Seq<char>)
    requires
        forall|p: int, q: int|
            0 <= p && p + 2 <= q && q + 2 <= template.len() && #[trigger] template.subrange(
                p,
                p + 2,
            ) == seq!['{', '{'] ==> #[trigger] template.subrange(q, q + 2) != seq!['}', '}'],
    ensures
        commands::pieces(template) == seq![Piece::Text(template)],
{
    text::lemma_first_from_occurs(template, commands::opening(), 0);
    if let Some(p) = text::first_of(template, commands::opening()) {
        let after = template.skip(p + 2);
        text::lemma_first_from_occurs(after, commands::closing(), 0);
        if let Some(y) = text::first_of(after, commands::closing()) {
            assert(after.subrange(y, y + 2) =~= template.subrange(p + 2 + y, p + 4 + y));
            assert(template.subrange(p, p + 2) == seq!['{', '{']);
            assert(template.subrange(p + 2 + y, p + 2 + y + 2) == seq!['}', '}']);
        }
    }
}

/// Pieces are written one after the other: texts as they are, a variable by
/// its value, and one without a value as it stands.
pub proof fn law_pieces_are_written(
    pieces: Seq<Piece>,
    values: Seq<Option<Seq<char>>>,
    text: Seq<char>,
    key: Seq<char>,
    value: Seq<char>,
)
    ensures
        commands::filled(Seq::empty(), values) == Seq::<char>::empty(),
        commands::filled(pieces.push(Piece::Text(text)), values.push(None)) == commands::filled(
            pieces,
            values,
        ) + text,
        commands::filled(pieces.push(Piece::Var(key)), values.push(Some(value)))
            == commands::filled(pieces, values) + value,
        commands::filled(pieces.push(Piece::Var(key)), values.push(None)) == commands::filled(
            pieces,
            values,
        ) + (seq!['{', '{'] + key + seq!['}', '}']),
{
    assert(pieces.push(Piece::Text(text)).drop_last() =~= pieces);
    assert(pieces.push(Piece::Var(key)).drop_last() =~= pieces);
    assert(values.push(None).drop_last() =~= values);
    assert(values.push(Some(value)).drop_last() =~= values);
}

/// Every snippet that a walk comes to is expanded on its own.
pub proof fn law_every_snippet_expands<F: Fn(&str) -> Option<String>>(
    resolve: F,
    snippets: Seq<Snippet>,
    steps: Seq<Step>,
    expansions: Seq<Seq<char>>,
)
    ensures
        commands::expanded(resolve, snippets, steps, expansions) <==> expansions.len()
            == steps.len() && forall|i: int|
            0 <= i < steps.len() ==> (#[trigger] steps[i] matches Step::Expand(k)
                ==> commands::snippet_expands(resolve, snippets[k], expansions[i])),
{
}

/// A snippet that is not dynamic is written as it is stored.
pub proof fn law_static_snippet<F: Fn(&str) -> Option<String>>(
    resolve: F,
    snippet: Snippet,
    out: Seq<char>,
)
    requires
        commands::snippet_expands(resolve, snippet, out),
        !snippet.is_dynamic,
    ensures
        out == snippet.expansion@,
{
}

/// A dynamic snippet is written piece by piece; the key of a variable is what
/// stands between its braces, without the white space around it.
pub proof fn law_dynamic_snippet<F: Fn(&str) -> Option<String>>(
    resolve: F,
    snippet: Snippet,
    out: Seq<char>,
) -> (values: Seq<Option<Seq<char>>>)
    requires
        commands::snippet_expands(resolve, snippet, out),
        snippet.is_dynamic,
    ensures
        values.len() == commands::pieces(snippet.expansion@).len(),
        out == commands::filled(commands::pieces(snippet.expansion@), values),
        forall|i: int|
            0 <= i < values.len() ==> (#[trigger] commands::pieces(snippet.expansion@)[i] matches
                Piece::Var(k) ==> exists|a: &str, r: Option<String>| #[trigger]
                call_ensures(resolve, (a,), r) && a@ == text::trimmed(Class::WhiteSpace, k)
                    && text::opt_text(r) == values[i]),
{
    let ps = commands::pieces(snippet.expansion@);
    let values = choose|values: Seq<Option<Seq<char>>>| #[trigger]
        commands::answered(resolve, ps, values) && out == commands::filled(ps, values);
    assert forall|i: int| 0 <= i < values.len() implies (#[trigger] ps[i] matches Piece::Var(k)
        ==> exists|a: &str, r: Option<String>| #[trigger]
        call_ensures(resolve, (a,), r) && a@ == text::trimmed(Class::WhiteSpace, k)
            && text::opt_text(r) == values[i]) by {
        if let Piece::Var(k) = ps[i] {
            assert(commands::resolves(resolve, text::trimmed(Class::WhiteSpace, k), values[i]));
            let (a, r) = choose|a: &str, r: Option<String>| #[trigger]
                call_ensures(resolve, (a,), r) && a@ == text::trimmed(Class::WhiteSpace, k)
                    && commands::answer(r) == values[i];
            assert(text::opt_text(r) == commands::answer(r));
        }
    }
    values
}

} // verus!
