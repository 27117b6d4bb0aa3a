//! Phrases that are heard in silence.
use vstd::prelude::*;
use crate::chars;
use crate::cleanup::scrub;
use crate::laws;
use crate::text;
use crate::text::Class;

verus! {

/// Whether a phrase is one that is heard in silence.
pub open spec fn heard_in_silence(phrase: Seq<char>) -> bool {
    ||| phrase == "Thanks for watching!"@
    ||| phrase == "Thanks for watching."@
    ||| phrase == "Thank you for watching."@
    ||| phrase == "Thank you for watching!"@
    ||| phrase == "Thank you."@
    ||| phrase == "Thanks."@
    ||| phrase == "Subtitles by the Amara.org community"@
    ||| phrase == "Transcribed by ESO Translates"@
    ||| phrase == "[Music]"@
    ||| phrase == "(music)"@
    ||| phrase == "♪"@
}

proof fn lemma_phrases(phrase: Seq<char>)
    ensures
        heard_in_silence(phrase) == scrub::hallucinations().contains(phrase),
        heard_in_silence(phrase) ==> phrase.len() > 0,
{
    let all = scrub::hallucinations();
    assert(all.len() == 11);
    assert(all[0] == "Thanks for watching!"@);
    assert(all[1] == "Thanks for watching."@);
    assert(all[2] == "Thank you for watching."@);
    assert(all[3] == "Thank you for watching!"@);
    assert(all[4] == "Thank you."@);
    assert(all[5] == "Thanks."@);
    assert(all[6] == "Subtitles by the Amara.org community"@);
    assert(all[7] == "Transcribed by ESO Translates"@);
    assert(all[8] == "[Music]"@);
    assert(all[9] == "(music)"@);
    assert(all[10] == "♪"@);
    reveal_strlit("Thanks for watching!");
    reveal_strlit("Thanks for watching.");
    reveal_strlit("Thank you for watching.");
    reveal_strlit("Thank you for watching!");
    reveal_strlit("Thank you.");
    reveal_strlit("Thanks.");
    reveal_strlit("Subtitles by the Amara.org community");
    reveal_strlit("Transcribed by ESO Translates");
    reveal_strlit("[Music]");
    reveal_strlit("(music)");
    reveal_strlit("♪");
    if heard_in_silence(phrase) {
        assert(all.contains(phrase));
    }
    if all.contains(phrase) {
        let k = all.index_of(phrase);
        assert(all[k] == phrase);
    }
}

/// Whether a text is one of the phrases, up to ASCII case.
pub open spec fn is_phrase(s: Seq<char>) -> bool {
    exists|phrase: Seq<char>| #[trigger] heard_in_silence(phrase) && text::same_caseless(s, phrase)
}

/// Whether one of the phrases stands in a text from `i` to `j`.
pub open spec fn phrase_at(s: Seq<char>, i: int, j: int) -> bool {
    0 <= i < j <= s.len() && is_phrase(s.subrange(i, j))
}

proof fn lemma_phrase_at(s: Seq<char>, i: int, j: int)
    ensures
        phrase_at(s, i, j) == (0 <= i < j <= s.len() && exists|k: int|
            0 <= k < scrub::hallucinations().len() && #[trigger] scrub::pattern_at(
                scrub::hallucinations()[k],
                s,
                i,
            ) && scrub::hallucinations()[k].len() == j - i),
{
    let all = scrub::hallucinations();
    if phrase_at(s, i, j) {
        let phrase = choose|phrase: Seq<char>| #[trigger]
            heard_in_silence(phrase) && text::same_caseless(s.subrange(i, j), phrase);
        lemma_phrases(phrase);
        let k = all.index_of(phrase);
        assert(all[k] == phrase);
        assert(scrub::pattern_at(all[k], s, i));
    }
    if 0 <= i < j <= s.len() && exists|k: int|
        0 <= k < all.len() && #[trigger] scrub::pattern_at(all[k], s, i) && all[k].len() == j - i {
        let k = choose|k: int|
            0 <= k < all.len() && #[trigger] scrub::pattern_at(all[k], s, i) && all[k].len() == j
                - i;
        lemma_phrases(all[k]);
        assert(all.contains(all[k]));
        assert(heard_in_silence(all[k]));
    }
}

proof fn lemma_longest_reaches(s: Seq<char>, i: int, j: int)
    requires
        phrase_at(s, i, j),
    ensures
        scrub::longest_at(scrub::hallucinations(), s, i, scrub::hallucinations().len() as int) >= j
            - i,
        scrub::longest_at(scrub::hallucinations(), s, i, scrub::hallucinations().len() as int)
            <= s.len() - i,
{
    let all = scrub::hallucinations();
    lemma_phrase_at(s, i, j);
    scrub::lemma_longest_at(all, s, i, all.len() as int);
}

proof fn lemma_next_reaches(s: Seq<char>, from: int, i: int, j: int)
    requires
        0 <= from <= i,
        phrase_at(s, i, j),
    ensures
        scrub::next_match(scrub::hallucinations(), s, from) matches Some(m) && m.0 <= i,
    decreases i - from,
{
    let all = scrub::hallucinations();
    if from == i {
        lemma_longest_reaches(s, i, j);
    } else if scrub::longest_at(all, s, from, all.len() as int) == 0 {
        lemma_next_reaches(s, from + 1, i, j);
    }
}

proof fn lemma_last_match(s: Seq<char>, from: int, n: int)
    requires
        0 <= from <= n < s.len(),
        phrase_at(s, n, s.len() as int),
        forall|i: int, j: int| 0 <= i < n && #[trigger] phrase_at(s, i, j) ==> j <= n,
    ensures
        scrub::matches_from(scrub::hallucinations(), s, from).len() > 0,
        scrub::matches_from(scrub::hallucinations(), s, from).last() == (n, s.len() as int),
    decreases n - from,
{
    let all = scrub::hallucinations();
    lemma_next_reaches(s, from, n, s.len() as int);
    scrub::lemma_next_match(all, s, from);
    let m = scrub::next_match(all, s, from)->0;
    lemma_phrase_at(s, m.0, m.1);
    assert(phrase_at(s, m.0, m.1));
    let rest = scrub::matches_from(all, s, m.1);
    assert(scrub::matches_from(all, s, from) == seq![m] + rest);
    if m.0 < n {
        lemma_last_match(s, m.1, n);
    } else {
        lemma_longest_reaches(s, n, s.len() as int);
        lemma_match_is_longest(s, from);
        assert(rest.len() == 0);
    }
}

proof fn lemma_match_is_longest(s: Seq<char>, from: int)
    ensures
        scrub::next_match(scrub::hallucinations(), s, from) matches Some(m) ==> m.1 - m.0
            == scrub::longest_at(
            scrub::hallucinations(),
            s,
            m.0,
            scrub::hallucinations().len() as int,
        ),
    decreases s.len() - from,
{
    let all = scrub::hallucinations();
    if 0 <= from < s.len() && scrub::longest_at(all, s, from, all.len() as int) == 0 {
        lemma_match_is_longest(s, from + 1);
    }
}

/// A line that ends in a phrase, white space aside, loses it and the white
/// space before it, however long the text before it is. The phrase must not
/// start inside another.
pub proof fn law_last_phrase_goes(
    kept: Seq<char>,
    gap: Seq<char>,
    phrase: Seq<char>,
    tail: Seq<char>,
)
    requires
        kept.len() > 0 ==> !chars::white_space(kept.last()),
        laws::text::all_of(Class::WhiteSpace, gap),
        laws::text::all_of(Class::WhiteSpace, tail),
        is_phrase(phrase),
        forall|i: int, j: int|
            0 <= i < kept.len() + gap.len() && #[trigger] phrase_at(kept + gap + phrase, i, j) ==> j
                <= kept.len() + gap.len(),
    ensures
        scrub::without_tail(kept + gap + phrase + tail) == kept,
{
    let t = kept + gap + phrase;
    let n = (kept + gap).len() as int;
    lemma_phrase_ends(phrase);
    assert(t.last() == phrase.last());
    laws::text::law_trimmed_end(Class::WhiteSpace, t, tail);
    assert(t.subrange(n, t.len() as int) =~= phrase);
    assert(phrase_at(t, n, t.len() as int));
    lemma_last_match(t, 0, n);
    assert(t.take(n) =~= kept + gap);
    laws::text::law_trimmed_end(Class::WhiteSpace, kept, gap);
}

/// No phrase is empty, and none starts or ends in white space.
proof fn lemma_phrase_ends(phrase: Seq<char>)
    requires
        is_phrase(phrase),
    ensures
        phrase.len() > 0,
        !chars::white_space(phrase[0]),
        !chars::white_space(phrase.last()),
{
    let p = choose|p: Seq<char>| #[trigger]
        heard_in_silence(p) && text::same_caseless(phrase, p);
    reveal_strlit("Thanks for watching!");
    reveal_strlit("Thanks for watching.");
    reveal_strlit("Thank you for watching.");
    reveal_strlit("Thank you for watching!");
    reveal_strlit("Thank you.");
    reveal_strlit("Thanks.");
    reveal_strlit("Subtitles by the Amara.org community");
    reveal_strlit("Transcribed by ESO Translates");
    reveal_strlit("[Music]");
    reveal_strlit("(music)");
    reveal_strlit("♪");
    assert(chars::same_ascii_caseless(phrase[0], p[0]));
    let n = phrase.len() - 1;
    assert(chars::same_ascii_caseless(phrase[n], p[n]));
}

/// A line at whose end no phrase stands, white space aside, keeps its end.
pub proof fn law_other_ends_stay(body: Seq<char>, tail: Seq<char>)
    requires
        body.len() > 0 ==> !chars::white_space(body.last()),
        laws::text::all_of(Class::WhiteSpace, tail),
        forall|i: int| !#[trigger] phrase_at(body, i, body.len() as int),
    ensures
        scrub::without_tail(body + tail) == body + tail,
{
    let all = scrub::hallucinations();
    laws::text::law_trimmed_end(Class::WhiteSpace, body, tail);
    let found = scrub::matches_from(all, body, 0);
    scrub::lemma_matches_from(all, body, 0);
    if found.len() > 0 {
        let m = found[found.len() - 1];
        lemma_phrase_at(body, m.0, m.1);
        assert(phrase_at(body, m.0, m.1));
    }
}

/// A line that is a phrase and white space around it is one that goes, and no
/// other is.
pub proof fn law_lines_that_go(head: Seq<char>, body: Seq<char>, tail: Seq<char>)
    requires
        laws::text::all_of(Class::WhiteSpace, head),
        laws::text::all_of(Class::WhiteSpace, tail),
        laws::text::bare(Class::WhiteSpace, body),
    ensures
        scrub::is_hallucination(head + body + tail) == is_phrase(body),
{
    let all = scrub::hallucinations();
    laws::text::law_trimmed(Class::WhiteSpace, head, body, tail);
    assert(body.subrange(0, body.len() as int) =~= body);
    if is_phrase(body) {
        lemma_phrase_ends(body);
        assert(phrase_at(body, 0, body.len() as int));
        lemma_longest_reaches(body, 0, body.len() as int);
    }
    if scrub::is_hallucination(head + body + tail) {
        scrub::lemma_next_match(all, body, 0);
        lemma_phrase_at(body, 0, body.len() as int);
        assert(phrase_at(body, 0, body.len() as int));
    }
}

proof fn lemma_kept_of_both(a: Seq<Seq<char>>, b: Seq<Seq<char>>)
    ensures
        scrub::kept_lines(a + b) == scrub::kept_lines(a) + scrub::kept_lines(b),
    decreases b.len(),
{
    if b.len() == 0 {
        assert(a + b =~= a);
        assert(scrub::kept_lines(a) + scrub::kept_lines(b) =~= scrub::kept_lines(a));
    } else {
        let d = b.drop_last();
        lemma_kept_of_both(a, d);
        assert((a + b).drop_last() =~= a + d);
        assert((a + b).last() == b.last());
        let w = scrub::without_tail(b.last());
        assert((scrub::kept_lines(a) + scrub::kept_lines(d)).push(w) =~= scrub::kept_lines(a)
            + scrub::kept_lines(d).push(w));
    }
}

proof fn lemma_kept_one(line: Seq<char>)
    ensures
        scrub::kept_lines(seq![line]) == (if scrub::is_hallucination(line) {
            Seq::<Seq<char>>::empty()
        } else {
            seq![scrub::without_tail(line)]
        }),
{
    assert(seq![line].drop_last() =~= Seq::empty());
    assert(scrub::kept_lines(Seq::empty()) =~= Seq::empty());
    assert(Seq::<Seq<char>>::empty().push(scrub::without_tail(line)) =~= seq![
        scrub::without_tail(line),
    ]);
}

/// A text of one line is empty afterwards where the line is one that goes;
/// else it is what stays of the line, without the blanks at its end.
pub proof fn law_one_line(line: Seq<char>)
    requires
        !line.contains('\n'),
        line.len() > 0,
    ensures
        scrub::is_hallucination(line) ==> scrub::scrubbed(line).len() == 0,
        !scrub::is_hallucination(line) ==> scrub::scrubbed(line) == text::trimmed_end(
            Class::Blank,
            scrub::without_tail(line),
        ),
        scrub::scrubbed(Seq::empty()).len() == 0,
{
    laws::text::law_lines_of_parts(line, Seq::empty());
    lemma_kept_one(line);
    assert(line.contains(line.last()));
    assert(scrub::kept_lines(Seq::empty()) =~= Seq::empty());
}

proof fn lemma_blanks_behind(a: Seq<char>, b: Seq<char>)
    ensures
        text::trimmed_end(Class::Blank, a + seq!['\n'] + b) == a + seq!['\n'] + text::trimmed_end(
            Class::Blank,
            b,
        ),
    decreases b.len(),
{
    let s = a + seq!['\n'] + b;
    if b.len() == 0 {
        assert(s.last() == '\n');
    } else {
        assert(s.drop_last() =~= a + seq!['\n'] + b.drop_last());
        lemma_blanks_behind(a, b.drop_last());
    }
}

/// What stays of the lines of a text does not depend on the others. A first
/// line that goes leaves no trace; one that stays is followed by a line feed
/// and what stays of the rest, and by nothing where none of the rest stays.
pub proof fn law_first_line(line: Seq<char>, rest: Seq<char>)
    requires
        !line.contains('\n'),
        line.len() > 0 ==> line.last() != '\r',
        rest.len() > 0,
    ensures
        ({
            let s = line + seq!['\n'] + rest;
            let others = exists|j: int|
                0 <= j < text::lines(rest).len() && !scrub::is_hallucination(
                    #[trigger] text::lines(rest)[j],
                );
            &&& scrub::is_hallucination(line) ==> scrub::scrubbed(s) == scrub::scrubbed(rest)
            &&& !scrub::is_hallucination(line) && others ==> scrub::scrubbed(s)
                == scrub::without_tail(line) + seq!['\n'] + scrub::scrubbed(rest)
            &&& !scrub::is_hallucination(line) && !others && rest.last() == '\n'
                ==> scrub::scrubbed(s) == scrub::without_tail(line) + seq!['\n']
            &&& !scrub::is_hallucination(line) && !others && rest.last() != '\n'
                ==> scrub::scrubbed(s) == text::trimmed_end(
                Class::Blank,
                scrub::without_tail(line),
            )
        }),
{
    let s = line + seq!['\n'] + rest;
    let kept = scrub::kept_lines(text::lines(rest));
    laws::text::law_lines_of_parts(line, rest);
    lemma_kept_of_both(seq![line], text::lines(rest));
    lemma_kept_one(line);
    assert(s.last() == rest.last());
    let sep = seq!['\n'];
    let w = scrub::without_tail(line);
    lemma_any_kept(text::lines(rest));
    if scrub::is_hallucination(line) {
        assert(Seq::<Seq<char>>::empty() + kept =~= kept);
    } else if kept.len() > 0 {
        laws::text::law_joined_of_parts(seq![w], kept, sep);
        laws::text::law_joined_few(w, sep);
        let body = text::joined(kept, sep);
        if s.last() == '\n' {
            assert((w + sep + body).push('\n') =~= w + sep + body.push('\n'));
            lemma_blanks_behind(w, body.push('\n'));
        } else {
            lemma_blanks_behind(w, body);
        }
    } else {
        assert(seq![w] + kept =~= seq![w]);
        laws::text::law_joined_few(w, sep);
        if s.last() == '\n' {
            assert(w.push('\n') =~= w + sep + Seq::<char>::empty());
            lemma_blanks_behind(w, Seq::empty());
            assert(w + sep + Seq::<char>::empty() =~= w + sep);
        }
    }
}

proof fn lemma_any_kept(lines: Seq<Seq<char>>)
    ensures
        scrub::kept_lines(lines).len() > 0 <==> exists|j: int|
            0 <= j < lines.len() && !scrub::is_hallucination(#[trigger] lines[j]),
    decreases lines.len(),
{
    if lines.len() > 0 {
        let d = lines.drop_last();
        lemma_any_kept(d);
        if scrub::kept_lines(d).len() > 0 {
            let j = choose|j: int| 0 <= j < d.len() && !scrub::is_hallucination(#[trigger] d[j]);
            assert(lines[j] == d[j]);
        }
        if !scrub::is_hallucination(lines.last()) {
            assert(!scrub::is_hallucination(lines[lines.len() - 1]));
        } else if exists|j: int| 0 <= j < lines.len() && !scrub::is_hallucination(#[trigger] lines[j]) {
            let j = choose|j: int|
                0 <= j < lines.len() && !scrub::is_hallucination(#[trigger] lines[j]);
            assert(d[j] == lines[j]);
        }
    }
}

/// A text that ends in its only line feed keeps it.
pub proof fn law_one_line_with_its_feed(line: Seq<char>)
    requires
        !line.contains('\n'),
        line.len() > 0 ==> line.last() != '\r',
    ensures
        scrub::is_hallucination(line) ==> scrub::scrubbed(line + seq!['\n']) == seq!['\n'],
        !scrub::is_hallucination(line) ==> scrub::scrubbed(line + seq!['\n'])
            == scrub::without_tail(line) + seq!['\n'],
{
    let none = Seq::<char>::empty();
    let s = line + seq!['\n'];
    laws::text::law_lines_of_parts(line, none);
    assert(line + seq!['\n'] + none =~= s);
    assert(seq![line] + Seq::<Seq<char>>::empty() =~= seq![line]);
    lemma_kept_one(line);
    let w = scrub::without_tail(line);
    laws::text::law_joined_few(w, seq!['\n']);
    lemma_blanks_behind(w, none);
    lemma_blanks_behind(none, none);
    assert(w.push('\n') =~= w + seq!['\n'] + none);
    assert(w + seq!['\n'] + none =~= w + seq!['\n']);
    assert(none.push('\n') =~= none + seq!['\n'] + none);
    assert(none + seq!['\n'] + none =~= seq!['\n']);
}

} // verus!
