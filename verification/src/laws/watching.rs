//! Edits that are watched and learned from.
use vstd::prelude::*;
use crate::chars;
use crate::laws;
use crate::learning::diff;
use crate::learning::diff::PairText;
use crate::learning::similarity;
use crate::recorder::autolearn;
use crate::recorder::watcher;
use crate::recorder::watcher::{Glance, Look, Watch};
use crate::text;
use crate::text::Class;

verus! {

/// Texts are compared word by word, with one space between each two words and
/// no white space around them.
pub proof fn law_normal_form(a: Seq<char>, c: char, b: Seq<char>)
    requires
        chars::white_space(c),
    ensures
        laws::text::all_of(Class::WhiteSpace, a) ==> autolearn::normal_form(a).len() == 0,
        a.len() > 0 && laws::text::none_of(Class::WhiteSpace, a) ==> autolearn::normal_form(a) == a,
        laws::text::all_of(Class::WhiteSpace, a) ==> autolearn::normal_form(a + seq![c] + b)
            == autolearn::normal_form(b),
        laws::text::all_of(Class::WhiteSpace, b) ==> autolearn::normal_form(a + seq![c] + b)
            == autolearn::normal_form(a),
        !laws::text::all_of(Class::WhiteSpace, a) && !laws::text::all_of(Class::WhiteSpace, b)
            ==> autolearn::normal_form(a + seq![c] + b) == autolearn::normal_form(a) + seq![' ']
            + autolearn::normal_form(b),
{
    let k = Class::WhiteSpace;
    let none = Seq::<Seq<char>>::empty();
    let x = text::words(a);
    let y = text::words(b);
    text::lemma_no_fields(k, a);
    text::lemma_no_fields(k, b);
    laws::text::law_words_of_parts(a, c, b);
    laws::text::law_joined_few(a, seq![' ']);
    if x.len() == 0 {
        assert(x =~= none);
        assert(x + y =~= y);
    }
    if y.len() == 0 {
        assert(x + y =~= x);
    }
    if x.len() > 0 && y.len() > 0 {
        laws::text::law_joined_of_parts(x, y, seq![' ']);
    }
    if a.len() > 0 && laws::text::none_of(k, a) {
        laws::text::law_one_word(a);
    }
}

/// Whether a text stands in another.
pub open spec fn is_part(part: Seq<char>, s: Seq<char>) -> bool {
    exists|i: int|
        0 <= i && i + part.len() <= s.len() && #[trigger] s.subrange(i, i + part.len()) == part
}

/// A text stands in another wherever it does.
pub proof fn law_stands_in(part: Seq<char>, s: Seq<char>)
    ensures
        autolearn::stands_in(part, s) == is_part(part, s),
{
    text::lemma_first_from_occurs(s, part, 0);
    if is_part(part, s) {
        let i = choose|i: int|
            0 <= i && i + part.len() <= s.len() && #[trigger] s.subrange(i, i + part.len()) == part;
        assert(text::occurs_at(s, part, i));
    }
    if let Some(q) = text::first_of(s, part) {
        assert(s.subrange(q, q + part.len()) == part);
    }
}

/// A title is compared without the white space around it and the asterisks in
/// front.
pub proof fn law_bare_title(
    head: Seq<char>,
    stars: Seq<char>,
    body: Seq<char>,
    tail: Seq<char>,
)
    requires
        laws::text::all_of(Class::WhiteSpace, head),
        laws::text::all_of(Class::WhiteSpace, tail),
        forall|i: int| 0 <= i < stars.len() ==> #[trigger] stars[i] == '*',
        body.len() > 0 ==> body[0] != '*',
        laws::text::bare(Class::WhiteSpace, stars + body),
    ensures
        autolearn::bare_title(head + (stars + body) + tail) == body,
{
    laws::text::law_trimmed(Class::WhiteSpace, head, stars + body, tail);
    assert forall|i: int| 0 <= i < stars.len() implies Class::Star.has(#[trigger] stars[i]) by {
        assert(stars[i] == '*');
    }
    laws::text::law_trimmed_start(Class::Star, stars, body);
}

/// Titles match where one stands in the other, and where one is not known.
pub proof fn law_titles_match(a: Seq<char>, b: Seq<char>, other: Option<Seq<char>>)
    ensures
        autolearn::titles_match(None, other),
        autolearn::titles_match(other, None),
        autolearn::titles_match(Some(a), Some(b)) == (is_part(
            autolearn::bare_title(a),
            autolearn::bare_title(b),
        ) || is_part(autolearn::bare_title(b), autolearn::bare_title(a))),
{
    law_stands_in(autolearn::bare_title(a), autolearn::bare_title(b));
    law_stands_in(autolearn::bare_title(b), autolearn::bare_title(a));
}

/// Whether the stretch of `len` characters at `i` is not blank and stands in
/// another text.
pub open spec fn anchors(c: Seq<char>, f: Seq<char>, len: int, i: int) -> bool {
    &&& 0 <= i
    &&& i + len <= c.len()
    &&& !laws::text::all_of(Class::WhiteSpace, c.subrange(i, i + len))
    &&& is_part(c.subrange(i, i + len), f)
}

proof fn lemma_chunk(c: Seq<char>, f: Seq<char>, len: nat, i: nat)
    requires
        i + len <= c.len(),
    ensures
        anchors(c, f, len as int, i as int) == (text::trimmed(
            Class::WhiteSpace,
            c.subrange(i as int, (i + len) as int),
        ).len() > 0 && autolearn::stands_in(c.subrange(i as int, (i + len) as int), f)),
{
    laws::text::law_blank(Class::WhiteSpace, c.subrange(i as int, (i + len) as int));
    law_stands_in(c.subrange(i as int, (i + len) as int), f);
}

proof fn lemma_anchor_is_found(
    c: Seq<char>,
    f: Seq<char>,
    len: nat,
    step: nat,
    i: nat,
    n: nat,
)
    requires
        0 < step <= len,
        anchors(c, f, len as int, (i + n * step) as int),
    ensures
        autolearn::anchor_from(c, f, len, step, i),
    decreases n,
{
    assert(n * step >= 0) by (nonlinear_arith);
    lemma_chunk(c, f, len, i);
    if n > 0 {
        let m = (n - 1) as nat;
        assert(n * step == m * step + step) by (nonlinear_arith)
            requires
                n == m + 1,
        ;
        assert(m * step >= 0) by (nonlinear_arith);
        lemma_anchor_is_found(c, f, len, step, i + step, m);
    } else {
        assert(n * step == 0) by (nonlinear_arith)
            requires
                n == 0,
        ;
    }
}

proof fn lemma_anchor_is_there(c: Seq<char>, f: Seq<char>, len: nat, step: nat, i: nat) -> (n: nat)
    requires
        0 < step <= len,
        autolearn::anchor_from(c, f, len, step, i),
    ensures
        anchors(c, f, len as int, (i + n * step) as int),
    decreases c.len() - i,
{
    lemma_chunk(c, f, len, i);
    if anchors(c, f, len as int, i as int) {
        assert(0 * step == 0) by (nonlinear_arith);
        0
    } else {
        let m = lemma_anchor_is_there(c, f, len, step, i + step);
        assert((m + 1) * step == m * step + step) by (nonlinear_arith);
        m + 1
    }
}

/// Where the stretch behind `n` others starts, each half a stretch further on.
pub open spec fn nth_start(len: nat, n: nat) -> int {
    (n * (len / 2)) as int
}

/// How long a stretch of a text of `n` characters must be: a third of it, and
/// eight characters at least.
pub open spec fn stretch_len(n: nat) -> nat {
    if n / 3 > 8 {
        n / 3
    } else {
        8
    }
}

/// A field shows the pasted text where it holds a stretch of it: all of it
/// where that is eight characters or fewer, else any of the stretches that
/// follow each other by half their length.
pub proof fn law_shared_anchor(
    cleaned: Seq<char>,
    captured: Seq<char>,
    c: Seq<char>,
    f: Seq<char>,
    n: nat,
)
    requires
        c == text::trimmed(Class::WhiteSpace, cleaned),
        f == text::trimmed(Class::WhiteSpace, captured),
    ensures
        c.len() == 0 || f.len() == 0 ==> !autolearn::shares_anchor(cleaned, captured),
        0 < c.len() <= 8 && f.len() > 0 ==> autolearn::shares_anchor(cleaned, captured) == is_part(
            c,
            f,
        ),
        c.len() > 8 && f.len() > 0 && anchors(
            c,
            f,
            stretch_len(c.len()) as int,
            nth_start(stretch_len(c.len()), n),
        ) ==> autolearn::shares_anchor(cleaned, captured),
        c.len() > 8 && autolearn::shares_anchor(cleaned, captured) ==> exists|m: nat|
            anchors(
                c,
                f,
                stretch_len(c.len()) as int,
                #[trigger] nth_start(stretch_len(c.len()), m),
            ),
{
    let len = stretch_len(c.len());
    law_stands_in(c, f);
    assert(autolearn::anchor_len(c.len()) == len);
    if c.len() > 8 && f.len() > 0 {
        if anchors(c, f, len as int, nth_start(len, n)) {
            lemma_anchor_is_found(c, f, len, len / 2, 0, n);
        }
        if autolearn::shares_anchor(cleaned, captured) {
            let m = lemma_anchor_is_there(c, f, len, len / 2, 0);
            assert(anchors(c, f, len as int, nth_start(len, m)));
        }
    }
}

/// A field is looked at as a whole, line by line, and paragraph by paragraph;
/// the lines and paragraphs without the white space around them, and only those
/// that are not blank.
pub proof fn law_candidates(field: Seq<char>)
    ensures
        autolearn::candidates(field).len() > 0 && autolearn::candidates(field)[0] == field,
        autolearn::candidates(field).skip(1) == text::non_blank(
            text::fields(Class::LineBreak, field),
        ) + text::non_blank(text::parts(field, seq!['\n', '\n'])),
{
    let a = text::non_blank(text::fields(Class::LineBreak, field));
    let b = text::non_blank(text::parts(field, seq!['\n', '\n']));
    assert((seq![field] + a + b).skip(1) =~= a + b);
}

/// A candidate counts where it differs from the pasted text, is at least half
/// and at most twice as long (or sixteen characters at most), and is alike
/// enough; then by how alike it is.
pub proof fn law_score(cleaned: Seq<char>, candidate: Seq<char>)
    ensures
        ({
            let c = autolearn::normal_form(candidate);
            let bits = similarity::ratio_bits(cleaned, c);
            let counts = c != cleaned && cleaned.len() / 2 <= c.len() && (c.len() <= cleaned.len()
                * 2 || c.len() <= 16) && bits >= 0x3f59_999au32;
            &&& counts ==> autolearn::score(cleaned, candidate) == Some(bits)
            &&& !counts ==> autolearn::score(cleaned, candidate) is None
        }),
{
}

/// The best of the scores is the highest, and the last of those. There is one
/// wherever there is a score.
pub proof fn law_best_score(scores: Seq<Option<u32>>)
    ensures
        match autolearn::last_best(scores) {
            Some(b) => 0 <= b < scores.len() && scores[b] is Some && forall|j: int|
                0 <= j < scores.len() && #[trigger] scores[j] is Some ==> scores[j]->0
                    <= scores[b]->0 && (j > b ==> scores[j]->0 < scores[b]->0),
            None => forall|j: int| 0 <= j < scores.len() ==> #[trigger] scores[j] is None,
        },
    decreases scores.len(),
{
    if scores.len() > 0 {
        let d = scores.drop_last();
        law_best_score(d);
        assert forall|j: int| 0 <= j < d.len() implies #[trigger] scores[j] == d[j] by {}
    }
}

/// What became of a pasted text is the candidate with the best score, as it
/// stands in the field. There is none where the pasted text or the field is
/// blank, where the field is too long, and where no candidate has a score.
pub proof fn law_edited_text(cleaned_text: Seq<char>, captured: Seq<char>, i: int)
    ensures
        ({
            let cleaned = autolearn::normal_form(cleaned_text);
            let field = text::trimmed(Class::WhiteSpace, captured);
            let cs = autolearn::candidates(field);
            let out = cleaned.len() == 0 || field.len() == 0 || field.len() > 10_000;
            &&& out ==> autolearn::edited(cleaned_text, captured) is None
            &&& !out && autolearn::edited(cleaned_text, captured) is None ==> (0 <= i < cs.len()
                ==> autolearn::score(cleaned, cs[i]) is None)
            &&& autolearn::edited(cleaned_text, captured) matches Some(t) ==> exists|b: int|
                {
                    &&& 0 <= b < cs.len()
                    &&& t == #[trigger] cs[b]
                    &&& autolearn::score(cleaned, cs[b]) is Some
                    &&& 0 <= i < cs.len() && autolearn::score(cleaned, cs[i]) is Some
                        ==> autolearn::score(cleaned, cs[i])->0 <= autolearn::score(
                        cleaned,
                        cs[b],
                    )->0 && (i > b ==> autolearn::score(cleaned, cs[i])->0 < autolearn::score(
                        cleaned,
                        cs[b],
                    )->0)
                }
        }),
{
    let cleaned = autolearn::normal_form(cleaned_text);
    let field = text::trimmed(Class::WhiteSpace, captured);
    let cs = autolearn::candidates(field);
    let all = autolearn::scores(cleaned, cs);
    law_best_score(all);
    if 0 <= i < cs.len() {
        assert(all[i] == autolearn::score(cleaned, cs[i]));
    }
    if autolearn::edited(cleaned_text, captured) is Some {
        let b = autolearn::last_best(all)->0;
        assert(all[b] == autolearn::score(cleaned, cs[b]));
        assert(cs[b] == autolearn::edited(cleaned_text, captured)->0);
    }
}

/// Pairs are believed where there are between one and eight of them, and no
/// side of any is longer than half the text, or eight characters if that is
/// more.
pub proof fn law_plausible_pairs(pairs: Seq<PairText>, cleaned: Seq<char>)
    ensures
        ({
            let half = cleaned.len() / 2;
            let most = if half > 8 {
                half
            } else {
                8nat
            };
            autolearn::plausible(pairs, cleaned) <==> 1 <= pairs.len() <= 8 && forall|i: int|
                0 <= i < pairs.len() ==> (#[trigger] pairs[i]).wrong.len() <= most
                    && pairs[i].right.len() <= most
        }),
{
}

/// What is learned of an edit: the pairs by which the pasted text became the
/// text that is found in the field, with four words of context on either side,
/// where they are believed.
pub proof fn law_learned_pairs(cleaned: Seq<char>, captured: Seq<char>)
    ensures
        match autolearn::edited(cleaned, captured) {
            None => autolearn::learnable(cleaned, captured) is None,
            Some(t) => {
                let pairs = diff::diff_pairs(cleaned, t, 4);
                &&& autolearn::plausible(pairs, cleaned) ==> autolearn::learnable(
                    cleaned,
                    captured,
                ) == Some((t, pairs))
                &&& !autolearn::plausible(pairs, cleaned) ==> autolearn::learnable(
                    cleaned,
                    captured,
                ) is None
            },
        },
{
}

/// The pair that is shown is the one whose right side takes the most bytes, of
/// those that are not blank there, and the last of them; the first pair where
/// all are blank.
pub proof fn law_shown_pair(pairs: Seq<PairText>)
    ensures
        ({
            let full = |p: PairText| !laws::text::all_of(Class::WhiteSpace, p.right);
            let s = autolearn::sample(pairs);
            &&& (exists|j: int| 0 <= j < pairs.len() && full(#[trigger] pairs[j])) ==> 0 <= s
                < pairs.len() && full(pairs[s]) && forall|j: int|
                0 <= j < pairs.len() && full(#[trigger] pairs[j]) ==> text::byte_len(pairs[j].right)
                    <= text::byte_len(pairs[s].right) && (j > s ==> text::byte_len(pairs[j].right)
                    < text::byte_len(pairs[s].right))
            &&& (forall|j: int| 0 <= j < pairs.len() ==> !full(#[trigger] pairs[j])) ==> s == 0
        }),
{
    lemma_longest_right(pairs);
}

proof fn lemma_longest_right(pairs: Seq<PairText>)
    ensures
        match autolearn::longest_right(pairs) {
            Some(s) => 0 <= s < pairs.len() && !laws::text::all_of(
                Class::WhiteSpace,
                pairs[s].right,
            ) && forall|j: int|
                0 <= j < pairs.len() && !laws::text::all_of(
                    Class::WhiteSpace,
                    (#[trigger] pairs[j]).right,
                ) ==> text::byte_len(pairs[j].right) <= text::byte_len(pairs[s].right) && (j > s
                    ==> text::byte_len(pairs[j].right) < text::byte_len(pairs[s].right)),
            None => forall|j: int|
                0 <= j < pairs.len() ==> laws::text::all_of(
                    Class::WhiteSpace,
                    (#[trigger] pairs[j]).right,
                ),
        },
    decreases pairs.len(),
{
    if pairs.len() > 0 {
        let d = pairs.drop_last();
        lemma_longest_right(d);
        laws::text::law_blank(Class::WhiteSpace, pairs.last().right);
        assert forall|j: int| 0 <= j < d.len() implies #[trigger] pairs[j] == d[j] by {}
    }
}

/// While the user is in the app, the field is looked into. Once they have
/// left, an edit that was seen is what became of the text.
pub proof fn law_glance(w: Watch, focus: Option<Seq<char>>)
    ensures
        ({
            let g = watcher::glanced(w, focus);
            &&& focus == Some(w.target) ==> g == Glance::Capture
            &&& focus != Some(w.target) && w.last is None ==> g == Glance::Wait
            &&& focus != Some(w.target) && w.last is Some && autolearn::normal_form(w.last->0)
                == autolearn::normal_form(w.cleaned) ==> g == Glance::Wait
            &&& focus != Some(w.target) && w.last is Some && autolearn::normal_form(w.last->0)
                != autolearn::normal_form(w.cleaned) ==> g == Glance::Finalize(w.last->0)
        }),
{
}

/// A look into the field: nothing seen changes nothing; a text that is not the
/// pasted one counts as a miss, and the fifth miss in a row ends the watch; the
/// pasted text clears the misses, and once it has been the same for two looks
/// more, the watch is over.
pub proof fn law_look(w: Watch, s: Seq<char>)
    ensures
        ({
            let (next, look) = watcher::looked(w, Some(s));
            let ours = autolearn::shares_anchor(w.cleaned, s);
            let same = w.last == Some(s);
            &&& watcher::looked(w, None) == (w, Look::Wait)
            &&& !ours ==> next == (Watch { rejects: w.rejects + 1, ..w })
            &&& !ours && w.rejects + 1 >= 5 ==> look == Look::GiveUp
            &&& !ours && w.rejects + 1 < 5 ==> look == Look::Wait
            &&& ours && same ==> next == (Watch { rejects: 0, idle: w.idle + 1, ..w })
            &&& ours && !same ==> next == (Watch { rejects: 0, idle: 0, last: Some(s), ..w })
            &&& ours && (if same {
                w.idle + 1
            } else {
                0
            }) < 2 ==> look == Look::Wait
            &&& ours && (if same {
                w.idle + 1
            } else {
                0
            }) >= 2 && autolearn::normal_form(s) != autolearn::normal_form(w.cleaned) ==> look
                == Look::Finish(Some(s))
            &&& ours && (if same {
                w.idle + 1
            } else {
                0
            }) >= 2 && autolearn::normal_form(s) == autolearn::normal_form(w.cleaned) ==> look
                == Look::Finish(None)
        }),
{
}

} // verus!
