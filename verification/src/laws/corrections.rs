//! Learned corrections that are put into a text.
use vstd::prelude::*;
use crate::chars;
use crate::db::CorrectionRow;
use crate::laws;
use crate::learning::diff;
use crate::recorder::replacements;
use crate::text;
use crate::text::Class;

verus! {

/// Whether a text holds another, whatever the case of either.
pub open spec fn holds_caseless(s: Seq<char>, w: Seq<char>) -> bool {
    let low = chars::lowercase(s);
    let part = chars::lowercase(w);
    exists|at: int|
        0 <= at && at + part.len() <= low.len() && #[trigger] low.subrange(at, at + part.len())
            == part
}

proof fn lemma_holds(s: Seq<char>, w: Seq<char>)
    ensures
        holds_caseless(s, w) == (text::first_of(chars::lowercase(s), chars::lowercase(w)) is Some),
{
    let low = chars::lowercase(s);
    let part = chars::lowercase(w);
    text::lemma_first_from_occurs(low, part, 0);
    if holds_caseless(s, w) {
        let at = choose|at: int|
            0 <= at && at + part.len() <= low.len() && #[trigger] low.subrange(at, at + part.len())
                == part;
        assert(text::occurs_at(low, part, at));
    }
    if let Some(q) = text::first_of(low, part) {
        assert(low.subrange(q, q + part.len()) == part);
    }
}

/// Whether a correction was seen often enough and has two sides.
pub open spec fn ripe(row: CorrectionRow) -> bool {
    row.count >= 3 && row.wrong@.len() > 0 && row.right@.len() > 0
}

/// A correction goes in where any word of its context, wherever it stands
/// there and with whatever punctuation around it, has four bytes or more, is
/// no stopword, and stands in the text, whatever the case.
pub proof fn law_any_context_word_vouches(
    s: Seq<char>,
    rows: Seq<CorrectionRow>,
    row: CorrectionRow,
    before: Seq<char>,
    head: Seq<char>,
    body: Seq<char>,
    tail: Seq<char>,
    after: Seq<char>,
)
    requires
        ripe(row),
        row.context matches Some(c) && c@ == before + (head + body + tail) + after,
        before.len() > 0 ==> chars::white_space(before.last()),
        after.len() > 0 ==> chars::white_space(after[0]),
        laws::text::all_of(Class::AsciiPunctuation, head),
        laws::text::all_of(Class::AsciiPunctuation, tail),
        laws::text::bare(Class::AsciiPunctuation, body),
        laws::text::none_of(Class::WhiteSpace, body),
        text::byte_len(body) >= 4,
        body.len() > 0,
        !diff::stopword(body),
        holds_caseless(replacements::corrected(s, rows), body),
    ensures
        replacements::corrected(s, rows.push(row)) == replacements::words_replaced(
            replacements::corrected(s, rows),
            row.wrong@,
            row.right@,
        ),
{
    let t = replacements::corrected(s, rows);
    let w = head + body + tail;
    let c = before + w + after;
    assert forall|i: int| 0 <= i < w.len() implies !Class::WhiteSpace.has(#[trigger] w[i]) by {
        if i < head.len() {
            assert(Class::AsciiPunctuation.has(head[i]));
        } else if i < head.len() + body.len() {
            assert(!Class::WhiteSpace.has(body[i - head.len()]));
        } else {
            assert(Class::AsciiPunctuation.has(tail[i - head.len() - body.len()]));
        }
    }
    laws::text::law_field_inside(Class::WhiteSpace, before, w, after);
    laws::text::law_trimmed(Class::AsciiPunctuation, head, body, tail);
    lemma_holds(t, body);
    let i = text::words(before).len() as int;
    assert(text::words(c)[i] == w);
    assert(replacements::vouched_by(c, t, i));
    assert(text::opt_text(row.context) == Some(c));
    assert(rows.push(row).drop_last() =~= rows);
}

/// A correction without a context, or with a blank one, goes in.
pub proof fn law_no_context_is_needed(s: Seq<char>, rows: Seq<CorrectionRow>, row: CorrectionRow)
    requires
        ripe(row),
        row.context matches Some(c) ==> laws::text::all_of(Class::WhiteSpace, c@),
    ensures
        replacements::corrected(s, rows.push(row)) == replacements::words_replaced(
            replacements::corrected(s, rows),
            row.wrong@,
            row.right@,
        ),
{
    assert(rows.push(row).drop_last() =~= rows);
    if let Some(c) = row.context {
        let none = Seq::<char>::empty();
        laws::text::law_trimmed(Class::WhiteSpace, c@, none, none);
        assert(c@ + none + none =~= c@);
    }
}

/// A correction stays out where it is not ripe, and where it has a context no
/// word of which vouches for it.
pub proof fn law_correction_stays_out(s: Seq<char>, rows: Seq<CorrectionRow>, row: CorrectionRow)
    requires
        ripe(row) ==> (row.context matches Some(c) && text::words(c@).len() > 0 && forall|i: int|
            0 <= i < text::words(c@).len() ==> {
                let w = text::trimmed(Class::AsciiPunctuation, #[trigger] text::words(c@)[i]);
                text::byte_len(w) < 4 || diff::stopword(w) || !holds_caseless(
                    replacements::corrected(s, rows),
                    w,
                )
            }),
    ensures
        replacements::corrected(s, rows.push(row)) == replacements::corrected(s, rows),
{
    assert(rows.push(row).drop_last() =~= rows);
    let t = replacements::corrected(s, rows);
    if ripe(row) {
        let c = row.context->0@;
        assert(text::opt_text(row.context) == Some(c));
        assert forall|i: int| 0 <= i < text::words(c).len() implies !replacements::vouched_by(
            c,
            t,
            i,
        ) by {
            let w = text::trimmed(Class::AsciiPunctuation, text::words(c)[i]);
            lemma_holds(t, w);
        }
        if text::trimmed(Class::WhiteSpace, c).len() == 0 {
            let (h, b) = laws::text::lemma_trimmed_apart(Class::WhiteSpace, c);
            assert(forall|i: int| 0 <= i < c.len() ==> Class::WhiteSpace.has(#[trigger] c[i])) by {
                assert forall|i: int| 0 <= i < c.len() implies Class::WhiteSpace.has(
                    #[trigger] c[i],
                ) by {
                    if i < h.len() {
                        assert(c[i] == h[i]);
                    } else {
                        assert(c[i] == b[i - h.len()]);
                    }
                }
            }
            laws::text::law_no_fields(Class::WhiteSpace, c);
        }
    }
}

/// Corrections go in one after the other, each into what those before it made
/// of the text.
pub proof fn law_corrections_go_in_order(
    s: Seq<char>,
    a: Seq<CorrectionRow>,
    b: Seq<CorrectionRow>,
)
    ensures
        replacements::corrected(s, a + b) == replacements::corrected(
            replacements::corrected(s, a),
            b,
        ),
        replacements::corrected(s, Seq::empty()) == s,
    decreases b.len(),
{
    if b.len() == 0 {
        assert(a + b =~= a);
    } else {
        law_corrections_go_in_order(s, a, b.drop_last());
        assert((a + b).drop_last() =~= a + b.drop_last());
    }
}

/// How many characters the first `k` characters of a text become in lower
/// case.
pub open spec fn lowered_len(s: Seq<char>, k: int) -> nat
    decreases k,
{
    if k <= 0 {
        0
    } else {
        lowered_len(s, k - 1) + chars::lowercase(seq![s[k - 1]]).len()
    }
}

/// Whether a character can be part of a word that is replaced.
pub open spec fn in_word(c: char) -> bool {
    ||| 48 <= c as u32 <= 57
    ||| 65 <= c as u32 <= 90
    ||| 97 <= c as u32 <= 122
    ||| c == '_'
}

proof fn lemma_in_word(c: char)
    ensures
        in_word(c) == replacements::word_char(c),
{
}

proof fn lemma_lowered_len(s: Seq<char>, k: int)
    requires
        k <= s.len(),
    ensures
        lowered_len(s, k) == replacements::low_at(replacements::lower_widths(s), k),
    decreases k,
{
    if k > 0 {
        lemma_lowered_len(s, k - 1);
    }
}

/// A word is found where no letter, digit or underscore of ASCII stands on
/// either side of it, and where what it became in the lower case of the whole
/// text is the lower case of what is looked for.
pub proof fn law_where_words_are_found(s: Seq<char>, needle: Seq<char>, k: int, e: int)
    ensures
        replacements::found_at(s, needle, k, e) <==> {
            &&& 0 <= k < e <= s.len()
            &&& k > 0 ==> !in_word(s[k - 1])
            &&& e < s.len() ==> !in_word(s[e])
            &&& lowered_len(s, k) <= lowered_len(s, e) <= chars::lowercase(s).len()
            &&& chars::lowercase(s).subrange(lowered_len(s, k) as int, lowered_len(s, e) as int)
                == chars::lowercase(needle)
        },
{
    if 0 <= k < e <= s.len() {
        lemma_lowered_len(s, k);
        lemma_lowered_len(s, e);
        if k > 0 {
            lemma_in_word(s[k - 1]);
        }
        if e < s.len() {
            lemma_in_word(s[e]);
        }
    }
}

/// The text from `k` on, with stretches of it replaced.
pub open spec fn spliced(
    s: Seq<char>,
    stretches: Seq<(int, int)>,
    replacement: Seq<char>,
    k: int,
) -> Seq<char>
    decreases stretches.len(),
{
    if stretches.len() == 0 {
        s.skip(k)
    } else {
        s.subrange(k, stretches[0].0) + replacement + spliced(
            s,
            stretches.skip(1),
            replacement,
            stretches[0].1,
        )
    }
}

/// Whether each of the stretches is a word that is found, from `k` on.
pub open spec fn each_found(
    s: Seq<char>,
    needle: Seq<char>,
    stretches: Seq<(int, int)>,
    k: int,
) -> bool {
    forall|j: int|
        0 <= j < stretches.len() ==> k <= (#[trigger] stretches[j]).0 && replacements::found_at(
            s,
            needle,
            stretches[j].0,
            stretches[j].1,
        )
}

/// Whether each of the stretches is as long as can be.
pub open spec fn each_longest(s: Seq<char>, needle: Seq<char>, stretches: Seq<(int, int)>) -> bool {
    forall|j: int, e: int|
        0 <= j < stretches.len() && (#[trigger] stretches[j]).1 < e
            ==> !#[trigger] replacements::found_at(s, needle, stretches[j].0, e)
}

/// Whether stretches follow each other.
pub open spec fn in_order(stretches: Seq<(int, int)>) -> bool {
    forall|i: int, j: int|
        0 <= i < j < stretches.len() ==> (#[trigger] stretches[i]).1 <= (#[trigger] stretches[j]).0
}

/// Whether every word that is found from `k` on starts in one of the stretches.
pub open spec fn none_left_out(
    s: Seq<char>,
    needle: Seq<char>,
    stretches: Seq<(int, int)>,
    k: int,
) -> bool {
    forall|a: int, e: int|
        k <= a && #[trigger] replacements::found_at(s, needle, a, e) ==> exists|j: int|
            0 <= j < stretches.len() && (#[trigger] stretches[j]).0 <= a < stretches[j].1
}

/// Whether stretches from `k` on are the words that are found there, each as
/// long as can be, and none left out but inside another.
pub open spec fn found_stretches(
    s: Seq<char>,
    needle: Seq<char>,
    stretches: Seq<(int, int)>,
    k: int,
) -> bool {
    &&& each_found(s, needle, stretches, k)
    &&& each_longest(s, needle, stretches)
    &&& in_order(stretches)
    &&& none_left_out(s, needle, stretches, k)
}

/// Every word that is found is replaced, however many there are, and what
/// stands between them stays.
pub proof fn law_every_word_is_replaced(
    s: Seq<char>,
    needle: Seq<char>,
    replacement: Seq<char>,
    stretches: Seq<(int, int)>,
)
    requires
        chars::lowercase(needle).len() > 0,
        found_stretches(s, needle, stretches, 0),
    ensures
        replacements::words_replaced(s, needle, replacement) == spliced(
            s,
            stretches,
            replacement,
            0,
        ),
{
    lemma_spliced(s, needle, replacement, stretches, 0);
}

proof fn lemma_first_found(s: Seq<char>, needle: Seq<char>, stretches: Seq<(int, int)>, k: int)
    requires
        0 <= k,
        stretches.len() > 0,
        found_stretches(s, needle, stretches, k),
    ensures
        k <= stretches[0].0 < stretches[0].1 <= s.len(),
        replacements::ends_in(s, needle)[stretches[0].0] == Some(stretches[0].1),
        forall|i: int|
            k <= i < stretches[0].0 ==> #[trigger] replacements::ends_in(s, needle)[i] is None,
{
    let ends = replacements::ends_in(s, needle);
    let (a, b) = stretches[0];
    assert(replacements::found_at(s, needle, a, b));
    replacements::lemma_ends_in(s, needle, a);
    assert(ends[a] == Some(b));
    assert forall|i: int| k <= i < a implies #[trigger] ends[i] is None by {
        replacements::lemma_ends_in(s, needle, i);
        if let Some(e) = ends[i] {
            assert(replacements::found_at(s, needle, i, e));
            let j = choose|j: int|
                0 <= j < stretches.len() && (#[trigger] stretches[j]).0 <= i < stretches[j].1;
            assert(stretches[0].1 <= stretches[j].0 || j == 0);
        }
    }
}

proof fn lemma_none_found(s: Seq<char>, needle: Seq<char>, stretches: Seq<(int, int)>, k: int)
    requires
        0 <= k,
        stretches.len() == 0,
        found_stretches(s, needle, stretches, k),
    ensures
        forall|i: int|
            k <= i < s.len() ==> #[trigger] replacements::ends_in(s, needle)[i] is None,
{
    let ends = replacements::ends_in(s, needle);
    assert forall|i: int| k <= i < s.len() implies #[trigger] ends[i] is None by {
        replacements::lemma_ends_in(s, needle, i);
        if let Some(e) = ends[i] {
            assert(replacements::found_at(s, needle, i, e));
        }
    }
}

proof fn lemma_splice_step(
    s: Seq<char>,
    ends: Seq<Option<int>>,
    replacement: Seq<char>,
    k: int,
    a: int,
    b: int,
    tail: Seq<char>,
)
    requires
        ends.len() == s.len(),
        0 <= k <= a < b <= s.len(),
        ends[a] == Some(b),
        forall|i: int| k <= i < a ==> #[trigger] ends[i] is None,
        replacements::stretches_replaced(s, ends, replacement, b) == tail,
    ensures
        replacements::stretches_replaced(s, ends, replacement, k) == s.subrange(k, a) + replacement
            + tail,
{
    replacements::lemma_between_stretches(s, ends, replacement, k, a);
    assert(s.subrange(k, a) + (replacement + tail) =~= s.subrange(k, a) + replacement + tail);
}

proof fn lemma_splice_end(s: Seq<char>, ends: Seq<Option<int>>, replacement: Seq<char>, k: int)
    requires
        ends.len() == s.len(),
        0 <= k <= s.len(),
        forall|i: int| k <= i < s.len() ==> #[trigger] ends[i] is None,
    ensures
        replacements::stretches_replaced(s, ends, replacement, k) == s.skip(k),
{
    replacements::lemma_between_stretches(s, ends, replacement, k, s.len() as int);
    assert(s.subrange(k, s.len() as int) + Seq::<char>::empty() =~= s.skip(k));
}

proof fn lemma_rest_each_found(s: Seq<char>, needle: Seq<char>, stretches: Seq<(int, int)>, k: int)
    requires
        stretches.len() > 0,
        each_found(s, needle, stretches, k),
        in_order(stretches),
    ensures
        each_found(s, needle, stretches.skip(1), stretches[0].1),
{
    let rest = stretches.skip(1);
    assert forall|j: int| 0 <= j < rest.len() implies stretches[0].1 <= (#[trigger] rest[j]).0
        && replacements::found_at(s, needle, rest[j].0, rest[j].1) by {
        assert(rest[j] == stretches[j + 1]);
        assert(stretches[0].1 <= stretches[j + 1].0);
    }
}

proof fn lemma_rest_longest(s: Seq<char>, needle: Seq<char>, stretches: Seq<(int, int)>)
    requires
        stretches.len() > 0,
        each_longest(s, needle, stretches),
    ensures
        each_longest(s, needle, stretches.skip(1)),
{
    let rest = stretches.skip(1);
    assert forall|j: int, e: int| 0 <= j < rest.len() && (#[trigger] rest[j]).1 < e implies
        !#[trigger] replacements::found_at(s, needle, rest[j].0, e) by {
        assert(rest[j] == stretches[j + 1]);
    }
}

proof fn lemma_rest_in_order(stretches: Seq<(int, int)>)
    requires
        stretches.len() > 0,
        in_order(stretches),
    ensures
        in_order(stretches.skip(1)),
{
    let rest = stretches.skip(1);
    assert forall|i: int, j: int| 0 <= i < j < rest.len() implies (#[trigger] rest[i]).1 <= (
    #[trigger] rest[j]).0 by {
        assert(stretches[i + 1].1 <= stretches[j + 1].0);
    }
}

proof fn lemma_rest_complete(s: Seq<char>, needle: Seq<char>, stretches: Seq<(int, int)>, k: int)
    requires
        stretches.len() > 0,
        k <= stretches[0].1,
        none_left_out(s, needle, stretches, k),
    ensures
        none_left_out(s, needle, stretches.skip(1), stretches[0].1),
{
    let rest = stretches.skip(1);
    assert forall|x: int, e: int|
        stretches[0].1 <= x && #[trigger] replacements::found_at(s, needle, x, e) implies exists|j: int|
        0 <= j < rest.len() && (#[trigger] rest[j]).0 <= x < rest[j].1 by {
        let j = choose|j: int|
            0 <= j < stretches.len() && (#[trigger] stretches[j]).0 <= x < stretches[j].1;
        assert(rest[j - 1] == stretches[j]);
    }
}

proof fn lemma_rest_found(s: Seq<char>, needle: Seq<char>, stretches: Seq<(int, int)>, k: int)
    requires
        0 <= k,
        stretches.len() > 0,
        k <= stretches[0].1,
        found_stretches(s, needle, stretches, k),
    ensures
        found_stretches(s, needle, stretches.skip(1), stretches[0].1),
{
    lemma_rest_each_found(s, needle, stretches, k);
    lemma_rest_longest(s, needle, stretches);
    lemma_rest_in_order(stretches);
    lemma_rest_complete(s, needle, stretches, k);
}

proof fn lemma_spliced(
    s: Seq<char>,
    needle: Seq<char>,
    replacement: Seq<char>,
    stretches: Seq<(int, int)>,
    k: int,
)
    requires
        0 <= k <= s.len(),
        found_stretches(s, needle, stretches, k),
    ensures
        replacements::stretches_replaced(
            s,
            replacements::ends_in(s, needle),
            replacement,
            k,
        ) == spliced(s, stretches, replacement, k),
    decreases stretches.len(),
{
    let ends = replacements::ends_in(s, needle);
    if stretches.len() == 0 {
        lemma_none_found(s, needle, stretches, k);
        lemma_splice_end(s, ends, replacement, k);
    } else {
        let (a, b) = stretches[0];
        let rest = stretches.skip(1);
        lemma_first_found(s, needle, stretches, k);
        lemma_rest_found(s, needle, stretches, k);
        lemma_spliced(s, needle, replacement, rest, b);
        lemma_splice_step(
            s,
            ends,
            replacement,
            k,
            a,
            b,
            spliced(s, rest, replacement, b),
        );
    }
}

/// A needle whose lower case is empty changes nothing.
pub proof fn law_empty_needle_changes_nothing(
    s: Seq<char>,
    needle: Seq<char>,
    replacement: Seq<char>,
)
    requires
        chars::lowercase(needle).len() == 0,
    ensures
        replacements::words_replaced(s, needle, replacement) == s,
{
}

} // verus!
