//! Learning from what the user does with a text after it was pasted.
//!
//! A watcher looks at the field into which the text went. Once the user has
//! stopped editing, or has left the app, what became of the text is compared
//! with it, and small differences are learned as corrections.
use vstd::prelude::*;
use vstd::slice::slice_subrange;
use crate::learning::diff;
use crate::learning::diff::CorrectionPair;
use crate::learning::similarity;
use crate::text;
use crate::text::Class;

verus! {

/// The least ratio at which a text passes for an edited version of another:
/// the smallest single that is not below 0.85.
pub const AUTO_LEARN_MIN_RATIO: u32 = 0x3f59_999a;

/// The longest field that is looked at, in characters.
pub const AUTO_LEARN_MAX_CAPTURE_CHARS: usize = 10_000;

/// The words of a text with one space between each two.
pub open spec fn normal_form(s: Seq<char>) -> Seq<char> {
    text::joined(text::words(s), seq![' '])
}

fn normalized(s: &[char]) -> (r: Vec<char>)
    ensures
        r@ == normal_form(s@),
{
    let words = text::split_words(s);
    text::join(&words, text::one_char(' ').as_slice())
}

/// The words of a text with one space between each two.
pub fn normalize_for_match(s: &str) -> (r: String)
    ensures
        r@ == normal_form(s@),
{
    let cs = text::to_chars(s);
    let n = normalized(cs.as_slice());
    text::to_text(n.as_slice())
}

/// Whether `part` stands somewhere in `s`.
pub open spec fn stands_in(part: Seq<char>, s: Seq<char>) -> bool {
    text::first_of(s, part) is Some
}

/// A window title without the mark of unsaved changes.
pub open spec fn bare_title(s: Seq<char>) -> Seq<char> {
    text::trimmed_start(Class::Star, text::trimmed(Class::WhiteSpace, s))
}

/// Whether two titles may belong to one window.
pub open spec fn titles_match(a: Option<Seq<char>>, b: Option<Seq<char>>) -> bool {
    match (a, b) {
        (Some(a), Some(b)) => stands_in(bare_title(a), bare_title(b)) || stands_in(
            bare_title(b),
            bare_title(a),
        ),
        _ => true,
    }
}

/// Whether two titles may belong to one window: one holds the other, asterisks
/// in front aside. A title that is not known matches any.
pub fn window_titles_match(current: Option<&str>, pasted: Option<&str>) -> (r: bool)
    ensures
        r == titles_match(text::opt_str(current), text::opt_str(pasted)),
{
    match (current, pasted) {
        (Some(a), Some(b)) => {
            let x = text::to_chars(a);
            let y = text::to_chars(b);
            let p = text::trim_start(Class::Star, text::trim(Class::WhiteSpace, x.as_slice()));
            let q = text::trim_start(Class::Star, text::trim(Class::WhiteSpace, y.as_slice()));
            text::find(q, p).is_some() || text::find(p, q).is_some()
        },
        _ => true,
    }
}

/// The length of the chunk that a field must share with the pasted text.
pub open spec fn anchor_len(n: nat) -> nat {
    if n / 3 > 8 {
        n / 3
    } else {
        8
    }
}

/// Whether a chunk of `len` characters of `cleaned`, at position `i` or a
/// multiple of `step` behind it, stands in `captured`. Blank chunks do not
/// count.
pub open spec fn anchor_from(
    cleaned: Seq<char>,
    captured: Seq<char>,
    len: nat,
    step: nat,
    i: nat,
) -> bool
    decreases cleaned.len() - i,
    when 0 < step <= len
{
    if i + len > cleaned.len() {
        false
    } else {
        let chunk = cleaned.subrange(i as int, (i + len) as int);
        (text::trimmed(Class::WhiteSpace, chunk).len() > 0 && stands_in(chunk, captured))
            || anchor_from(cleaned, captured, len, step, i + step)
    }
}

/// Whether a field holds a recognisable chunk of the pasted text.
pub open spec fn shares_anchor(cleaned: Seq<char>, captured: Seq<char>) -> bool {
    let c = text::trimmed(Class::WhiteSpace, cleaned);
    let f = text::trimmed(Class::WhiteSpace, captured);
    if c.len() == 0 || f.len() == 0 {
        false
    } else if c.len() <= 8 {
        stands_in(c, f)
    } else {
        anchor_from(c, f, anchor_len(c.len()), anchor_len(c.len()) / 2, 0)
    }
}

/// Whether a field holds a recognisable chunk of the pasted text: all of it
/// where it is short, else a third of it and at least eight characters, at one
/// of the positions half that length apart. What fails this is another
/// field.
pub fn has_shared_anchor(cleaned: &str, captured: &str) -> (r: bool)
    ensures
        r == shares_anchor(cleaned@, captured@),
{
    let a = text::to_chars(cleaned);
    let b = text::to_chars(captured);
    let c = text::trim(Class::WhiteSpace, a.as_slice());
    let f = text::trim(Class::WhiteSpace, b.as_slice());
    if c.len() == 0 || f.len() == 0 {
        return false;
    }
    if c.len() <= 8 {
        return text::find(f, c).is_some();
    }
    let third: usize = c.len() / 3;
    let len: usize = if third > 8 {
        third
    } else {
        8
    };
    let step: usize = len / 2;
    let mut i: usize = 0;
    while len <= c.len() - i
        invariant
            len == anchor_len(c@.len()),
            step == len / 2,
            step > 0,
            i <= c@.len(),
            shares_anchor(cleaned@, captured@) == anchor_from(
                c@,
                f@,
                len as nat,
                step as nat,
                i as nat,
            ),
        decreases c@.len() - i,
    {
        let chunk = slice_subrange(c, i, i + len);
        let bare = text::trim(Class::WhiteSpace, chunk);
        if bare.len() > 0 && text::find(f, chunk).is_some() {
            return true;
        }
        i += step;
    }
    false
}

/// The parts of a field that may be the edited text: the whole, each line, and
/// each paragraph.
pub open spec fn candidates(field: Seq<char>) -> Seq<Seq<char>> {
    seq![field] + text::non_blank(text::fields(Class::LineBreak, field)) + text::non_blank(
        text::parts(field, seq!['\n', '\n']),
    )
}

/// Whether a text may be an edited version of one with `n` characters, going
/// by its length.
pub open spec fn length_fits(n: nat, len: nat) -> bool {
    n / 2 <= len && (len <= n * 2 || len <= 16)
}

/// The ratio of a candidate, where it can be an edited version of the pasted
/// text: of a like length, not the same, and alike enough.
pub open spec fn score(cleaned: Seq<char>, candidate: Seq<char>) -> Option<u32> {
    let c = normal_form(candidate);
    if length_fits(cleaned.len(), c.len()) && c != cleaned && similarity::ratio_bits(cleaned, c)
        >= AUTO_LEARN_MIN_RATIO {
        Some(similarity::ratio_bits(cleaned, c))
    } else {
        None
    }
}

pub open spec fn scores(cleaned: Seq<char>, cs: Seq<Seq<char>>) -> Seq<Option<u32>> {
    cs.map_values(|c: Seq<char>| score(cleaned, c))
}

/// The last of the highest scores.
pub open spec fn last_best(scores: Seq<Option<u32>>) -> Option<int>
    decreases scores.len(),
{
    if scores.len() == 0 {
        None
    } else {
        let before = last_best(scores.drop_last());
        match scores.last() {
            None => before,
            Some(x) => match before {
                Some(b) if scores[b] matches Some(y) && x < y => Some(b),
                _ => Some(scores.len() - 1),
            },
        }
    }
}

/// What the pasted text became, if it can be told.
pub open spec fn edited(cleaned_text: Seq<char>, captured_text: Seq<char>) -> Option<Seq<char>> {
    let cleaned = normal_form(cleaned_text);
    let field = text::trimmed(Class::WhiteSpace, captured_text);
    if cleaned.len() == 0 || field.len() == 0 || field.len() > AUTO_LEARN_MAX_CAPTURE_CHARS {
        None
    } else {
        match last_best(scores(cleaned, candidates(field))) {
            Some(i) => Some(candidates(field)[i]),
            None => None,
        }
    }
}

/// The last of the highest scores; candidates without one are out.
pub fn best_score(scores: &Vec<Option<u32>>) -> (r: Option<usize>)
    ensures
        match r {
            Some(i) => last_best(scores@) == Some(i as int),
            None => last_best(scores@) is None,
        },
{
    let mut best: Option<usize> = None;
    let mut top: u32 = 0;
    let mut n: usize = 0;
    assert(scores@.take(0) =~= Seq::empty());
    while n < scores.len()
        invariant
            n <= scores.len(),
            match best {
                Some(b) => b < n && last_best(scores@.take(n as int)) == Some(b as int)
                    && scores@[b as int] == Some(top),
                None => last_best(scores@.take(n as int)) is None,
            },
        decreases scores.len() - n,
    {
        assert(scores@.take(n + 1).drop_last() =~= scores@.take(n as int));
        assert(scores@.take(n + 1).last() == scores@[n as int]);
        if let Some(x) = scores[n] {
            if best.is_none() || top <= x {
                best = Some(n);
                top = x;
            }
        }
        n += 1;
    }
    assert(scores@.take(n as int) =~= scores@);
    best
}

fn push_trimmed(out: &mut Vec<Vec<char>>, ps: &Vec<Vec<char>>)
    ensures
        text::rows(final(out)@) == text::rows(old(out)@) + text::non_blank(text::rows(ps@)),
{
    let ghost all = text::rows(ps@);
    let ghost start = text::rows(out@);
    assert(all.take(0) =~= Seq::empty());
    assert(start + text::non_blank(all.take(0)) =~= start);
    let mut i: usize = 0;
    while i < ps.len()
        invariant
            i <= ps.len(),
            all == text::rows(ps@),
            text::rows(out@) == start + text::non_blank(all.take(i as int)),
        decreases ps.len() - i,
    {
        assert(all.take(i + 1).drop_last() =~= all.take(i as int));
        assert(all.take(i + 1).last() == ps@[i as int]@);
        let t = text::trim(Class::WhiteSpace, ps[i].as_slice());
        if t.len() > 0 {
            let ghost before = out@;
            let part = text::copied(t);
            out.push(part);
            assert(text::rows(out@) =~= text::rows(before).push(part@));
            assert(start + text::non_blank(all.take(i as int)).push(part@) =~= (start
                + text::non_blank(all.take(i as int))).push(part@));
        }
        i += 1;
    }
    assert(all.take(i as int) =~= all);
}

fn edit_candidates(field: &[char]) -> (r: Vec<Vec<char>>)
    ensures
        text::rows(r@) == candidates(field@),
{
    let mut out: Vec<Vec<char>> = Vec::new();
    let whole = text::copied(field);
    out.push(whole);
    assert(text::rows(out@) =~= seq![field@]);
    let lines = text::split_fields(Class::LineBreak, field);
    push_trimmed(&mut out, &lines);
    let gap = text::two_chars('\n', '\n');
    let paragraphs = text::split_parts(field, gap.as_slice());
    push_trimmed(&mut out, &paragraphs);
    out
}

fn score_of(cleaned: &[char], cleaned_text: &str, candidate: &[char]) -> (r: Option<u32>)
    requires
        cleaned@ == cleaned_text@,
    ensures
        r == score(cleaned@, candidate@),
{
    let c = normalized(candidate);
    let n = cleaned.len();
    if c.len() < n / 2 || (c.len() > 16 && c.len() > n && c.len() - n > n) {
        return None;
    }
    if text::same(c.as_slice(), cleaned) {
        return None;
    }
    let t = text::to_text(c.as_slice());
    let ratio = similarity::similar_ratio(cleaned_text, t.as_str());
    if ratio >= AUTO_LEARN_MIN_RATIO {
        Some(ratio)
    } else {
        None
    }
}

/// What the pasted text became, going by the field that it went into: the
/// whole field or a line or a paragraph of it, whichever is most like the
/// pasted text, as long as it is like it and not the same.
pub fn candidate_edited_text(cleaned_text: &str, captured_text: &str) -> (r: Option<String>)
    ensures
        match r {
            Some(t) => edited(cleaned_text@, captured_text@) == Some(t@),
            None => edited(cleaned_text@, captured_text@) is None,
        },
{
    let a = text::to_chars(cleaned_text);
    let cleaned = normalized(a.as_slice());
    let b = text::to_chars(captured_text);
    let field = text::trim(Class::WhiteSpace, b.as_slice());
    if cleaned.len() == 0 || field.len() == 0 || field.len() > AUTO_LEARN_MAX_CAPTURE_CHARS {
        return None;
    }
    let cleaned_norm = text::to_text(cleaned.as_slice());
    let cands = edit_candidates(field);
    let ghost all = scores(cleaned@, candidates(field@));
    let mut found: Vec<Option<u32>> = Vec::new();
    let mut i: usize = 0;
    while i < cands.len()
        invariant
            i <= cands.len(),
            cleaned@ == cleaned_norm@,
            text::rows(cands@) == candidates(field@),
            all == scores(cleaned@, candidates(field@)),
            found@ == all.take(i as int),
        decreases cands.len() - i,
    {
        assert(candidates(field@)[i as int] == cands@[i as int]@);
        let s = score_of(cleaned.as_slice(), cleaned_norm.as_str(), cands[i].as_slice());
        found.push(s);
        assert(found@ =~= all.take(i + 1));
        i += 1;
    }
    assert(all.take(i as int) =~= all);
    proof {
        lemma_last_best(all);
    }
    match best_score(&found) {
        Some(i) => {
            assert(candidates(field@)[i as int] == cands@[i as int]@);
            Some(text::to_text(cands[i].as_slice()))
        },
        None => None,
    }
}

/// The best score is one, none is higher, and of equals it is the last. There
/// is one wherever there is a score.
pub proof fn lemma_last_best(scores: Seq<Option<u32>>)
    ensures
        match last_best(scores) {
            Some(b) => {
                &&& 0 <= b < scores.len()
                &&& scores[b] is Some
                &&& forall|i: int|
                    0 <= i < scores.len() && #[trigger] scores[i] is Some ==> scores[i]->0
                        < scores[b]->0 || (scores[i]->0 == scores[b]->0 && i <= b)
            },
            None => forall|i: int| 0 <= i < scores.len() ==> #[trigger] scores[i] is None,
        },
    decreases scores.len(),
{
    if scores.len() > 0 {
        let d = scores.drop_last();
        lemma_last_best(d);
        assert forall|i: int| 0 <= i < d.len() implies d[i] == #[trigger] scores[i] by {}
    }
}

/// How many differences at most are taken for corrections.
pub const AUTO_LEARN_MAX_PAIR_COUNT: usize = 8;

/// How many words of context a correction keeps on either side.
pub const CONTEXT_WORDS: usize = 4;

/// The longest either side of a pair may be: half the pasted text, and eight
/// characters in any case. More is a new text, no correction.
pub open spec fn longest_side(n: nat) -> nat {
    if n / 2 > 8 {
        n / 2
    } else {
        8
    }
}

/// Whether pairs pass for corrections of a text: a few, and none too long.
pub open spec fn plausible(pairs: Seq<diff::PairText>, cleaned_text: Seq<char>) -> bool {
    &&& 0 < pairs.len() <= AUTO_LEARN_MAX_PAIR_COUNT
    &&& forall|i: int|
        0 <= i < pairs.len() ==> (#[trigger] pairs[i]).wrong.len() <= longest_side(
            cleaned_text.len(),
        ) && pairs[i].right.len() <= longest_side(cleaned_text.len())
}

/// What is learned from a field: the edited text and the corrections in it.
pub open spec fn learnable(cleaned_text: Seq<char>, captured: Seq<char>) -> Option<
    (Seq<char>, Seq<diff::PairText>),
> {
    match edited(cleaned_text, captured) {
        None => None,
        Some(t) => {
            let pairs = diff::diff_pairs(cleaned_text, t, CONTEXT_WORDS as int);
            if plausible(pairs, cleaned_text) {
                Some((t, pairs))
            } else {
                None
            }
        },
    }
}

/// Whether pairs pass for corrections of a text.
pub fn plausible_pairs(pairs: &Vec<CorrectionPair>, cleaned_text: &str) -> (r: bool)
    ensures
        r == plausible(diff::pair_texts(pairs@), cleaned_text@),
{
    let ghost all = diff::pair_texts(pairs@);
    assert(all.len() == pairs.len());
    if pairs.len() == 0 || pairs.len() > AUTO_LEARN_MAX_PAIR_COUNT {
        return false;
    }
    let cleaned = text::to_chars(cleaned_text);
    let half: usize = cleaned.len() / 2;
    let most: usize = if half > 8 {
        half
    } else {
        8
    };
    let mut i: usize = 0;
    while i < pairs.len()
        invariant
            i <= pairs.len(),
            all == diff::pair_texts(pairs@),
            most == longest_side(cleaned_text@.len()),
            forall|j: int|
                0 <= j < i ==> (#[trigger] all[j]).wrong.len() <= most && all[j].right.len()
                    <= most,
        decreases pairs.len() - i,
    {
        assert(all[i as int] == pairs@[i as int]@);
        let wrong = text::to_chars(pairs[i].wrong.as_str());
        let right = text::to_chars(pairs[i].right.as_str());
        if wrong.len() > most || right.len() > most {
            return false;
        }
        i += 1;
    }
    true
}

/// What is learned from a field into which a text was pasted, if anything.
pub fn auto_learn_pairs(cleaned_text: &str, captured: &str) -> (r: Option<
    (String, Vec<CorrectionPair>),
>)
    ensures
        match r {
            Some((t, pairs)) => learnable(cleaned_text@, captured@) == Some(
                (t@, diff::pair_texts(pairs@)),
            ),
            None => learnable(cleaned_text@, captured@) is None,
        },
{
    let final_text = match candidate_edited_text(cleaned_text, captured) {
        Some(t) => t,
        None => {
            return None;
        },
    };
    proof {
        lemma_edited_is_short(cleaned_text@, captured@);
    }
    let pairs = diff::pairs_from_diff(cleaned_text, final_text.as_str(), CONTEXT_WORDS);
    if plausible_pairs(&pairs, cleaned_text) {
        Some((final_text, pairs))
    } else {
        None
    }
}

proof fn lemma_joined_fields_fit(k: Class, s: Seq<char>)
    ensures
        ({
            let (done, open) = text::field_scan(k, s);
            &&& done.len() > 0 ==> text::joined(done, seq![' ']).len() + 1 + open.len() <= s.len()
            &&& done.len() == 0 ==> open.len() <= s.len()
        }),
    decreases s.len(),
{
    if s.len() > 0 {
        lemma_joined_fields_fit(k, s.drop_last());
        let (done, open) = text::field_scan(k, s.drop_last());
        if k.has(s.last()) && open.len() > 0 {
            assert(done.push(open).drop_last() =~= done);
        }
    }
}

/// A text in normal form is no longer than the text.
proof fn lemma_normal_form_is_short(s: Seq<char>)
    ensures
        normal_form(s).len() <= s.len(),
{
    lemma_joined_fields_fit(Class::WhiteSpace, s);
    let (done, open) = text::field_scan(Class::WhiteSpace, s);
    if open.len() > 0 {
        assert(done.push(open).drop_last() =~= done);
    }
}

proof fn lemma_joined_holds_parts(ps: Seq<Seq<char>>)
    requires
        forall|j: int| 0 <= j < ps.len() ==> (#[trigger] ps[j]).len() > 0,
    ensures
        ps.len() <= text::joined(ps, seq![' ']).len(),
    decreases ps.len(),
{
    if ps.len() > 0 {
        let d = ps.drop_last();
        assert forall|j: int| 0 <= j < d.len() implies (#[trigger] d[j]).len() > 0 by {
            assert(ps[j].len() > 0);
        }
        lemma_joined_holds_parts(d);
        assert(ps[ps.len() - 1].len() > 0);
    }
}

/// A text has no more words than its normal form has characters.
proof fn lemma_words_in_normal_form(s: Seq<char>)
    ensures
        text::words(s).len() <= normal_form(s).len(),
{
    text::lemma_fields(Class::WhiteSpace, s);
    lemma_joined_holds_parts(text::words(s));
}

proof fn lemma_tokens_among_words(ws: Seq<Seq<char>>)
    ensures
        diff::tokens_of(ws).len() <= ws.len(),
    decreases ws.len(),
{
    if ws.len() > 0 {
        lemma_tokens_among_words(ws.drop_last());
    }
}

spec fn none_longer(ps: Seq<Seq<char>>, n: nat) -> bool {
    forall|j: int| 0 <= j < ps.len() ==> (#[trigger] ps[j]).len() <= n
}

proof fn lemma_fields_are_short(k: Class, s: Seq<char>)
    ensures
        none_longer(text::field_scan(k, s).0, s.len()),
        text::field_scan(k, s).1.len() <= s.len(),
        none_longer(text::fields(k, s), s.len()),
    decreases s.len(),
{
    if s.len() > 0 {
        lemma_fields_are_short(k, s.drop_last());
    }
}

proof fn lemma_parts_are_short(s: Seq<char>, pat: Seq<char>)
    requires
        pat.len() > 0,
    ensures
        none_longer(text::parts(s, pat), s.len()),
    decreases s.len(),
{
    match text::first_of(s, pat) {
        None => {},
        Some(p) => {
            text::lemma_first_from_occurs(s, pat, 0);
            lemma_parts_are_short(s.skip(p + pat.len()), pat);
            let rest = text::parts(s.skip(p + pat.len()), pat);
            let all = seq![s.take(p)] + rest;
            assert forall|j: int| 0 <= j < all.len() implies (#[trigger] all[j]).len()
                <= s.len() by {
                if j > 0 {
                    assert(all[j] == rest[j - 1]);
                }
            }
        },
    }
}

proof fn lemma_trimmed_is_short(k: Class, s: Seq<char>)
    ensures
        text::trimmed(k, s).len() <= s.len(),
{
    lemma_trimmed_start_is_short(k, s);
    text::lemma_trimmed_end(k, text::trimmed_start(k, s));
}

proof fn lemma_trimmed_start_is_short(k: Class, s: Seq<char>)
    ensures
        text::trimmed_start(k, s).len() <= s.len(),
    decreases s.len(),
{
    if s.len() > 0 && k.has(s[0]) {
        lemma_trimmed_start_is_short(k, s.skip(1));
    }
}

proof fn lemma_non_blank_is_short(ps: Seq<Seq<char>>, n: nat)
    requires
        none_longer(ps, n),
    ensures
        none_longer(text::non_blank(ps), n),
    decreases ps.len(),
{
    if ps.len() > 0 {
        let d = ps.drop_last();
        assert(none_longer(d, n)) by {
            assert forall|j: int| 0 <= j < d.len() implies (#[trigger] d[j]).len() <= n by {
                assert(ps[j].len() <= n);
            }
        }
        lemma_non_blank_is_short(d, n);
        assert(ps[ps.len() - 1].len() <= n);
        lemma_trimmed_is_short(Class::WhiteSpace, ps.last());
    }
}

proof fn lemma_candidates_are_short(field: Seq<char>)
    ensures
        none_longer(candidates(field), field.len()),
{
    let gap = seq!['\n', '\n'];
    let a = text::non_blank(text::fields(Class::LineBreak, field));
    let b = text::non_blank(text::parts(field, gap));
    lemma_fields_are_short(Class::LineBreak, field);
    lemma_non_blank_is_short(text::fields(Class::LineBreak, field), field.len());
    lemma_parts_are_short(field, gap);
    lemma_non_blank_is_short(text::parts(field, gap), field.len());
    let all = candidates(field);
    assert forall|j: int| 0 <= j < all.len() implies (#[trigger] all[j]).len() <= field.len() by {
        if 1 <= j < 1 + a.len() {
            assert(all[j] == a[j - 1]);
        } else if j >= 1 + a.len() {
            assert(all[j] == b[j - 1 - a.len()]);
        }
    }
}

/// Neither an edited text nor what it was made of has many words.
proof fn lemma_edited_is_short(cleaned_text: Seq<char>, captured: Seq<char>)
    ensures
        edited(cleaned_text, captured) matches Some(t) ==> diff::tokens(cleaned_text).len()
            + diff::tokens(t).len() <= u32::MAX,
{
    let cleaned = normal_form(cleaned_text);
    let field = text::trimmed(Class::WhiteSpace, captured);
    if let Some(t) = edited(cleaned_text, captured) {
        let cs = candidates(field);
        let ss = scores(cleaned, cs);
        lemma_last_best(ss);
        let b = last_best(ss)->0;
        assert(ss[b] == score(cleaned, cs[b]));
        lemma_candidates_are_short(field);
        assert(cs[b].len() <= field.len());
        lemma_normal_form_is_short(t);
        lemma_words_in_normal_form(t);
        lemma_words_in_normal_form(cleaned_text);
        lemma_tokens_among_words(text::words(t));
        lemma_tokens_among_words(text::words(cleaned_text));
    }
}

/// An edited text is like the pasted one, and not the same but for its spaces.
pub proof fn law_edited_text_differs(cleaned_text: Seq<char>, captured: Seq<char>)
    ensures
        edited(cleaned_text, captured) matches Some(t) ==> {
            &&& normal_form(t) != normal_form(cleaned_text)
            &&& similarity::ratio_bits(normal_form(cleaned_text), normal_form(t))
                >= AUTO_LEARN_MIN_RATIO
            &&& length_fits(normal_form(cleaned_text).len(), normal_form(t).len())
        },
{
    let cleaned = normal_form(cleaned_text);
    let field = text::trimmed(Class::WhiteSpace, captured);
    if edited(cleaned_text, captured) is Some {
        let cs = candidates(field);
        let ss = scores(cleaned, cs);
        lemma_last_best(ss);
        let b = last_best(ss)->0;
        assert(ss[b] == score(cleaned, cs[b]));
    }
}

/// How much of a text of `n` characters must be shared.
pub open spec fn shared_len(n: nat) -> nat {
    if n <= 8 {
        n
    } else {
        anchor_len(n)
    }
}

/// Whether the chunk of `c` of a given length at `i` stands in `f`.
pub open spec fn chunk_shared(c: Seq<char>, f: Seq<char>, len: nat, i: int) -> bool {
    0 <= i && i + len <= c.len() && stands_in(c.subrange(i, i + len), f)
}

/// What shares an anchor with a text holds a chunk of it: the whole where the
/// text is short, else a third and at least eight characters.
pub proof fn law_anchor_is_shared(cleaned: Seq<char>, captured: Seq<char>)
    requires
        shares_anchor(cleaned, captured),
    ensures
        ({
            let c = text::trimmed(Class::WhiteSpace, cleaned);
            let f = text::trimmed(Class::WhiteSpace, captured);
            exists|i: int| chunk_shared(c, f, shared_len(c.len()), i)
        }),
{
    let c = text::trimmed(Class::WhiteSpace, cleaned);
    let f = text::trimmed(Class::WhiteSpace, captured);
    if c.len() <= 8 {
        assert(c.subrange(0, c.len() as int) =~= c);
        assert(chunk_shared(c, f, shared_len(c.len()), 0));
    } else {
        lemma_anchor_from(c, f, shared_len(c.len()), anchor_len(c.len()) / 2, 0);
    }
}

proof fn lemma_anchor_from(c: Seq<char>, f: Seq<char>, len: nat, step: nat, i: nat)
    requires
        0 < step <= len,
        anchor_from(c, f, len, step, i),
    ensures
        exists|j: int| chunk_shared(c, f, len, j),
    decreases c.len() - i,
{
    let chunk = c.subrange(i as int, (i + len) as int);
    if text::trimmed(Class::WhiteSpace, chunk).len() > 0 && stands_in(chunk, f) {
        assert(chunk_shared(c, f, len, i as int));
    } else {
        lemma_anchor_from(c, f, len, step, i + step);
    }
}

/// What the user is told of corrections that were learned.
#[derive(Debug, Clone)]
pub struct AutoLearnApplied {
    pub count: u32,
    pub app: String,
    pub sample_wrong: String,
    pub sample_right: String,
}

/// The last of the pairs with the longest right side, in bytes; pairs whose
/// right side is blank are out.
pub open spec fn longest_right(pairs: Seq<diff::PairText>) -> Option<int>
    decreases pairs.len(),
{
    if pairs.len() == 0 {
        None
    } else {
        let before = longest_right(pairs.drop_last());
        let right = pairs.last().right;
        if text::trimmed(Class::WhiteSpace, right).len() == 0 {
            before
        } else {
            match before {
                Some(b) if text::byte_len(right) < text::byte_len(pairs[b].right) => Some(b),
                _ => Some(pairs.len() - 1),
            }
        }
    }
}

/// The pair that is shown: the one with the longest right side, or the first.
pub open spec fn sample(pairs: Seq<diff::PairText>) -> int {
    match longest_right(pairs) {
        Some(i) => i,
        None => 0,
    }
}

fn longest_right_side(pairs: &Vec<CorrectionPair>) -> (r: Option<usize>)
    ensures
        match r {
            Some(i) => i < pairs.len() && longest_right(diff::pair_texts(pairs@)) == Some(
                i as int,
            ),
            None => longest_right(diff::pair_texts(pairs@)) is None,
        },
{
    let ghost all = diff::pair_texts(pairs@);
    let mut best: Option<usize> = None;
    let mut top: usize = 0;
    let mut n: usize = 0;
    assert(all.take(0) =~= Seq::empty());
    while n < pairs.len()
        invariant
            n <= pairs.len(),
            all == diff::pair_texts(pairs@),
            match best {
                Some(b) => b < n && longest_right(all.take(n as int)) == Some(b as int)
                    && text::byte_len(all[b as int].right) == top,
                None => longest_right(all.take(n as int)) is None,
            },
        decreases pairs.len() - n,
    {
        assert(all.take(n + 1).drop_last() =~= all.take(n as int));
        assert(all.take(n + 1).last() == pairs@[n as int]@);
        let right = text::to_chars(pairs[n].right.as_str());
        let bare = text::trim(Class::WhiteSpace, right.as_slice());
        if bare.len() > 0 {
            let len: usize = pairs[n].right.as_str().as_bytes().len();
            if best.is_none() || top <= len {
                best = Some(n);
                top = len;
            }
        }
        n += 1;
    }
    assert(all.take(n as int) =~= all);
    best
}

/// What the user is told once `applied` corrections were written for an app:
/// nothing where it is none.
pub fn auto_learn_toast(pairs: &Vec<CorrectionPair>, applied: u32, app: &str) -> (r: Option<
    AutoLearnApplied,
>)
    ensures
        match r {
            None => applied == 0 || pairs.len() == 0,
            Some(t) => {
                let p = diff::pair_texts(pairs@)[sample(diff::pair_texts(pairs@))];
                &&& applied > 0
                &&& pairs.len() > 0
                &&& t.count == applied
                &&& t.app@ == app@
                &&& t.sample_wrong@ == p.wrong
                &&& t.sample_right@ == p.right
            },
        },
{
    if applied == 0 || pairs.len() == 0 {
        return None;
    }
    let ghost all = diff::pair_texts(pairs@);
    let i: usize = match longest_right_side(pairs) {
        Some(i) => i,
        None => 0,
    };
    assert(all[i as int] == pairs@[i as int]@);
    Some(
        AutoLearnApplied {
            count: applied,
            app: app.to_owned(),
            sample_wrong: pairs[i].wrong.clone(),
            sample_right: pairs[i].right.clone(),
        },
    )
}

} // verus!
