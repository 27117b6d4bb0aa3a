//! Learned corrections, put into a transcript.
use vstd::prelude::*;
use vstd::slice::slice_subrange;
use crate::chars;
use crate::db::corrections;
use crate::db::corrections::{CorrectionKey, Ledger};
use crate::db::CorrectionRow;
use crate::learning::diff;
use crate::text;
use crate::text::Class;

verus! {

/// How often a correction must have been seen before it is put in.
pub const MIN_COUNT: i64 = 3;

/// How many corrections of the app are looked up to be put into a text.
pub const MAX_CORRECTIONS: i64 = 200;

/// Whether a character belongs to a word: an ASCII letter, a digit, or an
/// underscore.
pub open spec fn word_char(c: char) -> bool {
    chars::ascii_letter(c) || chars::ascii_digit(c) || c == '_'
}

/// Whether no word of a text runs up to position `i` from the left.
pub open spec fn clear_before(s: Seq<char>, i: int) -> bool {
    i == 0 || !word_char(s[i - 1])
}

/// Whether no word of a text runs on at position `i`.
pub open spec fn clear_at(s: Seq<char>, i: int) -> bool {
    i == s.len() || !word_char(s[i])
}

/// Where character `k` of a text starts in its lower case, given how many
/// characters each becomes there.
pub open spec fn low_at(widths: Seq<nat>, k: int) -> nat
    decreases k,
{
    if k <= 0 {
        0
    } else {
        low_at(widths, k - 1) + widths[k - 1]
    }
}

/// Whether the characters of a text from `k` to `e` are whole words, and are
/// `low` in the lower case of the text. `lowered` is that lower case, and
/// `widths` tells how many of its characters each character becomes.
pub open spec fn stands_whole(
    s: Seq<char>,
    lowered: Seq<char>,
    widths: Seq<nat>,
    low: Seq<char>,
    k: int,
    e: int,
) -> bool {
    &&& 0 <= k < e <= s.len()
    &&& clear_before(s, k)
    &&& clear_at(s, e)
    &&& low_at(widths, k) <= low_at(widths, e) <= lowered.len()
    &&& lowered.subrange(low_at(widths, k) as int, low_at(widths, e) as int) == low
}

/// The last position up to `e` at which a stretch that starts at `k` and
/// stands whole ends.
pub open spec fn end_up_to(
    s: Seq<char>,
    lowered: Seq<char>,
    widths: Seq<nat>,
    low: Seq<char>,
    k: int,
    e: int,
) -> Option<int>
    decreases e - k,
{
    if e <= k {
        None
    } else if stands_whole(s, lowered, widths, low, k, e) {
        Some(e)
    } else {
        end_up_to(s, lowered, widths, low, k, e - 1)
    }
}

/// For each position of a text, where the whole words that start there and
/// are `low` in lower case end.
pub open spec fn word_ends(
    s: Seq<char>,
    lowered: Seq<char>,
    widths: Seq<nat>,
    low: Seq<char>,
) -> Seq<Option<int>> {
    Seq::new(s.len(), |k: int| end_up_to(s, lowered, widths, low, k, s.len() as int))
}

/// How many characters each character of a text becomes in lower case.
pub open spec fn lower_widths(s: Seq<char>) -> Seq<nat> {
    s.map_values(|c: char| chars::lowercase(seq![c]).len())
}

/// Whether the needle stands in a text from `k` to `e` as whole words,
/// whatever the case. The text is put into lower case as a whole: the lower
/// case of a letter can depend on what is around it.
pub open spec fn found_at(s: Seq<char>, needle: Seq<char>, k: int, e: int) -> bool {
    stands_whole(s, chars::lowercase(s), lower_widths(s), chars::lowercase(needle), k, e)
}

/// The text from `k` on with stretches replaced: where `ends` gives an end for
/// a position, the characters up to it give way to the replacement.
pub open spec fn stretches_replaced(
    s: Seq<char>,
    ends: Seq<Option<int>>,
    replacement: Seq<char>,
    k: int,
) -> Seq<char>
    decreases s.len() - k,
{
    if k < 0 || k >= s.len() {
        Seq::empty()
    } else {
        match ends[k] {
            Some(e) if k < e <= s.len() => replacement + stretches_replaced(
                s,
                ends,
                replacement,
                e,
            ),
            _ => seq![s[k]] + stretches_replaced(s, ends, replacement, k + 1),
        }
    }
}

/// The text with each whole word that the needle matches, whatever the case,
/// replaced.
pub open spec fn words_replaced(
    s: Seq<char>,
    needle: Seq<char>,
    replacement: Seq<char>,
) -> Seq<char> {
    let low = chars::lowercase(needle);
    if low.len() == 0 {
        s
    } else {
        stretches_replaced(
            s,
            word_ends(s, chars::lowercase(s), lower_widths(s), low),
            replacement,
            0,
        )
    }
}

fn is_word_char(c: char) -> (r: bool)
    ensures
        r == word_char(c),
{
    ('a' <= c && c <= 'z') || ('A' <= c && c <= 'Z') || chars::is_ascii_digit(c) || c == '_'
}

/// The position in an optional machine integer.
pub open spec fn opt_int(i: Option<usize>) -> Option<int> {
    match i {
        Some(i) => Some(i as int),
        None => None,
    }
}

/// The positions in a list of optional machine integers.
pub open spec fn opt_ints(v: Seq<Option<usize>>) -> Seq<Option<int>> {
    v.map_values(|i: Option<usize>| opt_int(i))
}

/// The numbers in a list of machine integers.
pub open spec fn nats(v: Seq<usize>) -> Seq<nat> {
    v.map_values(|n: usize| n as nat)
}

/// Characters start in the lower case in their order.
proof fn lemma_low_at_grows(widths: Seq<nat>, i: int, j: int)
    requires
        i <= j,
    ensures
        low_at(widths, i) <= low_at(widths, j),
    decreases j - i,
{
    if i < j && j > 0 {
        lemma_low_at_grows(widths, i, j - 1);
    }
}

/// Where no stretch ends behind `e`, the last end is the last up to `e`.
proof fn lemma_no_later_end(
    s: Seq<char>,
    lowered: Seq<char>,
    widths: Seq<nat>,
    low: Seq<char>,
    k: int,
    e: int,
    last: int,
)
    requires
        k <= e <= last,
        forall|y: int|
            e < y <= last ==> !#[trigger] stands_whole(s, lowered, widths, low, k, y),
    ensures
        end_up_to(s, lowered, widths, low, k, last) == end_up_to(s, lowered, widths, low, k, e),
    decreases last - e,
{
    if e < last {
        assert(!stands_whole(s, lowered, widths, low, k, last));
        lemma_no_later_end(s, lowered, widths, low, k, e, last - 1);
    }
}

/// The end of the whole words that start at character `k`, which is character
/// `at` of the lower case.
fn word_end(
    s: &[char],
    lowered: &[char],
    widths: &Vec<usize>,
    low: &[char],
    k: usize,
    at: usize,
) -> (r: Option<usize>)
    requires
        k < s.len(),
        widths.len() == s.len(),
        at == low_at(nats(widths@), k as int),
        at <= lowered.len(),
    ensures
        opt_int(r) == end_up_to(
            s@,
            lowered@,
            nats(widths@),
            low@,
            k as int,
            s@.len() as int,
        ),
{
    let ghost ws = nats(widths@);
    let starts = k == 0 || !is_word_char(s[k - 1]);
    let mut found: Option<usize> = None;
    let mut e: usize = k;
    let mut to: usize = at;
    while e < s.len()
        invariant
            k <= e <= s.len(),
            k < s.len(),
            widths.len() == s.len(),
            ws == nats(widths@),
            at == low_at(ws, k as int),
            to == low_at(ws, e as int),
            at <= to <= lowered.len(),
            starts == clear_before(s@, k as int),
            opt_int(found) == end_up_to(s@, lowered@, ws, low@, k as int, e as int),
        decreases s.len() - e,
    {
        assert(ws[e as int] == widths@[e as int] as nat);
        assert(low_at(ws, e + 1) == to + widths@[e as int]);
        let w: usize = widths[e];
        if w > lowered.len() - to || to - at + w > low.len() {
            proof {
                assert forall|y: int| e < y <= s@.len() implies !#[trigger] stands_whole(
                    s@,
                    lowered@,
                    ws,
                    low@,
                    k as int,
                    y,
                ) by {
                    lemma_low_at_grows(ws, e + 1, y);
                    if stands_whole(s@, lowered@, ws, low@, k as int, y) {
                        assert(lowered@.subrange(at as int, low_at(ws, y) as int).len()
                            == low_at(ws, y) - at);
                    }
                }
                lemma_no_later_end(
                    s@,
                    lowered@,
                    ws,
                    low@,
                    k as int,
                    e as int,
                    s@.len() as int,
                );
            }
            return found;
        }
        to = to + w;
        e += 1;
        if starts && (e == s.len() || !is_word_char(s[e])) {
            let piece = slice_subrange(lowered, at, to);
            assert(piece@ =~= lowered@.subrange(at as int, to as int));
            if text::same(piece, low) {
                assert(stands_whole(s@, lowered@, ws, low@, k as int, e as int));
                found = Some(e);
            }
        }
    }
    found
}

/// For each position of a text, where the whole words that start there and are
/// `low` in lower case end, given the lower case of the text and how many of
/// its characters each character becomes.
pub fn find_whole_words(s: &[char], lowered: &[char], widths: &Vec<usize>, low: &[char]) -> (r: Vec<
    Option<usize>,
>)
    requires
        widths.len() == s.len(),
    ensures
        opt_ints(r@) == word_ends(s@, lowered@, nats(widths@), low@),
{
    let ghost ws = nats(widths@);
    let ghost all = word_ends(s@, lowered@, ws, low@);
    let mut ends: Vec<Option<usize>> = Vec::new();
    let mut k: usize = 0;
    // Where character k starts in the lower case; none beyond its end.
    let mut at: Option<usize> = Some(0);
    assert(opt_ints(ends@) =~= all.take(0));
    while k < s.len()
        invariant
            k <= s.len(),
            widths.len() == s.len(),
            ws == nats(widths@),
            all == word_ends(s@, lowered@, ws, low@),
            match at {
                Some(p) => p <= lowered.len() && p == low_at(ws, k as int),
                None => low_at(ws, k as int) > lowered.len(),
            },
            opt_ints(ends@) == all.take(k as int),
        decreases s.len() - k,
    {
        let ghost before = ends@;
        assert(ws[k as int] == widths@[k as int] as nat);
        assert(low_at(ws, k + 1) == low_at(ws, k as int) + widths@[k as int]);
        let end = match at {
            Some(p) => word_end(s, lowered, widths, low, k, p),
            None => {
                proof {
                    assert forall|y: int| k < y <= s@.len() implies !#[trigger] stands_whole(
                        s@,
                        lowered@,
                        ws,
                        low@,
                        k as int,
                        y,
                    ) by {
                        lemma_low_at_grows(ws, k as int, y);
                    }
                    lemma_no_later_end(
                        s@,
                        lowered@,
                        ws,
                        low@,
                        k as int,
                        k as int,
                        s@.len() as int,
                    );
                }
                None
            },
        };
        ends.push(end);
        assert(opt_ints(ends@) =~= opt_ints(before).push(opt_int(end)));
        assert(all.take(k + 1) =~= all.take(k as int).push(all[k as int]));
        at = match at {
            Some(p) => if widths[k] <= lowered.len() - p {
                Some(p + widths[k])
            } else {
                None
            },
            None => None,
        };
        k += 1;
    }
    assert(all.take(k as int) =~= all);
    ends
}

fn find_lower_widths(s: &[char]) -> (r: Vec<usize>)
    ensures
        r.len() == s.len(),
        nats(r@) == lower_widths(s@),
{
    let ghost all = lower_widths(s@);
    let mut out: Vec<usize> = Vec::new();
    let mut i: usize = 0;
    assert(nats(out@) =~= all.take(0));
    while i < s.len()
        invariant
            i <= s.len(),
            out.len() == i,
            all == lower_widths(s@),
            nats(out@) == all.take(i as int),
        decreases s.len() - i,
    {
        let ghost before = out@;
        let w: usize = text::lower(text::one_char(s[i]).as_slice()).len();
        out.push(w);
        assert(nats(out@) =~= nats(before).push(w as nat));
        assert(all.take(i + 1) =~= all.take(i as int).push(all[i as int]));
        i += 1;
    }
    assert(all.take(i as int) =~= all);
    out
}

/// Replaces stretches of a text: where `ends` gives an end for a position, the
/// characters up to it give way to the replacement. An end that lies
/// before the position or beyond the text counts for nothing.
pub fn replace_stretches(s: &[char], ends: &Vec<Option<usize>>, replacement: &[char]) -> (r: Vec<
    char,
>)
    requires
        ends.len() == s.len(),
    ensures
        r@ == stretches_replaced(s@, opt_ints(ends@), replacement@, 0),
{
    let ghost all = opt_ints(ends@);
    let mut out: Vec<char> = Vec::new();
    let mut k: usize = 0;
    assert(out@ + stretches_replaced(s@, all, replacement@, 0) =~= stretches_replaced(
        s@,
        all,
        replacement@,
        0,
    ));
    while k < s.len()
        invariant
            ends.len() == s.len(),
            all == opt_ints(ends@),
            stretches_replaced(s@, all, replacement@, 0) == out@ + stretches_replaced(
                s@,
                all,
                replacement@,
                k as int,
            ),
        decreases s.len() - k,
    {
        let ghost before = out@;
        assert(all[k as int] == opt_int(ends@[k as int]));
        let next: usize = match ends[k] {
            Some(e) => if k < e && e <= s.len() {
                e
            } else {
                k
            },
            None => k,
        };
        if next > k {
            text::append(&mut out, replacement);
            assert(before + (replacement@ + stretches_replaced(s@, all, replacement@, next as int))
                =~= out@ + stretches_replaced(s@, all, replacement@, next as int));
            k = next;
        } else {
            out.push(s[k]);
            assert(before + (seq![s@[k as int]] + stretches_replaced(s@, all, replacement@, k + 1))
                =~= out@ + stretches_replaced(s@, all, replacement@, k + 1));
            k += 1;
        }
    }
    assert(out@ + Seq::<char>::empty() =~= out@);
    out
}

/// Replaces each whole word that the needle matches, whatever the case.
pub fn case_insensitive_word_replace(haystack: &str, needle: &str, replacement: &str) -> (r: String)
    ensures
        r@ == words_replaced(haystack@, needle@, replacement@),
{
    let low = text::to_chars(needle.to_lowercase().as_str());
    if low.len() == 0 {
        return haystack.to_owned();
    }
    let s = text::to_chars(haystack);
    let rep = text::to_chars(replacement);
    let lowered = text::to_chars(haystack.to_lowercase().as_str());
    let widths = find_lower_widths(s.as_slice());
    let ends = find_whole_words(s.as_slice(), lowered.as_slice(), &widths, low.as_slice());
    assert(ends.len() == opt_ints(ends@).len());
    let r = replace_stretches(s.as_slice(), &ends, rep.as_slice());
    text::to_text(r.as_slice())
}

/// Whether a word of the context can vouch for a correction: four bytes or
/// more, and no stopword.
pub open spec fn vouching(word: Seq<char>) -> bool {
    text::byte_len(word) >= 4 && !diff::stopword(word)
}

/// Whether word `i` of a context is one that vouches and stands in the text.
pub open spec fn vouched_by(context: Seq<char>, s: Seq<char>, i: int) -> bool {
    let w = text::trimmed(Class::AsciiPunctuation, text::words(context)[i]);
    vouching(w) && text::first_of(chars::lowercase(s), chars::lowercase(w)) is Some
}

/// Whether the text fits the context of a correction: it has none, or one of
/// its words vouches.
pub open spec fn context_fits(context: Option<Seq<char>>, s: Seq<char>) -> bool {
    match context {
        None => true,
        Some(c) => text::trimmed(Class::WhiteSpace, c).len() == 0 || exists|i: int|
            0 <= i < text::words(c).len() && vouched_by(c, s, i),
    }
}

/// Whether a correction is put into a text.
pub open spec fn applies(row: CorrectionRow, s: Seq<char>) -> bool {
    &&& row.count >= MIN_COUNT
    &&& row.wrong@.len() > 0
    &&& row.right@.len() > 0
    &&& context_fits(text::opt_text(row.context), s)
}

/// The text with one correction put in. It stays as it is where the correction
/// does not apply.
pub open spec fn corrected_once(s: Seq<char>, row: CorrectionRow) -> Seq<char> {
    if applies(row, s) {
        words_replaced(s, row.wrong@, row.right@)
    } else {
        s
    }
}

/// The text with the corrections put in one after the other.
pub open spec fn corrected(s: Seq<char>, rows: Seq<CorrectionRow>) -> Seq<char>
    decreases rows.len(),
{
    if rows.len() == 0 {
        s
    } else {
        corrected_once(corrected(s, rows.drop_last()), rows.last())
    }
}

/// Whether a text takes at least `n` bytes.
fn at_least_bytes(s: &[char], n: usize) -> (r: bool)
    ensures
        r == (text::byte_len(s@) >= n),
{
    let mut i: usize = 0;
    let mut left: usize = n;
    assert(s@.take(0) =~= Seq::empty());
    while i < s.len()
        invariant
            i <= s.len(),
            left <= n,
            left == n - text::byte_len(s@.take(i as int)),
        decreases s.len() - i,
    {
        let w = text::char_width(s[i]);
        proof {
            text::lemma_byte_len_step(s@, i as int);
        }
        if w >= left {
            proof {
                text::lemma_byte_len_grows(s@, i + 1, s@.len() as int);
                assert(s@.take(s@.len() as int) =~= s@);
            }
            return true;
        }
        left -= w;
        i += 1;
    }
    assert(s@.take(i as int) =~= s@);
    left == 0
}

fn fits_context(context: &Option<String>, s: &str) -> (r: bool)
    ensures
        r == context_fits(text::opt_text(*context), s@),
{
    let c = match context {
        None => {
            return true;
        },
        Some(c) => text::to_chars(c.as_str()),
    };
    let bare = text::trim(Class::WhiteSpace, c.as_slice());
    if bare.len() == 0 {
        return true;
    }
    let low = text::to_chars(s.to_lowercase().as_str());
    let words = text::split_words(c.as_slice());
    let mut i: usize = 0;
    while i < words.len()
        invariant
            i <= words.len(),
            text::opt_text(*context) == Some(c@),
            low@ == chars::lowercase(s@),
            text::rows(words@) == text::words(c@),
            forall|j: int| 0 <= j < i ==> !vouched_by(c@, s@, j),
        decreases words.len() - i,
    {
        assert(text::words(c@)[i as int] == words@[i as int]@);
        let w = text::trim(Class::AsciiPunctuation, words[i].as_slice());
        if at_least_bytes(w, 4) && !diff::is_stopword(w) {
            let wl = text::lower(w);
            if text::find(low.as_slice(), wl.as_slice()).is_some() {
                assert(vouched_by(c@, s@, i as int));
                return true;
            }
        }
        i += 1;
    }
    false
}

/// Puts learned corrections into a transcript. A correction goes in once it
/// was seen three times, in place of whole words, whatever their case; if it
/// has a context, some telling word of that must be in the text too.
pub fn apply_replacements(text: &str, rows: &[CorrectionRow]) -> (r: String)
    ensures
        r@ == corrected(text@, rows@),
{
    let mut out = text.to_owned();
    assert(rows@.take(0) =~= Seq::empty());
    let mut i: usize = 0;
    while i < rows.len()
        invariant
            i <= rows.len(),
            out@ == corrected(text@, rows@.take(i as int)),
        decreases rows.len() - i,
    {
        assert(rows@.take(i + 1).drop_last() =~= rows@.take(i as int));
        assert(rows@.take(i + 1).last() == rows@[i as int]);
        let row = &rows[i];
        if row.count >= MIN_COUNT && !row.wrong.as_str().is_empty()
            && !row.right.as_str().is_empty() && fits_context(
            &row.context,
            out.as_str(),
        ) {
            out = case_insensitive_word_replace(
                out.as_str(),
                row.wrong.as_str(),
                row.right.as_str(),
            );
        }
        i += 1;
    }
    assert(rows@.take(i as int) =~= rows@);
    out
}

/// Corrections seen fewer than three times change nothing.
pub proof fn law_rare_corrections_do_nothing(s: Seq<char>, rows: Seq<CorrectionRow>)
    requires
        forall|i: int| 0 <= i < rows.len() ==> (#[trigger] rows[i]).count < 3,
    ensures
        corrected(s, rows) == s,
    decreases rows.len(),
{
    if rows.len() > 0 {
        assert forall|i: int| 0 <= i < rows.drop_last().len() implies (
        #[trigger] rows.drop_last()[i]).count < 3 by {
            assert(rows[i].count < 3);
        }
        law_rare_corrections_do_nothing(s, rows.drop_last());
        assert(rows[rows.len() - 1].count < 3);
    }
}

/// Where no stretch starts between two positions, the text between them stays.
pub proof fn lemma_between_stretches(
    s: Seq<char>,
    ends: Seq<Option<int>>,
    replacement: Seq<char>,
    k: int,
    j: int,
)
    requires
        ends.len() == s.len(),
        0 <= k <= j <= s.len(),
        forall|i: int| k <= i < j ==> #[trigger] ends[i] is None,
    ensures
        stretches_replaced(s, ends, replacement, k) == s.subrange(k, j) + stretches_replaced(
            s,
            ends,
            replacement,
            j,
        ),
    decreases j - k,
{
    let rest = stretches_replaced(s, ends, replacement, j);
    if k < j {
        assert(ends[k] is None);
        lemma_between_stretches(s, ends, replacement, k + 1, j);
        assert(seq![s[k]] + (s.subrange(k + 1, j) + rest) =~= s.subrange(k, j) + rest);
    } else {
        assert(s.subrange(k, j) + rest =~= rest);
    }
}

/// An end that is found is one where the stretch stands whole, and none is
/// found only where there is none.
proof fn lemma_end_up_to(
    s: Seq<char>,
    lowered: Seq<char>,
    widths: Seq<nat>,
    low: Seq<char>,
    k: int,
    e: int,
)
    ensures
        match end_up_to(s, lowered, widths, low, k, e) {
            Some(x) => k < x <= e && stands_whole(s, lowered, widths, low, k, x) && forall|y: int|
                x < y <= e ==> !stands_whole(s, lowered, widths, low, k, y),
            None => forall|y: int| k < y <= e ==> !stands_whole(s, lowered, widths, low, k, y),
        },
    decreases e - k,
{
    if e > k && !stands_whole(s, lowered, widths, low, k, e) {
        lemma_end_up_to(s, lowered, widths, low, k, e - 1);
    }
}

/// The ends at which words are sought in a text.
pub open spec fn ends_in(s: Seq<char>, needle: Seq<char>) -> Seq<Option<int>> {
    word_ends(s, chars::lowercase(s), lower_widths(s), chars::lowercase(needle))
}

pub proof fn lemma_ends_in(s: Seq<char>, needle: Seq<char>, k: int)
    requires
        0 <= k < s.len(),
    ensures
        match ends_in(s, needle)[k] {
            Some(x) => found_at(s, needle, k, x) && forall|y: int|
                x < y ==> !#[trigger] found_at(s, needle, k, y),
            None => forall|y: int| !#[trigger] found_at(s, needle, k, y),
        },
{
    lemma_end_up_to(
        s,
        chars::lowercase(s),
        lower_widths(s),
        chars::lowercase(needle),
        k,
        s.len() as int,
    );
}

/// A text in which the word stands nowhere whole stays as it is.
pub proof fn law_absent_word_changes_nothing(
    s: Seq<char>,
    needle: Seq<char>,
    replacement: Seq<char>,
)
    requires
        forall|k: int, e: int| !#[trigger] found_at(s, needle, k, e),
    ensures
        words_replaced(s, needle, replacement) == s,
{
    if chars::lowercase(needle).len() > 0 {
        let ends = ends_in(s, needle);
        assert forall|i: int| 0 <= i < s.len() implies #[trigger] ends[i] is None by {
            lemma_ends_in(s, needle, i);
        }
        lemma_between_stretches(s, ends, replacement, 0, s.len() as int);
        assert(s.subrange(0, s.len() as int) + Seq::<char>::empty() =~= s);
    }
}

/// A word that stands whole in a text, once, is replaced, and nothing around
/// it is touched, whatever characters the text holds and whatever case the
/// word has.
pub proof fn law_a_whole_word_is_replaced(
    before: Seq<char>,
    word: Seq<char>,
    after: Seq<char>,
    needle: Seq<char>,
    replacement: Seq<char>,
)
    requires
        chars::lowercase(needle).len() > 0,
        found_at(
            before + word + after,
            needle,
            before.len() as int,
            (before + word).len() as int,
        ),
        forall|k: int, e: int| #[trigger]
            found_at(before + word + after, needle, k, e) ==> k == before.len() && e == before.len()
                + word.len(),
    ensures
        words_replaced(before + word + after, needle, replacement) == before + replacement + after,
{
    let s = before + word + after;
    let ends = ends_in(s, needle);
    let a = before.len() as int;
    let b = a + word.len();
    assert forall|i: int| 0 <= i < s.len() && i != a implies #[trigger] ends[i] is None by {
        lemma_ends_in(s, needle, i);
    }
    lemma_ends_in(s, needle, a);
    assert(found_at(s, needle, a, b));
    assert(ends[a] == Some(b));
    lemma_between_stretches(s, ends, replacement, 0, a);
    lemma_between_stretches(s, ends, replacement, b, s.len() as int);
    assert(s.subrange(0, a) =~= before);
    assert(s.subrange(b, s.len() as int) =~= after);
    let tail = stretches_replaced(s, ends, replacement, b);
    assert(tail =~= after);
    assert(before + (replacement + after) =~= before + replacement + after);
}

/// A text that is the word itself, in any case, is replaced whole, where its
/// lower case is that of its characters in length.
pub proof fn law_the_word_itself_is_replaced(
    s: Seq<char>,
    needle: Seq<char>,
    replacement: Seq<char>,
)
    requires
        s.len() > 0,
        chars::lowercase(s) == chars::lowercase(needle),
        chars::lowercase(s).len() > 0,
        low_at(lower_widths(s), s.len() as int) == chars::lowercase(s).len(),
    ensures
        words_replaced(s, needle, replacement) == replacement,
{
    let low = chars::lowercase(s);
    let n = s.len() as int;
    assert(low.subrange(0, low.len() as int) =~= low);
    assert(found_at(s, needle, 0, n));
    let ends = ends_in(s, needle);
    assert(ends[0] == Some(n));
    assert(stretches_replaced(s, ends, replacement, n) =~= Seq::empty());
    assert(replacement + Seq::<char>::empty() =~= replacement);
}

proof fn lemma_ascii_low_at(s: Seq<char>, k: int)
    requires
        chars::all_ascii(s),
        0 <= k <= s.len(),
    ensures
        low_at(lower_widths(s), k) == k,
    decreases k,
{
    if k > 0 {
        lemma_ascii_low_at(s, k - 1);
        assert(chars::ascii(s[k - 1]));
        assert(chars::all_ascii(seq![s[k - 1]]));
    }
}

/// In ASCII text a word is found where it stands whole, letter by letter but
/// for case.
pub proof fn law_ascii_words_are_found_letter_by_letter(
    s: Seq<char>,
    needle: Seq<char>,
    k: int,
    e: int,
)
    requires
        chars::all_ascii(s),
        0 <= k < e <= s.len(),
    ensures
        found_at(s, needle, k, e) == (clear_before(s, k) && clear_at(s, e) && s.subrange(
            k,
            e,
        ).map_values(|c: char| chars::ascii_lower(c)) == chars::lowercase(needle)),
{
    lemma_ascii_low_at(s, k);
    lemma_ascii_low_at(s, e);
    let f = |c: char| chars::ascii_lower(c);
    assert(chars::lowercase(s).subrange(k, e) =~= s.subrange(k, e).map_values(f));
}

/// A correction without a context is put in from its third sighting on, and
/// not before.
pub proof fn law_the_third_sighting_counts(
    l: Ledger,
    k: CorrectionKey,
    n: nat,
    row: CorrectionRow,
    s: Seq<char>,
)
    requires
        !l.counts.dom().contains(k),
        !l.tombstones.contains(k),
        0 < n < i64::MAX,
        row.wrong@ == k.wrong,
        row.right@ == k.right,
        row.context is None,
        row.count == corrections::seen_all(l, Seq::new(n, |i: int| k)).counts[k],
        k.wrong.len() > 0,
        k.right.len() > 0,
    ensures
        corrected(s, seq![row]) == (if n >= 3 {
            words_replaced(s, k.wrong, k.right)
        } else {
            s
        }),
{
    corrections::law_counts_add_up(l, k, n);
    reveal_with_fuel(corrected, 2);
    assert(seq![row].drop_last() =~= Seq::empty());
}

} // verus!
