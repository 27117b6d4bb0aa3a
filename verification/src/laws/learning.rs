//! What is learned from the words that a user changed.
use vstd::prelude::*;
use crate::chars;
use crate::laws;
use crate::learning::diff;
use crate::learning::diff::{ChangeTag, Grouping, PairText};
use crate::text;
use crate::text::Class;

verus! {

/// Whether a word holds something besides ASCII punctuation.
pub open spec fn telling_word(w: Seq<char>) -> bool {
    exists|i: int| 0 <= i < w.len() && !Class::AsciiPunctuation.has(#[trigger] w[i])
}

proof fn lemma_telling_word(w: Seq<char>)
    ensures
        telling_word(w) == (text::trimmed(Class::AsciiPunctuation, w).len() > 0),
{
    let k = Class::AsciiPunctuation;
    let m = text::trimmed(k, w);
    let (h, t) = laws::text::lemma_trimmed_apart(k, w);
    if m.len() > 0 {
        assert(w[h.len() as int] == m[0]);
    } else if telling_word(w) {
        let i = choose|i: int| 0 <= i < w.len() && !k.has(#[trigger] w[i]);
        if i < h.len() {
            assert(w[i] == h[i]);
        } else {
            assert(w[i] == t[i - h.len()]);
        }
    }
}

/// The tokens of a text are its words without the punctuation around them, in
/// order: one for each word that is not punctuation alone, whatever its length.
pub proof fn law_tokens_are_the_words(s: Seq<char>)
    ensures
        diff::tokens(s) == text::words(s).filter(|w: Seq<char>| telling_word(w)).map_values(
            |w: Seq<char>| text::trimmed(Class::AsciiPunctuation, w),
        ),
        diff::tokens(s).len() == text::words(s).filter(|w: Seq<char>| telling_word(w)).len(),
{
    lemma_tokens_of(text::words(s));
}

proof fn lemma_tokens_of(ws: Seq<Seq<char>>)
    ensures
        diff::tokens_of(ws) == ws.filter(|w: Seq<char>| telling_word(w)).map_values(
            |w: Seq<char>| text::trimmed(Class::AsciiPunctuation, w),
        ),
    decreases ws.len(),
{
    reveal(Seq::filter);
    let f = |w: Seq<char>| telling_word(w);
    let g = |w: Seq<char>| text::trimmed(Class::AsciiPunctuation, w);
    if ws.len() == 0 {
        assert(ws.filter(f).map_values(g) =~= Seq::empty());
    } else {
        let d = ws.drop_last();
        lemma_tokens_of(d);
        lemma_telling_word(ws.last());
        if telling_word(ws.last()) {
            assert(ws.filter(f).map_values(g) =~= d.filter(f).map_values(g).push(g(ws.last())));
        }
    }
}

/// The tokens of two texts with white space between them are those of the one
/// and then those of the other.
pub proof fn law_tokens_of_parts(a: Seq<char>, c: char, b: Seq<char>)
    requires
        chars::white_space(c),
    ensures
        diff::tokens(a + seq![c] + b) == diff::tokens(a) + diff::tokens(b),
{
    laws::text::law_words_of_parts(a, c, b);
    lemma_tokens_of_both(text::words(a), text::words(b));
}

proof fn lemma_tokens_of_both(a: Seq<Seq<char>>, b: Seq<Seq<char>>)
    ensures
        diff::tokens_of(a + b) == diff::tokens_of(a) + diff::tokens_of(b),
    decreases b.len(),
{
    if b.len() == 0 {
        assert(a + b =~= a);
        assert(diff::tokens_of(a) + diff::tokens_of(b) =~= diff::tokens_of(a));
    } else {
        lemma_tokens_of_both(a, b.drop_last());
        assert((a + b).drop_last() =~= a + b.drop_last());
        let w = text::trimmed(Class::AsciiPunctuation, b.last());
        assert(text::flushed(diff::tokens_of(a) + diff::tokens_of(b.drop_last()), w)
            =~= diff::tokens_of(a) + text::flushed(diff::tokens_of(b.drop_last()), w));
    }
}

/// A single word is a token without the punctuation around it, and none where
/// it is nothing else.
pub proof fn law_token_of_a_word(head: Seq<char>, body: Seq<char>, tail: Seq<char>)
    requires
        laws::text::all_of(Class::AsciiPunctuation, head),
        laws::text::all_of(Class::AsciiPunctuation, tail),
        laws::text::bare(Class::AsciiPunctuation, body),
        laws::text::none_of(Class::WhiteSpace, body),
    ensures
        body.len() > 0 ==> diff::tokens(head + body + tail) == seq![body],
        body.len() == 0 ==> diff::tokens(head + body + tail).len() == 0,
{
    let w = head + body + tail;
    assert forall|i: int| 0 <= i < w.len() implies !Class::WhiteSpace.has(#[trigger] w[i]) by {
        if i < head.len() {
            assert(Class::AsciiPunctuation.has(head[i]));
        } else if i < head.len() + body.len() {
            assert(!Class::WhiteSpace.has(body[i - head.len()]));
        } else {
            assert(Class::AsciiPunctuation.has(tail[i - head.len() - body.len()]));
        }
    }
    laws::text::law_trimmed(Class::AsciiPunctuation, head, body, tail);
    laws::text::law_one_field(Class::WhiteSpace, w);
    if w.len() > 0 {
        assert(seq![w].drop_last() =~= Seq::empty());
        assert(diff::tokens_of(Seq::empty()) =~= Seq::empty());
        assert(diff::tokens(w) =~= text::flushed(Seq::empty(), body));
        assert(text::flushed(Seq::empty(), body) =~= if body.len() > 0 {
            seq![body]
        } else {
            Seq::empty()
        });
    } else {
        assert(diff::tokens_of(Seq::empty()) =~= Seq::empty());
    }
}

/// What is learned comes from the whole of both texts, word by word.
pub proof fn law_whole_texts_are_compared(
    cleaned: Seq<char>,
    final_text: Seq<char>,
    context_words: int,
    old: Seq<Seq<char>>,
    new: Seq<Seq<char>>,
)
    requires
        old == text::words(cleaned).filter(|w: Seq<char>| telling_word(w)).map_values(
            |w: Seq<char>| text::trimmed(Class::AsciiPunctuation, w),
        ),
        new == text::words(final_text).filter(|w: Seq<char>| telling_word(w)).map_values(
            |w: Seq<char>| text::trimmed(Class::AsciiPunctuation, w),
        ),
    ensures
        old == new ==> diff::diff_pairs(cleaned, final_text, context_words).len() == 0,
        old != new ==> diff::diff_pairs(cleaned, final_text, context_words) == diff::pairs_of(
            diff::word_diff(old, new),
            new,
            context_words,
        ),
{
    law_tokens_are_the_words(cleaned);
    law_tokens_are_the_words(final_text);
}

/// Whether changes are of words that went or came, none of one that stayed.
pub open spec fn all_changed(changes: Seq<(ChangeTag, Seq<char>)>) -> bool {
    forall|i: int| 0 <= i < changes.len() ==> (#[trigger] changes[i]).0 != ChangeTag::Equal
}

/// Whether a list of changes is empty or ends in a word that stayed.
pub open spec fn settled(changes: Seq<(ChangeTag, Seq<char>)>) -> bool {
    changes.len() > 0 ==> changes.last().0 == ChangeTag::Equal
}

proof fn lemma_at(changes: Seq<(ChangeTag, Seq<char>)>, new: Seq<Seq<char>>, n: int)
    ensures
        diff::grouped(changes, new, n).at == diff::side(changes, ChangeTag::Delete).len(),
    decreases changes.len(),
{
    if changes.len() > 0 {
        lemma_at(changes.drop_last(), new, n);
    }
}

proof fn lemma_open_pair(
    before: Seq<(ChangeTag, Seq<char>)>,
    stretch: Seq<(ChangeTag, Seq<char>)>,
    new: Seq<Seq<char>>,
    n: int,
)
    requires
        settled(before),
        all_changed(stretch),
    ensures
        ({
            let g = diff::grouped(before, new, n);
            let h = diff::grouped(before + stretch, new, n);
            &&& h.pairs == g.pairs
            &&& g.wrong.len() == 0 && g.right.len() == 0
            &&& h.wrong == diff::side(stretch, ChangeTag::Insert)
            &&& h.right == diff::side(stretch, ChangeTag::Delete)
            &&& h.at == g.at + h.right.len()
            &&& stretch.len() > 0 ==> h.anchor == g.at
            &&& stretch.len() > 0 ==> h.wrong.len() > 0 || h.right.len() > 0
        }),
    decreases stretch.len(),
{
    let all = before + stretch;
    if stretch.len() == 0 {
        assert(all =~= before);
        assert(diff::grouped(before, new, n).wrong =~= Seq::empty());
        assert(diff::grouped(before, new, n).right =~= Seq::empty());
    } else {
        let d = stretch.drop_last();
        assert forall|i: int| 0 <= i < d.len() implies (#[trigger] d[i]).0 != ChangeTag::Equal by {
            assert(stretch[i].0 != ChangeTag::Equal);
        }
        assert(stretch[stretch.len() - 1].0 != ChangeTag::Equal);
        lemma_open_pair(before, d, new, n);
        assert(all.drop_last() =~= before + d);
        assert(all.last() == stretch.last());
    }
}

/// Words that changed, with words that stayed on both sides of them, make one
/// pair behind those before: the words that went, the words that came, and the
/// words of the new text around those, as many as asked for on either side.
/// They make none where both sides are the same but for case.
pub proof fn law_stretch_makes_a_pair(
    before: Seq<(ChangeTag, Seq<char>)>,
    stretch: Seq<(ChangeTag, Seq<char>)>,
    new: Seq<Seq<char>>,
    n: int,
)
    requires
        settled(before),
        all_changed(stretch),
        stretch.len() > 0,
        0 <= n,
    ensures
        ({
            let wrong = text::joined(diff::side(stretch, ChangeTag::Insert), seq![' ']);
            let came = diff::side(stretch, ChangeTag::Delete);
            let right = text::joined(came, seq![' ']);
            let at = diff::side(before, ChangeTag::Delete).len();
            let lo = if at > n {
                at - n
            } else {
                0
            };
            let hi = if at + came.len() + n < new.len() {
                at + came.len() + n
            } else {
                new.len() as int
            };
            let pairs = diff::pairs_of(before + stretch, new, n);
            let none = (wrong.len() == 0 && right.len() == 0) || (wrong.len() > 0 && right.len()
                > 0 && chars::lowercase(wrong) == chars::lowercase(right));
            &&& none ==> pairs == diff::pairs_of(before, new, n)
            &&& !none ==> pairs == diff::pairs_of(before, new, n).push(
                PairText { wrong, right, context: text::joined(new.subrange(lo, hi), seq![' ']) },
            )
        }),
{
    lemma_open_pair(before, stretch, new, n);
    lemma_at(before, new, n);
}

/// A word that stayed adds no pair.
pub proof fn law_shared_word_adds_no_pair(
    changes: Seq<(ChangeTag, Seq<char>)>,
    word: Seq<char>,
    new: Seq<Seq<char>>,
    n: int,
)
    ensures
        diff::pairs_of(changes.push((ChangeTag::Equal, word)), new, n) == diff::pairs_of(
            changes,
            new,
            n,
        ),
        diff::pairs_of(Seq::empty(), new, n).len() == 0,
{
    assert(changes.push((ChangeTag::Equal, word)).drop_last() =~= changes);
    assert(text::joined(Seq::empty(), seq![' ']) =~= Seq::empty());
}

/// The stopwords, in any case of their letters.
pub proof fn law_stopwords(word: Seq<char>)
    ensures
        diff::stopword(word) == ({
            ||| text::same_caseless("the"@, word)
            ||| text::same_caseless("a"@, word)
            ||| text::same_caseless("an"@, word)
            ||| text::same_caseless("and"@, word)
            ||| text::same_caseless("or"@, word)
            ||| text::same_caseless("but"@, word)
            ||| text::same_caseless("if"@, word)
            ||| text::same_caseless("of"@, word)
            ||| text::same_caseless("at"@, word)
            ||| text::same_caseless("by"@, word)
            ||| text::same_caseless("for"@, word)
            ||| text::same_caseless("with"@, word)
            ||| text::same_caseless("about"@, word)
            ||| text::same_caseless("to"@, word)
            ||| text::same_caseless("from"@, word)
            ||| text::same_caseless("in"@, word)
            ||| text::same_caseless("on"@, word)
            ||| text::same_caseless("is"@, word)
            ||| text::same_caseless("are"@, word)
            ||| text::same_caseless("was"@, word)
            ||| text::same_caseless("were"@, word)
            ||| text::same_caseless("be"@, word)
            ||| text::same_caseless("been"@, word)
            ||| text::same_caseless("being"@, word)
            ||| text::same_caseless("have"@, word)
            ||| text::same_caseless("has"@, word)
            ||| text::same_caseless("had"@, word)
            ||| text::same_caseless("do"@, word)
            ||| text::same_caseless("does"@, word)
            ||| text::same_caseless("did"@, word)
            ||| text::same_caseless("will"@, word)
            ||| text::same_caseless("would"@, word)
            ||| text::same_caseless("shall"@, word)
            ||| text::same_caseless("should"@, word)
            ||| text::same_caseless("can"@, word)
            ||| text::same_caseless("could"@, word)
            ||| text::same_caseless("may"@, word)
            ||| text::same_caseless("might"@, word)
            ||| text::same_caseless("must"@, word)
            ||| text::same_caseless("this"@, word)
            ||| text::same_caseless("that"@, word)
            ||| text::same_caseless("these"@, word)
            ||| text::same_caseless("those"@, word)
            ||| text::same_caseless("i"@, word)
            ||| text::same_caseless("you"@, word)
            ||| text::same_caseless("he"@, word)
            ||| text::same_caseless("she"@, word)
            ||| text::same_caseless("it"@, word)
            ||| text::same_caseless("we"@, word)
            ||| text::same_caseless("they"@, word)
            ||| text::same_caseless("them"@, word)
            ||| text::same_caseless("us"@, word)
            ||| text::same_caseless("him"@, word)
            ||| text::same_caseless("her"@, word)
            ||| text::same_caseless("his"@, word)
            ||| text::same_caseless("hers"@, word)
            ||| text::same_caseless("their"@, word)
            ||| text::same_caseless("our"@, word)
            ||| text::same_caseless("your"@, word)
            ||| text::same_caseless("my"@, word)
            ||| text::same_caseless("me"@, word)
            ||| text::same_caseless("as"@, word)
            ||| text::same_caseless("so"@, word)
            ||| text::same_caseless("than"@, word)
            ||| text::same_caseless("then"@, word)
            ||| text::same_caseless("too"@, word)
            ||| text::same_caseless("very"@, word)
            ||| text::same_caseless("yes"@, word)
            ||| text::same_caseless("no"@, word)
            ||| text::same_caseless("not"@, word)
        }),
{
    let list = diff::STOPWORDS@;
    assert(list[0]@ == "the"@);
    assert(list[1]@ == "a"@);
    assert(list[2]@ == "an"@);
    assert(list[3]@ == "and"@);
    assert(list[4]@ == "or"@);
    assert(list[5]@ == "but"@);
    assert(list[6]@ == "if"@);
    assert(list[7]@ == "of"@);
    assert(list[8]@ == "at"@);
    assert(list[9]@ == "by"@);
    assert(list[10]@ == "for"@);
    assert(list[11]@ == "with"@);
    assert(list[12]@ == "about"@);
    assert(list[13]@ == "to"@);
    assert(list[14]@ == "from"@);
    assert(list[15]@ == "in"@);
    assert(list[16]@ == "on"@);
    assert(list[17]@ == "is"@);
    assert(list[18]@ == "are"@);
    assert(list[19]@ == "was"@);
    assert(list[20]@ == "were"@);
    assert(list[21]@ == "be"@);
    assert(list[22]@ == "been"@);
    assert(list[23]@ == "being"@);
    assert(list[24]@ == "have"@);
    assert(list[25]@ == "has"@);
    assert(list[26]@ == "had"@);
    assert(list[27]@ == "do"@);
    assert(list[28]@ == "does"@);
    assert(list[29]@ == "did"@);
    assert(list[30]@ == "will"@);
    assert(list[31]@ == "would"@);
    assert(list[32]@ == "shall"@);
    assert(list[33]@ == "should"@);
    assert(list[34]@ == "can"@);
    assert(list[35]@ == "could"@);
    assert(list[36]@ == "may"@);
    assert(list[37]@ == "might"@);
    assert(list[38]@ == "must"@);
    assert(list[39]@ == "this"@);
    assert(list[40]@ == "that"@);
    assert(list[41]@ == "these"@);
    assert(list[42]@ == "those"@);
    assert(list[43]@ == "i"@);
    assert(list[44]@ == "you"@);
    assert(list[45]@ == "he"@);
    assert(list[46]@ == "she"@);
    assert(list[47]@ == "it"@);
    assert(list[48]@ == "we"@);
    assert(list[49]@ == "they"@);
    assert(list[50]@ == "them"@);
    assert(list[51]@ == "us"@);
    assert(list[52]@ == "him"@);
    assert(list[53]@ == "her"@);
    assert(list[54]@ == "his"@);
    assert(list[55]@ == "hers"@);
    assert(list[56]@ == "their"@);
    assert(list[57]@ == "our"@);
    assert(list[58]@ == "your"@);
    assert(list[59]@ == "my"@);
    assert(list[60]@ == "me"@);
    assert(list[61]@ == "as"@);
    assert(list[62]@ == "so"@);
    assert(list[63]@ == "than"@);
    assert(list[64]@ == "then"@);
    assert(list[65]@ == "too"@);
    assert(list[66]@ == "very"@);
    assert(list[67]@ == "yes"@);
    assert(list[68]@ == "no"@);
    assert(list[69]@ == "not"@);
}

proof fn lemma_capital(c: char)
    ensures
        chars::ascii_upper_letter(c) <==> 65 <= c as u32 <= 90,
{
}

/// A term looks like a name where it is one word of three letters or more, no
/// stopword, with a capital in it, wherever that stands.
pub proof fn law_names(term: Seq<char>, i: int)
    ensures
        term.len() >= 3 && 0 <= i < term.len() && 65 <= term[i] as u32 <= 90 && !term.contains(' ')
            && !diff::stopword(term) ==> diff::name_shaped(term),
        diff::name_shaped(term) ==> term.len() >= 3 && !term.contains(' ') && !diff::stopword(term)
            && exists|j: int| 0 <= j < term.len() && 65 <= #[trigger] term[j] as u32 <= 90,
{
    if 0 <= i < term.len() && 65 <= term[i] as u32 <= 90 {
        lemma_capital(term[i]);
        assert(chars::ascii_upper_letter(term[i]));
    }
    if diff::name_shaped(term) {
        let j = choose|j: int| 0 <= j < term.len() && chars::ascii_upper_letter(#[trigger] term[j]);
        lemma_capital(term[j]);
        assert(65 <= term[j] as u32 <= 90);
    }
}

/// Texts are the same but for ASCII case where each letter is.
pub proof fn law_same_but_for_case(a: Seq<char>, b: Seq<char>)
    ensures
        text::same_caseless(a, b) <==> a.len() == b.len() && forall|i: int|
            0 <= i < a.len() ==> #[trigger] a[i] == b[i] || (65 <= a[i] as u32 <= 90 && b[i] as u32
                == a[i] as u32 + 32) || (65 <= b[i] as u32 <= 90 && a[i] as u32 == b[i] as u32
                + 32),
{
    assert forall|i: int| 0 <= i < a.len() && a.len() == b.len() implies
        chars::same_ascii_caseless(#[trigger] a[i], b[i]) == (a[i] == b[i] || (65 <= a[i] as u32
        <= 90 && b[i] as u32 == a[i] as u32 + 32) || (65 <= b[i] as u32 <= 90 && a[i] as u32
        == b[i] as u32 + 32)) by {}
}

} // verus!
