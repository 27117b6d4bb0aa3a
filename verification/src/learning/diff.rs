//! Word-level differences between a transcript and the text that the user made
//! of it, as pairs of what was heard and what was meant.
//!
//! Words are compared without the punctuation around them, so that `report.`
//! and `report` are the same word.
use similar::TextDiff;
use vstd::prelude::*;
use crate::chars;
use crate::text;
use crate::text::Class;

verus! {

/// What was heard, what the user put in its place, and the words around it.
#[derive(Debug, Clone, PartialEq, Eq)]
pub struct CorrectionPair {
    pub wrong: String,
    pub right: String,
    pub context: String,
}

/// What a pair says.
#[verifier::ext_equal]
pub struct PairText {
    pub wrong: Seq<char>,
    pub right: Seq<char>,
    pub context: Seq<char>,
}

impl View for CorrectionPair {
    type V = PairText;

    open spec fn view(&self) -> PairText {
        PairText { wrong: self.wrong@, right: self.right@, context: self.context@ }
    }
}

/// What a list of pairs says.
pub open spec fn pair_texts(v: Seq<CorrectionPair>) -> Seq<PairText> {
    v.map_values(|p: CorrectionPair| p@)
}

/// Words too common to be names.
pub const STOPWORDS: [&'static str; 70] = [
    "the", "a", "an", "and", "or", "but", "if", "of", "at", "by", "for", "with", "about", "to",
    "from", "in", "on", "is", "are", "was", "were", "be", "been", "being", "have", "has", "had",
    "do", "does", "did", "will", "would", "shall", "should", "can", "could", "may", "might",
    "must", "this", "that", "these", "those", "i", "you", "he", "she", "it", "we", "they", "them",
    "us", "him", "her", "his", "hers", "their", "our", "your", "my", "me", "as", "so", "than",
    "then", "too", "very", "yes", "no", "not",
];

/// Whether a word is a stopword, in any case.
pub open spec fn stopword(word: Seq<char>) -> bool {
    exists|i: int| 0 <= i < STOPWORDS@.len() && text::same_caseless((#[trigger] STOPWORDS@[i])@, word)
}

/// Whether a term looks like a name: one word of three letters or more, no
/// stopword, with a capital in it.
pub open spec fn name_shaped(term: Seq<char>) -> bool {
    &&& term.len() >= 3
    &&& !term.contains(' ')
    &&& !stopword(term)
    &&& exists|i: int| 0 <= i < term.len() && chars::ascii_upper_letter(#[trigger] term[i])
}

/// The kind of a change.
#[derive(Debug, Clone, Copy, PartialEq, Eq, Structural)]
pub enum ChangeTag {
    Equal,
    Delete,
    Insert,
}

/// A word that stayed, went or came.
#[derive(Debug, Clone)]
pub struct Change {
    pub tag: ChangeTag,
    pub value: String,
}

pub open spec fn change_texts(v: Seq<Change>) -> Seq<(ChangeTag, Seq<char>)> {
    v.map_values(|c: Change| (c.tag, c.value@))
}

/// The words of one side of a list of changes: all but those with a tag.
pub open spec fn side(changes: Seq<(ChangeTag, Seq<char>)>, without: ChangeTag) -> Seq<Seq<char>>
    decreases changes.len(),
{
    if changes.len() == 0 {
        Seq::empty()
    } else if changes.last().0 == without {
        side(changes.drop_last(), without)
    } else {
        side(changes.drop_last(), without).push(changes.last().1)
    }
}

/// The words without the punctuation around them; words that are nothing else
/// go.
pub open spec fn tokens_of(words: Seq<Seq<char>>) -> Seq<Seq<char>>
    decreases words.len(),
{
    if words.len() == 0 {
        Seq::empty()
    } else {
        let w = text::trimmed(Class::AsciiPunctuation, words.last());
        text::flushed(tokens_of(words.drop_last()), w)
    }
}

/// The tokens of a text.
pub open spec fn tokens(s: Seq<char>) -> Seq<Seq<char>> {
    tokens_of(text::words(s))
}

/// The walk over the changes: the pairs so far, the words of the pair that is
/// open, the position in the final text, and the position at which the open
/// pair starts in it.
#[verifier::ext_equal]
pub struct Grouping {
    pub pairs: Seq<PairText>,
    pub wrong: Seq<Seq<char>>,
    pub right: Seq<Seq<char>>,
    pub at: int,
    pub anchor: int,
}

/// The words of the final text around a pair.
pub open spec fn context_of(
    final_tokens: Seq<Seq<char>>,
    anchor: int,
    count: int,
    context_words: int,
) -> Seq<char> {
    let lo = if anchor > context_words {
        anchor - context_words
    } else {
        0
    };
    let hi = if anchor + count + context_words < final_tokens.len() {
        anchor + count + context_words
    } else {
        final_tokens.len() as int
    };
    text::joined(final_tokens.subrange(lo, hi), seq![' '])
}

/// The grouping with its open pair closed. A pair that differs in nothing but
/// case, or in nothing at all, is dropped.
pub open spec fn closed_pair(
    g: Grouping,
    final_tokens: Seq<Seq<char>>,
    context_words: int,
) -> Grouping {
    let wrong = text::joined(g.wrong, seq![' ']);
    let right = text::joined(g.right, seq![' ']);
    let case_only = wrong.len() > 0 && right.len() > 0 && chars::lowercase(wrong)
        == chars::lowercase(right);
    Grouping {
        pairs: if case_only || (wrong.len() == 0 && right.len() == 0) {
            g.pairs
        } else {
            g.pairs.push(
                PairText {
                    wrong,
                    right,
                    context: context_of(
                        final_tokens,
                        g.anchor,
                        g.right.len() as int,
                        context_words,
                    ),
                },
            )
        },
        wrong: Seq::empty(),
        right: Seq::empty(),
        ..g
    }
}

/// The walk over the changes. Words that stayed separate the pairs.
pub open spec fn grouped(
    changes: Seq<(ChangeTag, Seq<char>)>,
    final_tokens: Seq<Seq<char>>,
    context_words: int,
) -> Grouping
    decreases changes.len(),
{
    if changes.len() == 0 {
        Grouping {
            pairs: Seq::empty(),
            wrong: Seq::empty(),
            right: Seq::empty(),
            at: 0,
            anchor: 0,
        }
    } else {
        let g = grouped(changes.drop_last(), final_tokens, context_words);
        let (tag, word) = changes.last();
        let anchor = if g.wrong.len() == 0 && g.right.len() == 0 {
            g.at
        } else {
            g.anchor
        };
        match tag {
            ChangeTag::Equal => Grouping {
                at: g.at + 1,
                anchor: g.at + 1,
                ..closed_pair(g, final_tokens, context_words)
            },
            ChangeTag::Delete => Grouping { wrong: g.wrong.push(word), anchor, ..g },
            ChangeTag::Insert => Grouping {
                right: g.right.push(word),
                at: g.at + 1,
                anchor,
                ..g
            },
        }
    }
}

/// The pairs that a list of changes makes.
pub open spec fn pairs_of(
    changes: Seq<(ChangeTag, Seq<char>)>,
    final_tokens: Seq<Seq<char>>,
    context_words: int,
) -> Seq<PairText> {
    closed_pair(
        grouped(changes, final_tokens, context_words),
        final_tokens,
        context_words,
    ).pairs
}

/// The changes by which one list of words becomes another.
pub uninterp spec fn word_diff(old: Seq<Seq<char>>, new: Seq<Seq<char>>) -> Seq<
    (ChangeTag, Seq<char>),
>;

/// `TextDiff::from_slices` and `iter_all_changes`: the changes between two
/// lists of words, named [`word_diff`]. Without what was inserted they spell
/// the old list, without what was deleted the new one. Distinct words are
/// numbered by a `u32`, hence the bound.
#[verifier::external_body]
fn diff_words(old: &Vec<String>, new: &Vec<String>) -> (r: Vec<Change>)
    requires
        old.len() + new.len() <= u32::MAX,
    ensures
        change_texts(r@) == word_diff(text::texts(old@), text::texts(new@)),
        side(change_texts(r@), ChangeTag::Insert) == text::texts(old@),
        side(change_texts(r@), ChangeTag::Delete) == text::texts(new@),
{
    let a: Vec<&str> = old.iter().map(|s| s.as_str()).collect();
    let b: Vec<&str> = new.iter().map(|s| s.as_str()).collect();
    let diff = TextDiff::from_slices(&a, &b);
    diff.iter_all_changes().map(|c| Change {
        tag: match c.tag() {
            similar::ChangeTag::Equal => ChangeTag::Equal,
            similar::ChangeTag::Delete => ChangeTag::Delete,
            similar::ChangeTag::Insert => ChangeTag::Insert,
        },
        value: c.value().to_string(),
    }).collect()
}

/// The pairs by which a transcript became the final text.
pub open spec fn diff_pairs(
    cleaned: Seq<char>,
    final_text: Seq<char>,
    context_words: int,
) -> Seq<PairText> {
    if tokens(cleaned) == tokens(final_text) {
        Seq::empty()
    } else {
        pairs_of(word_diff(tokens(cleaned), tokens(final_text)), tokens(final_text), context_words)
    }
}

pub fn is_stopword(word: &[char]) -> (r: bool)
    ensures
        r == stopword(word@),
{
    let list = STOPWORDS;
    let mut i: usize = 0;
    while i < list.len()
        invariant
            i <= list.len(),
            list == STOPWORDS,
            forall|j: int| 0 <= j < i ==> !text::same_caseless((#[trigger] STOPWORDS@[j])@, word@),
        decreases list.len() - i,
    {
        let w = text::to_chars(list[i]);
        assert(STOPWORDS@[i as int]@ == w@);
        if text::same_but_case(w.as_slice(), word) {
            return true;
        }
        i += 1;
    }
    false
}

impl CorrectionPair {
    /// Whether what the user wrote looks like a name, and so belongs in the
    /// vocabulary of the app.
    pub fn is_proper_noun_candidate(&self) -> (r: bool)
        ensures
            r == name_shaped(text::trimmed(Class::WhiteSpace, self.right@)),
    {
        let right = text::to_chars(self.right.as_str());
        let term = text::trim(Class::WhiteSpace, right.as_slice());
        if term.len() < 3 {
            return false;
        }
        let mut upper = false;
        let mut i: usize = 0;
        while i < term.len()
            invariant
                i <= term.len(),
                term@ == text::trimmed(Class::WhiteSpace, self.right@),
                forall|j: int| 0 <= j < i ==> term@[j] != ' ',
                upper == exists|j: int|
                    0 <= j < i && chars::ascii_upper_letter(#[trigger] term@[j]),
            decreases term.len() - i,
        {
            if term[i] == ' ' {
                assert(term@.contains(term@[i as int]));
                return false;
            }
            if 'A' <= term[i] && term[i] <= 'Z' {
                upper = true;
                assert(chars::ascii_upper_letter(term@[i as int]));
            }
            i += 1;
        }
        assert(!term@.contains(' '));
        upper && !is_stopword(term)
    }
}

fn tokenize(s: &str) -> (r: Vec<String>)
    ensures
        text::texts(r@) == tokens(s@),
{
    let cs = text::to_chars(s);
    let words = text::split_words(cs.as_slice());
    let ghost all = text::words(s@);
    let mut out: Vec<String> = Vec::new();
    let mut i: usize = 0;
    while i < words.len()
        invariant
            i <= words.len(),
            text::rows(words@) == all,
            text::texts(out@) == tokens_of(all.take(i as int)),
        decreases words.len() - i,
    {
        assert(all.take(i + 1).drop_last() == all.take(i as int));
        assert(all.take(i + 1).last() == words@[i as int]@);
        let w = text::trim(Class::AsciiPunctuation, words[i].as_slice());
        if w.len() > 0 {
            let ghost before = out@;
            let token = text::to_text(w);
            out.push(token);
            assert(text::texts(out@) == text::texts(before).push(token@));
        }
        i += 1;
    }
    assert(all.take(i as int) == all);
    out
}

fn same_tokens(a: &Vec<String>, b: &Vec<String>) -> (r: bool)
    ensures
        r == (text::texts(a@) == text::texts(b@)),
{
    let ghost x = text::texts(a@);
    let ghost y = text::texts(b@);
    if a.len() != b.len() {
        assert(x.len() != y.len());
        return false;
    }
    let mut i: usize = 0;
    while i < a.len()
        invariant
            i <= a.len(),
            a.len() == b.len(),
            x == text::texts(a@),
            y == text::texts(b@),
            forall|j: int| 0 <= j < i ==> x[j] == y[j],
        decreases a.len() - i,
    {
        if a[i] != b[i] {
            assert(x[i as int] != y[i as int]);
            return false;
        }
        i += 1;
    }
    assert(x =~= y);
    true
}

/// The word that a run of changes starts at, and the words put in since, lie
/// before the place that was reached.
pub proof fn lemma_grouped_bounds(
    changes: Seq<(ChangeTag, Seq<char>)>,
    final_tokens: Seq<Seq<char>>,
    context_words: int,
)
    ensures
        ({
            let g = grouped(changes, final_tokens, context_words);
            &&& g.at == side(changes, ChangeTag::Delete).len()
            &&& 0 <= g.anchor
            &&& g.anchor + g.right.len() <= g.at
        }),
    decreases changes.len(),
{
    if changes.len() > 0 {
        lemma_grouped_bounds(changes.drop_last(), final_tokens, context_words);
    }
}

fn join_words(words: &Vec<String>, lo: usize, hi: usize) -> (r: String)
    requires
        lo <= hi <= words.len(),
    ensures
        r@ == text::joined(text::texts(words@).subrange(lo as int, hi as int), seq![' ']),
{
    let ghost all = text::texts(words@).subrange(lo as int, hi as int);
    let mut parts: Vec<Vec<char>> = Vec::new();
    let mut i: usize = lo;
    while i < hi
        invariant
            lo <= i <= hi <= words.len(),
            all == text::texts(words@).subrange(lo as int, hi as int),
            text::rows(parts@) == all.take(i - lo),
        decreases hi - i,
    {
        let w = text::to_chars(words[i].as_str());
        let ghost before = parts@;
        parts.push(w);
        assert(text::rows(parts@) == text::rows(before).push(w@));
        assert(all[i - lo] == w@);
        i += 1;
    }
    assert(all.take(hi - lo) == all);
    let mut space: Vec<char> = Vec::new();
    space.push(' ');
    assert(space@ == seq![' ']);
    let joined = text::join(&parts, space.as_slice());
    text::to_text(joined.as_slice())
}

/// The walk while it is under way.
struct Grouper {
    pairs: Vec<CorrectionPair>,
    wrong: Vec<String>,
    right: Vec<String>,
    at: usize,
    anchor: usize,
}

impl View for Grouper {
    type V = Grouping;

    closed spec fn view(&self) -> Grouping {
        Grouping {
            pairs: pair_texts(self.pairs@),
            wrong: text::texts(self.wrong@),
            right: text::texts(self.right@),
            at: self.at as int,
            anchor: self.anchor as int,
        }
    }
}

fn flush(g: &mut Grouper, final_tokens: &Vec<String>, context_words: usize)
    requires
        old(g).anchor + old(g).right.len() <= old(g).at <= final_tokens.len(),
    ensures
        final(g)@ == closed_pair(old(g)@, text::texts(final_tokens@), context_words as int),
        final(g).at == old(g).at,
        final(g).anchor == old(g).anchor,
{
    let wrong = join_words(&g.wrong, 0, g.wrong.len());
    let right = join_words(&g.right, 0, g.right.len());
    assert(text::texts(g.wrong@).subrange(0, g.wrong@.len() as int) =~= text::texts(g.wrong@));
    assert(text::texts(g.right@).subrange(0, g.right@.len() as int) =~= text::texts(g.right@));
    let no_wrong = wrong.as_str().is_empty();
    let no_right = right.as_str().is_empty();
    let case_only = !no_wrong && !no_right && wrong.as_str().to_lowercase()
        == right.as_str().to_lowercase();
    if !case_only && !(no_wrong && no_right) {
        let lo: usize = if g.anchor > context_words {
            g.anchor - context_words
        } else {
            0
        };
        let end: usize = g.anchor + g.right.len();
        let hi: usize = if context_words < final_tokens.len() - end {
            end + context_words
        } else {
            final_tokens.len()
        };
        let context = join_words(final_tokens, lo, hi);
        let pair = CorrectionPair { wrong, right, context };
        let ghost before = g.pairs@;
        g.pairs.push(pair);
        assert(pair_texts(g.pairs@) == pair_texts(before).push(pair@));
    }
    g.wrong = Vec::new();
    g.right = Vec::new();
    assert(g@ =~= closed_pair(old(g)@, text::texts(final_tokens@), context_words as int));
}

/// Groups changes into pairs: each run of words that went or came, up to the
/// next word that stayed, is one pair. Each pair carries up to `context_words`
/// words of the final text on either side.
pub fn pairs_from_changes(
    changes: &Vec<Change>,
    final_tokens: &Vec<String>,
    context_words: usize,
) -> (r: Vec<CorrectionPair>)
    requires
        side(change_texts(changes@), ChangeTag::Delete).len() <= final_tokens.len(),
    ensures
        pair_texts(r@) == pairs_of(
            change_texts(changes@),
            text::texts(final_tokens@),
            context_words as int,
        ),
{
    let ghost all = change_texts(changes@);
    let ghost toks = text::texts(final_tokens@);
    let mut g = Grouper {
        pairs: Vec::new(),
        wrong: Vec::new(),
        right: Vec::new(),
        at: 0,
        anchor: 0,
    };
    assert(g@ =~= grouped(all.take(0), toks, context_words as int));
    let mut i: usize = 0;
    while i < changes.len()
        invariant
            i <= changes.len(),
            all == change_texts(changes@),
            toks == text::texts(final_tokens@),
            side(all, ChangeTag::Delete).len() <= final_tokens.len(),
            g@ == grouped(all.take(i as int), toks, context_words as int),
        decreases changes.len() - i,
    {
        let ghost head = all.take(i + 1);
        proof {
            assert(head.drop_last() == all.take(i as int));
            assert(head.last() == (changes@[i as int].tag, changes@[i as int].value@));
            lemma_grouped_bounds(all.take(i as int), toks, context_words as int);
            lemma_grouped_bounds(head, toks, context_words as int);
            lemma_side_grows(all, ChangeTag::Delete, i as int);
            lemma_side_grows(all, ChangeTag::Delete, i + 1);
        }
        let word = changes[i].value.clone();
        match changes[i].tag {
            ChangeTag::Equal => {
                flush(&mut g, final_tokens, context_words);
                g.at = g.at + 1;
                g.anchor = g.at;
            },
            ChangeTag::Delete => {
                if g.wrong.len() == 0 && g.right.len() == 0 {
                    g.anchor = g.at;
                }
                let ghost before = g.wrong@;
                g.wrong.push(word);
                assert(text::texts(g.wrong@) == text::texts(before).push(word@));
            },
            ChangeTag::Insert => {
                if g.wrong.len() == 0 && g.right.len() == 0 {
                    g.anchor = g.at;
                }
                let ghost before = g.right@;
                g.right.push(word);
                assert(text::texts(g.right@) == text::texts(before).push(word@));
                g.at = g.at + 1;
            },
        }
        assert(g@ =~= grouped(head, toks, context_words as int));
        i += 1;
    }
    assert(all.take(i as int) == all);
    proof {
        lemma_grouped_bounds(all, toks, context_words as int);
    }
    flush(&mut g, final_tokens, context_words);
    g.pairs
}

pub proof fn lemma_side_grows(changes: Seq<(ChangeTag, Seq<char>)>, without: ChangeTag, n: int)
    requires
        0 <= n <= changes.len(),
    ensures
        side(changes.take(n), without).len() <= side(changes, without).len(),
    decreases changes.len(),
{
    if n < changes.len() {
        lemma_side_grows(changes.drop_last(), without, n);
        assert(changes.drop_last().take(n) == changes.take(n));
    } else {
        assert(changes.take(n) == changes);
    }
}

/// The pairs by which the user made `final_text` of `cleaned`.
pub fn pairs_from_diff(cleaned: &str, final_text: &str, context_words: usize) -> (r: Vec<
    CorrectionPair,
>)
    requires
        tokens(cleaned@).len() + tokens(final_text@).len() <= u32::MAX,
    ensures
        pair_texts(r@) == diff_pairs(cleaned@, final_text@, context_words as int),
        forall|i: int|
            0 <= i < r.len() ==> telling((#[trigger] r[i])@) && grounded(
                r[i]@,
                tokens(cleaned@),
                tokens(final_text@),
                context_words as int,
            ),
        tokens(cleaned@) != tokens(final_text@) ==> side(
            word_diff(tokens(cleaned@), tokens(final_text@)),
            ChangeTag::Insert,
        ) == tokens(cleaned@),
        tokens(cleaned@) != tokens(final_text@) ==> side(
            word_diff(tokens(cleaned@), tokens(final_text@)),
            ChangeTag::Delete,
        ) == tokens(final_text@),
        account_for(pair_texts(r@), tokens(cleaned@), tokens(final_text@)),
{
    let old_tokens = tokenize(cleaned);
    let new_tokens = tokenize(final_text);
    assert(text::texts(old_tokens@).len() == old_tokens.len());
    assert(text::texts(new_tokens@).len() == new_tokens.len());
    if same_tokens(&old_tokens, &new_tokens) {
        let none: Vec<CorrectionPair> = Vec::new();
        assert(pair_texts(none@) =~= Seq::empty());
        proof {
            lemma_nothing_to_account_for(tokens(cleaned@));
        }
        return none;
    }
    let changes = diff_words(&old_tokens, &new_tokens);
    let pairs = pairs_from_changes(&changes, &new_tokens, context_words);
    proof {
        let all = change_texts(changes@);
        lemma_tokens_nonempty(text::words(cleaned@));
        lemma_tokens_nonempty(text::words(final_text@));
        lemma_side_words(all);
        law_pairs_account_for_the_texts(
            all,
            tokens(cleaned@),
            tokens(final_text@),
            context_words as int,
        );
        law_every_pair_tells(all, tokens(final_text@), context_words as int);
        law_pairs_are_grounded(
            all,
            tokens(cleaned@),
            tokens(final_text@),
            context_words as int,
        );
        assert forall|i: int| 0 <= i < pairs.len() implies telling((#[trigger] pairs[i])@)
            && grounded(
            pairs[i]@,
            tokens(cleaned@),
            tokens(final_text@),
            context_words as int,
        ) by {
            assert(pair_texts(pairs@)[i] == pairs[i]@);
        }
    }
    pairs
}

/// Texts whose words are the same make no pair.
pub proof fn law_same_words_no_pairs(cleaned: Seq<char>, final_text: Seq<char>, context_words: int)
    requires
        tokens(cleaned) == tokens(final_text),
    ensures
        diff_pairs(cleaned, final_text, context_words).len() == 0,
{
}

/// Whether a pair says something: that words went, that words came, or that
/// words became others that differ in more than case.
pub open spec fn telling(p: PairText) -> bool {
    &&& p.wrong.len() > 0 || p.right.len() > 0
    &&& p.wrong.len() > 0 && p.right.len() > 0 ==> chars::lowercase(p.wrong) != chars::lowercase(
        p.right,
    )
}

/// No pair is empty, and none differs in nothing but case.
pub proof fn law_every_pair_tells(
    changes: Seq<(ChangeTag, Seq<char>)>,
    final_tokens: Seq<Seq<char>>,
    context_words: int,
)
    ensures
        forall|i: int|
            0 <= i < pairs_of(changes, final_tokens, context_words).len() ==> telling(
                #[trigger] pairs_of(changes, final_tokens, context_words)[i],
            ),
{
    lemma_grouped_tells(changes, final_tokens, context_words);
    lemma_closed_tells(grouped(changes, final_tokens, context_words), final_tokens, context_words);
}

spec fn all_telling(ps: Seq<PairText>) -> bool {
    forall|i: int| 0 <= i < ps.len() ==> telling(#[trigger] ps[i])
}

proof fn lemma_closed_tells(g: Grouping, final_tokens: Seq<Seq<char>>, context_words: int)
    requires
        all_telling(g.pairs),
    ensures
        all_telling(closed_pair(g, final_tokens, context_words).pairs),
{
}

proof fn lemma_grouped_tells(
    changes: Seq<(ChangeTag, Seq<char>)>,
    final_tokens: Seq<Seq<char>>,
    context_words: int,
)
    ensures
        all_telling(grouped(changes, final_tokens, context_words).pairs),
    decreases changes.len(),
{
    if changes.len() > 0 {
        lemma_grouped_tells(changes.drop_last(), final_tokens, context_words);
        lemma_closed_tells(
            grouped(changes.drop_last(), final_tokens, context_words),
            final_tokens,
            context_words,
        );
    }
}

/// Whether a pair is made of `m` neighbouring words of the old text from `b`
/// on, and `k` neighbouring words of the new text from `a` on, with the words
/// around those as its context.
pub open spec fn made_of(
    p: PairText,
    old: Seq<Seq<char>>,
    new: Seq<Seq<char>>,
    context_words: int,
    b: int,
    m: int,
    a: int,
    k: int,
) -> bool {
    &&& 0 <= b && 0 <= m && b + m <= old.len()
    &&& 0 <= a && 0 <= k && a + k <= new.len()
    &&& p.wrong == text::joined(old.subrange(b, b + m), seq![' '])
    &&& p.right == text::joined(new.subrange(a, a + k), seq![' '])
    &&& p.context == context_of(new, a, k, context_words)
}

/// Whether a pair is made of neighbouring words of the two texts.
pub open spec fn grounded(
    p: PairText,
    old: Seq<Seq<char>>,
    new: Seq<Seq<char>>,
    context_words: int,
) -> bool {
    exists|b: int, m: int, a: int, k: int| made_of(p, old, new, context_words, b, m, a, k)
}

spec fn all_grounded(
    ps: Seq<PairText>,
    old: Seq<Seq<char>>,
    new: Seq<Seq<char>>,
    context_words: int,
) -> bool {
    forall|i: int| 0 <= i < ps.len() ==> grounded(#[trigger] ps[i], old, new, context_words)
}

spec fn open_pair_grounded(
    g: Grouping,
    old: Seq<Seq<char>>,
    new: Seq<Seq<char>>,
    old_at: int,
) -> bool {
    &&& 0 <= g.anchor && 0 <= old_at - g.wrong.len() && old_at <= old.len()
    &&& g.anchor + g.right.len() <= new.len()
    &&& g.wrong == old.subrange(old_at - g.wrong.len(), old_at)
    &&& g.right == new.subrange(g.anchor, g.anchor + g.right.len())
    &&& g.wrong.len() > 0 || g.right.len() > 0 ==> g.anchor + g.right.len() == g.at
}

proof fn lemma_closed_grounded(
    g: Grouping,
    old: Seq<Seq<char>>,
    new: Seq<Seq<char>>,
    context_words: int,
    old_at: int,
)
    requires
        all_grounded(g.pairs, old, new, context_words),
        open_pair_grounded(g, old, new, old_at),
    ensures
        all_grounded(closed_pair(g, new, context_words).pairs, old, new, context_words),
{
    let c = closed_pair(g, new, context_words);
    if c.pairs.len() > g.pairs.len() {
        let p = c.pairs.last();
        assert(made_of(
            p,
            old,
            new,
            context_words,
            old_at - g.wrong.len(),
            g.wrong.len() as int,
            g.anchor,
            g.right.len() as int,
        ));
        assert forall|i: int| 0 <= i < c.pairs.len() implies grounded(
            #[trigger] c.pairs[i],
            old,
            new,
            context_words,
        ) by {
            if i < g.pairs.len() {
                assert(c.pairs[i] == g.pairs[i]);
            }
        }
    }
}

proof fn lemma_grouped_grounded(
    changes: Seq<(ChangeTag, Seq<char>)>,
    old: Seq<Seq<char>>,
    new: Seq<Seq<char>>,
    context_words: int,
)
    requires
        side(changes, ChangeTag::Insert).is_prefix_of(old),
        side(changes, ChangeTag::Delete).is_prefix_of(new),
    ensures
        all_grounded(grouped(changes, new, context_words).pairs, old, new, context_words),
        open_pair_grounded(
            grouped(changes, new, context_words),
            old,
            new,
            side(changes, ChangeTag::Insert).len() as int,
        ),
    decreases changes.len(),
{
    let olds = side(changes, ChangeTag::Insert);
    let news = side(changes, ChangeTag::Delete);
    if changes.len() == 0 {
        assert(old.subrange(0, 0) =~= Seq::empty());
        assert(new.subrange(0, 0) =~= Seq::empty());
    } else {
        let before = changes.drop_last();
        let (tag, word) = changes.last();
        let o = side(before, ChangeTag::Insert);
        let n = side(before, ChangeTag::Delete);
        assert(o.is_prefix_of(olds));
        assert(n.is_prefix_of(news));
        lemma_grouped_grounded(before, old, new, context_words);
        lemma_grouped_bounds(before, new, context_words);
        let g = grouped(before, new, context_words);
        let h = grouped(changes, new, context_words);
        match tag {
            ChangeTag::Equal => {
                lemma_closed_grounded(g, old, new, context_words, o.len() as int);
                assert(old.subrange(olds.len() as int, olds.len() as int) =~= Seq::empty());
                assert(new.subrange(h.anchor, h.anchor) =~= Seq::empty());
            },
            ChangeTag::Delete => {
                assert(olds[olds.len() - 1] == word);
                assert(old[o.len() as int] == word);
                assert(h.wrong =~= old.subrange(olds.len() - h.wrong.len(), olds.len() as int));
                assert(h.right =~= new.subrange(h.anchor, h.anchor + h.right.len()));
            },
            ChangeTag::Insert => {
                assert(news[news.len() - 1] == word);
                assert(new[n.len() as int] == word);
                assert(h.right =~= new.subrange(h.anchor, h.anchor + h.right.len()));
                assert(h.wrong =~= old.subrange(olds.len() - h.wrong.len(), olds.len() as int));
            },
        }
    }
}

/// Each pair sets neighbouring words of the old text against neighbouring
/// words of the new one, and its context is the new text around the latter.
pub proof fn law_pairs_are_grounded(
    changes: Seq<(ChangeTag, Seq<char>)>,
    old: Seq<Seq<char>>,
    new: Seq<Seq<char>>,
    context_words: int,
)
    requires
        side(changes, ChangeTag::Insert) == old,
        side(changes, ChangeTag::Delete) == new,
    ensures
        forall|i: int|
            0 <= i < pairs_of(changes, new, context_words).len() ==> grounded(
                #[trigger] pairs_of(changes, new, context_words)[i],
                old,
                new,
                context_words,
            ),
{
    lemma_grouped_grounded(changes, old, new, context_words);
    lemma_closed_grounded(
        grouped(changes, new, context_words),
        old,
        new,
        context_words,
        old.len() as int,
    );
}

/// A stretch at which two texts part: the words that went, those that came in
/// their place, and the words behind it that both texts share.
#[verifier::ext_equal]
pub struct Stretch {
    pub wrong: Seq<Seq<char>>,
    pub right: Seq<Seq<char>>,
    pub shared: Seq<Seq<char>>,
}

/// Two texts side by side: the words that both start with, and the stretches
/// at which they part.
#[verifier::ext_equal]
pub struct Split {
    pub head: Seq<Seq<char>>,
    pub stretches: Seq<Stretch>,
}

/// The old text of a split: what is shared, and what went.
pub open spec fn old_words(head: Seq<Seq<char>>, stretches: Seq<Stretch>) -> Seq<Seq<char>>
    decreases stretches.len(),
{
    if stretches.len() == 0 {
        head
    } else {
        old_words(head, stretches.drop_last()) + stretches.last().wrong + stretches.last().shared
    }
}

/// The new text of a split: what is shared, and what came.
pub open spec fn new_words(head: Seq<Seq<char>>, stretches: Seq<Stretch>) -> Seq<Seq<char>>
    decreases stretches.len(),
{
    if stretches.len() == 0 {
        head
    } else {
        new_words(head, stretches.drop_last()) + stretches.last().right + stretches.last().shared
    }
}

/// Whether at a stretch words became others that differ in nothing but case.
pub open spec fn case_only(s: Stretch) -> bool {
    &&& s.wrong.len() > 0
    &&& s.right.len() > 0
    &&& chars::lowercase(text::joined(s.wrong, seq![' '])) == chars::lowercase(
        text::joined(s.right, seq![' ']),
    )
}

/// The two sides of each stretch, those that differ in nothing but case aside.
pub open spec fn sides_of(stretches: Seq<Stretch>) -> Seq<(Seq<char>, Seq<char>)>
    decreases stretches.len(),
{
    if stretches.len() == 0 {
        Seq::empty()
    } else {
        let before = sides_of(stretches.drop_last());
        let s = stretches.last();
        if case_only(s) {
            before
        } else {
            before.push((text::joined(s.wrong, seq![' ']), text::joined(s.right, seq![' '])))
        }
    }
}

/// Whether stretches are such that none is empty, and words stand between each
/// two.
pub open spec fn apart(stretches: Seq<Stretch>) -> bool {
    &&& forall|i: int|
        0 <= i < stretches.len() ==> (#[trigger] stretches[i]).wrong.len() > 0
            || stretches[i].right.len() > 0
    &&& forall|i: int|
        0 <= i < stretches.len() - 1 ==> (#[trigger] stretches[i]).shared.len() > 0
}

/// The two sides of each pair.
pub open spec fn pair_sides(ps: Seq<PairText>) -> Seq<(Seq<char>, Seq<char>)> {
    ps.map_values(|p: PairText| (p.wrong, p.right))
}

/// Whether pairs are what a split of two texts comes to.
pub open spec fn split_by(
    sp: Split,
    ps: Seq<PairText>,
    old: Seq<Seq<char>>,
    new: Seq<Seq<char>>,
) -> bool {
    &&& apart(sp.stretches)
    &&& old_words(sp.head, sp.stretches) == old
    &&& new_words(sp.head, sp.stretches) == new
    &&& sides_of(sp.stretches) == pair_sides(ps)
}

/// Whether pairs account for the whole difference of two texts: the texts can
/// be split into words that they share and stretches at which they part, and
/// the pairs are those stretches in order, but for those that differ in nothing
/// but case.
pub open spec fn account_for(
    ps: Seq<PairText>,
    old: Seq<Seq<char>>,
    new: Seq<Seq<char>>,
) -> bool {
    exists|sp: Split| split_by(sp, ps, old, new)
}

/// The split that a list of changes makes.
pub open spec fn split_of(changes: Seq<(ChangeTag, Seq<char>)>) -> Split
    decreases changes.len(),
{
    if changes.len() == 0 {
        Split { head: Seq::empty(), stretches: Seq::empty() }
    } else {
        let sp = split_of(changes.drop_last());
        let (tag, word) = changes.last();
        let n = sp.stretches.len();
        let ended = n == 0 || sp.stretches.last().shared.len() > 0;
        let open = if ended {
            Stretch { wrong: Seq::empty(), right: Seq::empty(), shared: Seq::empty() }
        } else {
            sp.stretches.last()
        };
        let others = if ended {
            sp.stretches
        } else {
            sp.stretches.drop_last()
        };
        match tag {
            ChangeTag::Equal => if n == 0 {
                Split { head: sp.head.push(word), ..sp }
            } else {
                let last = sp.stretches.last();
                Split {
                    stretches: sp.stretches.drop_last().push(
                        Stretch { shared: last.shared.push(word), ..last },
                    ),
                    ..sp
                }
            },
            ChangeTag::Delete => Split {
                stretches: others.push(Stretch { wrong: open.wrong.push(word), ..open }),
                ..sp
            },
            ChangeTag::Insert => Split {
                stretches: others.push(Stretch { right: open.right.push(word), ..open }),
                ..sp
            },
        }
    }
}

proof fn lemma_nothing_to_account_for(words: Seq<Seq<char>>)
    ensures
        account_for(Seq::empty(), words, words),
{
    let sp = Split { head: words, stretches: Seq::empty() };
    assert(pair_sides(Seq::empty()) =~= Seq::empty());
    assert(split_by(sp, Seq::empty(), words, words));
}

proof fn lemma_joined_nonempty(ws: Seq<Seq<char>>)
    requires
        ws.len() > 0,
        ws.last().len() > 0,
    ensures
        text::joined(ws, seq![' ']).len() > 0,
{
}

proof fn lemma_tokens_nonempty(words: Seq<Seq<char>>)
    ensures
        forall|i: int| 0 <= i < tokens_of(words).len() ==> (#[trigger] tokens_of(words)[i]).len() > 0,
    decreases words.len(),
{
    if words.len() > 0 {
        let before = tokens_of(words.drop_last());
        let now = tokens_of(words);
        lemma_tokens_nonempty(words.drop_last());
        assert forall|i: int| 0 <= i < now.len() implies (#[trigger] now[i]).len() > 0 by {
            if i < before.len() {
                assert(now[i] == before[i]);
            }
        }
    }
}

/// Where no word of either side is empty, none of the changes is.
proof fn lemma_side_words(changes: Seq<(ChangeTag, Seq<char>)>)
    requires
        forall|i: int|
            0 <= i < side(changes, ChangeTag::Insert).len() ==> (#[trigger] side(
                changes,
                ChangeTag::Insert,
            )[i]).len() > 0,
        forall|i: int|
            0 <= i < side(changes, ChangeTag::Delete).len() ==> (#[trigger] side(
                changes,
                ChangeTag::Delete,
            )[i]).len() > 0,
    ensures
        forall|i: int| 0 <= i < changes.len() ==> (#[trigger] changes[i]).1.len() > 0,
    decreases changes.len(),
{
    if changes.len() > 0 {
        let d = changes.drop_last();
        let a = side(changes, ChangeTag::Insert);
        let b = side(changes, ChangeTag::Delete);
        assert forall|i: int| 0 <= i < side(d, ChangeTag::Insert).len() implies (#[trigger] side(
            d,
            ChangeTag::Insert,
        )[i]).len() > 0 by {
            assert(a[i] == side(d, ChangeTag::Insert)[i]);
        }
        assert forall|i: int| 0 <= i < side(d, ChangeTag::Delete).len() implies (#[trigger] side(
            d,
            ChangeTag::Delete,
        )[i]).len() > 0 by {
            assert(b[i] == side(d, ChangeTag::Delete)[i]);
        }
        lemma_side_words(d);
        let (tag, word) = changes.last();
        if tag == ChangeTag::Insert {
            assert(b[b.len() - 1] == word);
        } else {
            assert(a[a.len() - 1] == word);
        }
        assert forall|i: int| 0 <= i < changes.len() implies (#[trigger] changes[i]).1.len() > 0 by {
            if i < d.len() {
                assert(changes[i] == d[i]);
            }
        }
    }
}

/// A split with its last stretch exchanged.
proof fn lemma_exchanged(head: Seq<Seq<char>>, others: Seq<Stretch>, s: Stretch)
    ensures
        old_words(head, others.push(s)) == old_words(head, others) + s.wrong + s.shared,
        new_words(head, others.push(s)) == new_words(head, others) + s.right + s.shared,
        sides_of(others.push(s)) == (if case_only(s) {
            sides_of(others)
        } else {
            sides_of(others).push(
                (text::joined(s.wrong, seq![' ']), text::joined(s.right, seq![' '])),
            )
        }),
{
    assert(others.push(s).drop_last() =~= others);
}

/// The walk over the changes and the split that they make keep step.
spec fn in_step(g: Grouping, sp: Split) -> bool {
    let n = sp.stretches.len();
    if n == 0 || sp.stretches.last().shared.len() > 0 {
        &&& g.wrong.len() == 0
        &&& g.right.len() == 0
        &&& pair_sides(g.pairs) == sides_of(sp.stretches)
    } else {
        &&& g.wrong == sp.stretches.last().wrong
        &&& g.right == sp.stretches.last().right
        &&& pair_sides(g.pairs) == sides_of(sp.stretches.drop_last())
    }
}

/// Closing the open pair of a walk that keeps step with a split gives the
/// sides of all its stretches.
proof fn lemma_closed_in_step(g: Grouping, sp: Split, final_tokens: Seq<Seq<char>>, cw: int)
    requires
        in_step(g, sp),
        apart(sp.stretches),
        g.wrong.len() > 0 ==> g.wrong.last().len() > 0,
        g.right.len() > 0 ==> g.right.last().len() > 0,
    ensures
        pair_sides(closed_pair(g, final_tokens, cw).pairs) == sides_of(sp.stretches),
{
    let c = closed_pair(g, final_tokens, cw);
    if g.wrong.len() > 0 {
        lemma_joined_nonempty(g.wrong);
    }
    if g.right.len() > 0 {
        lemma_joined_nonempty(g.right);
    }
    if sp.stretches.len() > 0 {
        let s = sp.stretches[sp.stretches.len() - 1];
        if s.shared.len() == 0 && !case_only(s) {
            assert(pair_sides(c.pairs) =~= pair_sides(g.pairs).push(
                (text::joined(s.wrong, seq![' ']), text::joined(s.right, seq![' '])),
            ));
        }
    }
}

proof fn lemma_split_of(changes: Seq<(ChangeTag, Seq<char>)>, final_tokens: Seq<Seq<char>>, cw: int)
    requires
        forall|i: int| 0 <= i < changes.len() ==> (#[trigger] changes[i]).1.len() > 0,
    ensures
        ({
            let sp = split_of(changes);
            let g = grouped(changes, final_tokens, cw);
            &&& apart(sp.stretches)
            &&& old_words(sp.head, sp.stretches) == side(changes, ChangeTag::Insert)
            &&& new_words(sp.head, sp.stretches) == side(changes, ChangeTag::Delete)
            &&& in_step(g, sp)
            &&& g.wrong.len() > 0 ==> g.wrong.last().len() > 0
            &&& g.right.len() > 0 ==> g.right.last().len() > 0
        }),
    decreases changes.len(),
{
    let sp = split_of(changes);
    let g = grouped(changes, final_tokens, cw);
    if changes.len() == 0 {
        assert(pair_sides(g.pairs) =~= sides_of(sp.stretches));
    } else {
        let d = changes.drop_last();
        assert forall|i: int| 0 <= i < d.len() implies (#[trigger] d[i]).1.len() > 0 by {
            assert(changes[i].1.len() > 0);
        }
        lemma_split_of(d, final_tokens, cw);
        let sp0 = split_of(d);
        let g0 = grouped(d, final_tokens, cw);
        let (tag, word) = changes.last();
        assert(changes[changes.len() - 1].1.len() > 0);
        let olds = side(d, ChangeTag::Insert);
        let news = side(d, ChangeTag::Delete);
        let n = sp0.stretches.len() as int;
        let ended = n == 0 || sp0.stretches.last().shared.len() > 0;
        let none = Seq::<Seq<char>>::empty();
        match tag {
            ChangeTag::Equal => {
                lemma_closed_in_step(g0, sp0, final_tokens, cw);
                if n > 0 {
                    let last = sp0.stretches.last();
                    let rest = sp0.stretches.drop_last();
                    let now = Stretch { shared: last.shared.push(word), ..last };
                    assert(rest.push(last) =~= sp0.stretches);
                    lemma_exchanged(sp0.head, rest, last);
                    lemma_exchanged(sp0.head, rest, now);
                    assert(case_only(now) == case_only(last));
                    let a = old_words(sp0.head, rest) + last.wrong;
                    let b = new_words(sp0.head, rest) + last.right;
                    assert(a + last.shared.push(word) =~= (a + last.shared).push(word));
                    assert(b + last.shared.push(word) =~= (b + last.shared).push(word));
                    lemma_apart_pushed(rest, last, now);
                }
            },
            _ => {
                let others = if ended {
                    sp0.stretches
                } else {
                    sp0.stretches.drop_last()
                };
                let open = if ended {
                    Stretch { wrong: none, right: none, shared: none }
                } else {
                    sp0.stretches.last()
                };
                let now = if tag == ChangeTag::Delete {
                    Stretch { wrong: open.wrong.push(word), ..open }
                } else {
                    Stretch { right: open.right.push(word), ..open }
                };
                assert(sp.stretches == others.push(now));
                lemma_exchanged(sp0.head, others, now);
                let a = old_words(sp0.head, others);
                let b = new_words(sp0.head, others);
                if ended {
                    assert(a == olds && b == news);
                    assert(a + none =~= a);
                    assert(b + none =~= b);
                    lemma_apart_added(others, now);
                } else {
                    assert(others.push(open) =~= sp0.stretches);
                    lemma_exchanged(sp0.head, others, open);
                    assert(open.shared =~= none);
                    assert(a + open.wrong + none =~= a + open.wrong);
                    assert(b + open.right + none =~= b + open.right);
                    lemma_apart_pushed(others, open, now);
                }
                assert(open.shared =~= none);
                if tag == ChangeTag::Delete {
                    assert(a + open.wrong.push(word) + none =~= (a + open.wrong).push(word));
                    assert(b + open.right + none =~= b + open.right);
                } else {
                    assert(b + open.right.push(word) + none =~= (b + open.right).push(word));
                    assert(a + open.wrong + none =~= a + open.wrong);
                }
                assert(sp.stretches.drop_last() =~= others);
                assert(g0.wrong =~= open.wrong);
                assert(g0.right =~= open.right);
            },
        }
    }
}

/// Stretches that are apart stay so when the last one grows.
proof fn lemma_apart_pushed(others: Seq<Stretch>, last: Stretch, now: Stretch)
    requires
        apart(others.push(last)),
        now.wrong.len() > 0 || now.right.len() > 0,
    ensures
        apart(others.push(now)),
{
    let a = others.push(last);
    let b = others.push(now);
    assert forall|i: int| 0 <= i < b.len() implies (#[trigger] b[i]).wrong.len() > 0
        || b[i].right.len() > 0 by {
        if i < others.len() {
            assert(b[i] == a[i]);
        }
    }
    assert forall|i: int| 0 <= i < b.len() - 1 implies (#[trigger] b[i]).shared.len() > 0 by {
        assert(b[i] == a[i]);
    }
}

/// Stretches that are apart, the last of which has ended, stay so when one
/// comes behind them.
proof fn lemma_apart_added(others: Seq<Stretch>, now: Stretch)
    requires
        apart(others),
        others.len() > 0 ==> others.last().shared.len() > 0,
        now.wrong.len() > 0 || now.right.len() > 0,
    ensures
        apart(others.push(now)),
{
    let b = others.push(now);
    assert forall|i: int| 0 <= i < b.len() implies (#[trigger] b[i]).wrong.len() > 0
        || b[i].right.len() > 0 by {
        if i < others.len() {
            assert(b[i] == others[i]);
        }
    }
    assert forall|i: int| 0 <= i < b.len() - 1 implies (#[trigger] b[i]).shared.len() > 0 by {
        assert(b[i] == others[i]);
    }
}

/// The pairs of a list of changes leave nothing out: the two texts are words
/// that they share and, between those, the stretches that the pairs tell of,
/// in order; only stretches that differ in nothing but case have no pair.
pub proof fn law_pairs_account_for_the_texts(
    changes: Seq<(ChangeTag, Seq<char>)>,
    old: Seq<Seq<char>>,
    new: Seq<Seq<char>>,
    context_words: int,
)
    requires
        side(changes, ChangeTag::Insert) == old,
        side(changes, ChangeTag::Delete) == new,
        forall|i: int| 0 <= i < changes.len() ==> (#[trigger] changes[i]).1.len() > 0,
    ensures
        account_for(pairs_of(changes, new, context_words), old, new),
{
    let sp = split_of(changes);
    lemma_split_of(changes, new, context_words);
    lemma_closed_in_step(grouped(changes, new, context_words), sp, new, context_words);
    assert(split_by(sp, pairs_of(changes, new, context_words), old, new));
}

} // verus!
