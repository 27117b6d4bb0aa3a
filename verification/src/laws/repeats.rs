//! Words that are said twice in a row.
use vstd::prelude::*;
use crate::chars;
use crate::cleanup::scrub;
use crate::cleanup::scrub::Chunk;

verus! {

/// Whether a text is of ASCII white space.
pub open spec fn all_spaces(s: Seq<char>) -> bool {
    forall|i: int| 0 <= i < s.len() ==> chars::ascii_space(#[trigger] s[i])
}

/// Whether a text holds no ASCII white space.
pub open spec fn no_spaces(s: Seq<char>) -> bool {
    forall|i: int| 0 <= i < s.len() ==> !chars::ascii_space(#[trigger] s[i])
}

/// The white space between words: space, tab, line feed, form feed and
/// carriage return.
pub proof fn law_spaces(c: char)
    ensures
        chars::ascii_space(c) <==> c as u32 == 32 || c as u32 == 9 || c as u32 == 10 || c as u32
            == 12 || c as u32 == 13,
{
}

proof fn lemma_one_chunk(s: Seq<char>, blank: bool)
    requires
        s.len() > 0,
        forall|i: int| 0 <= i < s.len() ==> chars::ascii_space(#[trigger] s[i]) == blank,
    ensures
        scrub::chunks(s) == seq![Chunk { blank, text: s }],
    decreases s.len(),
{
    let d = s.drop_last();
    assert(chars::ascii_space(s[s.len() - 1]) == blank);
    if d.len() == 0 {
        assert(scrub::chunks(d) =~= Seq::empty());
        assert(seq![s.last()] =~= s);
        assert(scrub::chunks(s) =~= seq![Chunk { blank, text: s }]);
    } else {
        assert forall|i: int| 0 <= i < d.len() implies chars::ascii_space(#[trigger] d[i])
            == blank by {
            assert(chars::ascii_space(s[i]) == blank);
        }
        lemma_one_chunk(d, blank);
        assert(d.push(s.last()) =~= s);
        assert(scrub::chunks(s) =~= seq![Chunk { blank, text: s }]);
    }
}

proof fn lemma_last_chunk(s: Seq<char>)
    requires
        s.len() > 0,
    ensures
        scrub::chunks(s).len() > 0,
        scrub::chunks(s).last().blank == chars::ascii_space(s.last()),
{
}

proof fn lemma_chunks_of_both(a: Seq<char>, b: Seq<char>)
    requires
        a.len() > 0 && b.len() > 0 ==> chars::ascii_space(a.last()) != chars::ascii_space(b[0]),
    ensures
        scrub::chunks(a + b) == scrub::chunks(a) + scrub::chunks(b),
    decreases b.len(),
{
    let s = a + b;
    if b.len() == 0 {
        assert(s =~= a);
        assert(scrub::chunks(a) + scrub::chunks(b) =~= scrub::chunks(a));
    } else if a.len() == 0 {
        assert(s =~= b);
        assert(scrub::chunks(a) + scrub::chunks(b) =~= scrub::chunks(b));
    } else {
        let d = b.drop_last();
        assert(s.drop_last() =~= a + d);
        lemma_chunks_of_both(a, d);
        lemma_last_chunk(a);
        if d.len() > 0 {
            lemma_last_chunk(d);
        } else {
            assert(scrub::chunks(d) =~= Seq::empty());
        }
        assert(scrub::chunks(s) =~= scrub::chunks(a) + scrub::chunks(b));
    }
}

proof fn lemma_walk_on(x: Seq<Chunk>, y: Seq<Chunk>, z: Seq<Chunk>)
    requires
        scrub::walk_of(x) == scrub::walk_of(y),
    ensures
        scrub::walk_of(x + z) == scrub::walk_of(y + z),
    decreases z.len(),
{
    if z.len() == 0 {
        assert(x + z =~= x);
        assert(y + z =~= y);
    } else {
        lemma_walk_on(x, y, z.drop_last());
        assert((x + z).drop_last() =~= x + z.drop_last());
        assert((y + z).drop_last() =~= y + z.drop_last());
        scrub::lemma_walk_of(x + z);
        scrub::lemma_walk_of(y + z);
    }
}

/// A word that repeats the one before it goes, with the white space between
/// them, and nothing else does: the text comes out as it would without them.
pub proof fn law_repeated_word_goes(
    before: Seq<char>,
    word: Seq<char>,
    gap: Seq<char>,
    again: Seq<char>,
    after: Seq<char>,
)
    requires
        before.len() > 0 ==> chars::ascii_space(before.last()),
        word.len() > 0 && no_spaces(word),
        gap.len() > 0 && all_spaces(gap),
        again.len() > 0 && no_spaces(again),
        chars::lowercase(word) == chars::lowercase(again),
        after.len() > 0 ==> chars::ascii_space(after[0]),
    ensures
        scrub::collapsed(before + word + gap + again + after) == scrub::collapsed(
            before + word + after,
        ),
{
    let w = Chunk { blank: false, text: word };
    let g = Chunk { blank: true, text: gap };
    let v = Chunk { blank: false, text: again };
    let c = scrub::chunks(before);
    let rest = scrub::chunks(after);
    assert(!chars::ascii_space(word[0]) && !chars::ascii_space(word[word.len() - 1]));
    assert(chars::ascii_space(gap[0]) && chars::ascii_space(gap[gap.len() - 1]));
    assert(!chars::ascii_space(again[0]) && !chars::ascii_space(again[again.len() - 1]));
    lemma_one_chunk(word, false);
    lemma_one_chunk(gap, true);
    lemma_one_chunk(again, false);
    lemma_chunks_of_both(before, word);
    lemma_chunks_of_both(before + word, gap);
    lemma_chunks_of_both(before + word + gap, again);
    lemma_chunks_of_both(before + word + gap + again, after);
    lemma_chunks_of_both(before + word, after);
    let x = c + seq![w];
    let y = x + seq![g];
    let z = y + seq![v];
    scrub::lemma_walk_of(x);
    scrub::lemma_walk_of(y);
    scrub::lemma_walk_of(z);
    assert(y.drop_last() =~= x);
    assert(z.drop_last() =~= y);
    assert(scrub::walk_of(z) =~= scrub::walk_of(x));
    lemma_walk_on(z, x, rest);
}

/// A text of one word, or of none, stays.
pub proof fn law_one_word_stays(head: Seq<char>, word: Seq<char>, tail: Seq<char>)
    requires
        all_spaces(head),
        no_spaces(word),
        all_spaces(tail),
        word.len() == 0 ==> tail.len() == 0,
    ensures
        scrub::collapsed(head + word + tail) == head + word + tail,
{
    let s = head + word + tail;
    scrub::lemma_chunks(s);
    if head.len() > 0 {
        assert(chars::ascii_space(head[head.len() - 1]));
        lemma_one_chunk(head, true);
    } else {
        assert(scrub::chunks(head) =~= Seq::empty());
    }
    if word.len() > 0 {
        assert(!chars::ascii_space(word[0]) && !chars::ascii_space(word[word.len() - 1]));
        lemma_one_chunk(word, false);
    } else {
        assert(scrub::chunks(word) =~= Seq::empty());
    }
    if tail.len() > 0 {
        assert(chars::ascii_space(tail[0]));
        lemma_one_chunk(tail, true);
    } else {
        assert(scrub::chunks(tail) =~= Seq::empty());
    }
    lemma_chunks_of_both(head, word);
    lemma_chunks_of_both(head + word, tail);
    assert(scrub::without_repeats(scrub::chunks(s)));
    scrub::law_collapse_keeps_text_without_repeats(s);
}

/// White space at the end of a text stays.
pub proof fn law_space_at_the_end_stays(s: Seq<char>, tail: Seq<char>)
    requires
        s.len() > 0,
        !chars::ascii_space(s.last()),
        all_spaces(tail),
    ensures
        scrub::collapsed(s + tail) == scrub::collapsed(s) + tail,
{
    if tail.len() == 0 {
        assert(s + tail =~= s);
        assert(scrub::collapsed(s) + tail =~= scrub::collapsed(s));
    } else {
        let c = scrub::chunks(s);
        let g = Chunk { blank: true, text: tail };
        lemma_one_chunk(tail, true);
        assert(chars::ascii_space(tail[0]));
        lemma_chunks_of_both(s, tail);
        lemma_last_chunk(s);
        scrub::lemma_walk_of(c);
        scrub::lemma_walk_of(c + seq![g]);
        assert((c + seq![g]).drop_last() =~= c);
        assert(scrub::collapsed(s) =~= scrub::walk_of(c).out);
        assert(scrub::collapsed(s + tail) =~= scrub::collapsed(s) + tail);
    }
}

/// A word that does not repeat the one before it is written behind what comes
/// out of the text up to there, with the white space between them.
pub proof fn law_other_words_stay(
    before: Seq<char>,
    word: Seq<char>,
    gap: Seq<char>,
    next: Seq<char>,
)
    requires
        before.len() > 0 ==> chars::ascii_space(before.last()),
        word.len() > 0 && no_spaces(word),
        gap.len() > 0 && all_spaces(gap),
        next.len() > 0 && no_spaces(next),
        chars::lowercase(word) != chars::lowercase(next),
    ensures
        scrub::collapsed(before + word + gap + next) == scrub::collapsed(before + word) + gap
            + next,
{
    let w = Chunk { blank: false, text: word };
    let g = Chunk { blank: true, text: gap };
    let v = Chunk { blank: false, text: next };
    let c = scrub::chunks(before);
    assert(!chars::ascii_space(word[0]) && !chars::ascii_space(word[word.len() - 1]));
    assert(chars::ascii_space(gap[0]) && chars::ascii_space(gap[gap.len() - 1]));
    assert(!chars::ascii_space(next[0]));
    lemma_one_chunk(word, false);
    lemma_one_chunk(gap, true);
    lemma_one_chunk(next, false);
    lemma_chunks_of_both(before, word);
    lemma_chunks_of_both(before + word, gap);
    lemma_chunks_of_both(before + word + gap, next);
    let x = c + seq![w];
    let y = x + seq![g];
    let z = y + seq![v];
    scrub::lemma_walk_of(x);
    scrub::lemma_walk_of(y);
    scrub::lemma_walk_of(z);
    assert(y.drop_last() =~= x);
    assert(z.drop_last() =~= y);
    let out = scrub::walk_of(x).out;
    assert(scrub::collapsed(before + word) =~= out);
    assert(scrub::walk_of(z).out =~= out + gap + next);
    assert(scrub::collapsed(before + word + gap + next) =~= out + gap + next);
}

} // verus!
