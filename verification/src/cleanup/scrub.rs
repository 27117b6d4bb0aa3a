//! Removal of what speech recognition adds of its own: words said twice in a
//! row, and phrases that it hears in silence.
use aho_corasick::{AhoCorasickBuilder, MatchKind};
use vstd::prelude::*;
use vstd::slice::slice_subrange;
use crate::chars;
use crate::text;
use crate::text::Class;

verus! {

/// The phrases that are heard in silence. They are removed only where they
/// make up a line or end one.
pub open spec fn hallucinations() -> Seq<Seq<char>> {
    seq![
        "Thanks for watching!"@,
        "Thanks for watching."@,
        "Thank you for watching."@,
        "Thank you for watching!"@,
        "Thank you."@,
        "Thanks."@,
        "Subtitles by the Amara.org community"@,
        "Transcribed by ESO Translates"@,
        "[Music]"@,
        "(music)"@,
        "♪"@,
    ]
}

/// Whether a pattern stands in `s` at `i`, up to ASCII case.
pub open spec fn pattern_at(pattern: Seq<char>, s: Seq<char>, i: int) -> bool {
    0 <= i && i + pattern.len() <= s.len() && text::same_caseless(
        s.subrange(i, i + pattern.len()),
        pattern,
    )
}

/// The length of the longest of the first `n` patterns that stand at `i`; 0
/// where none does.
pub open spec fn longest_at(patterns: Seq<Seq<char>>, s: Seq<char>, i: int, n: int) -> nat
    decreases n,
{
    if n <= 0 {
        0
    } else {
        let best = longest_at(patterns, s, i, n - 1);
        if pattern_at(patterns[n - 1], s, i) && patterns[n - 1].len() > best {
            patterns[n - 1].len()
        } else {
            best
        }
    }
}

/// The first match from `from` on, as start and end: the leftmost position
/// at which a pattern stands, and the longest pattern there.
pub open spec fn next_match(patterns: Seq<Seq<char>>, s: Seq<char>, from: int) -> Option<(int, int)>
    decreases s.len() - from,
{
    if from < 0 || from >= s.len() {
        None
    } else if longest_at(patterns, s, from, patterns.len() as int) > 0 {
        Some((from, from + longest_at(patterns, s, from, patterns.len() as int)))
    } else {
        next_match(patterns, s, from + 1)
    }
}

/// The matches from `from` on, none of which overlaps another.
pub open spec fn matches_from(patterns: Seq<Seq<char>>, s: Seq<char>, from: int) -> Seq<(int, int)>
    decreases s.len() - from,
{
    proof {
        lemma_next_match(patterns, s, from);
    }
    match next_match(patterns, s, from) {
        None => Seq::empty(),
        Some(m) => seq![m] + matches_from(patterns, s, m.1),
    }
}

/// A match as byte positions.
pub open spec fn in_bytes(s: Seq<char>, m: (int, int)) -> (nat, nat) {
    (text::byte_len(s.take(m.0)), text::byte_len(s.take(m.1)))
}

/// A match lies where it is looked for, inside the text, and is a pattern.
pub proof fn lemma_next_match(patterns: Seq<Seq<char>>, s: Seq<char>, from: int)
    ensures
        next_match(patterns, s, from) matches Some(m) ==> {
            &&& 0 <= from <= m.0 < m.1 <= s.len()
            &&& exists|k: int|
                0 <= k < patterns.len() && #[trigger] pattern_at(patterns[k], s, m.0)
                    && patterns[k].len() == m.1 - m.0
        },
    decreases s.len() - from,
{
    if 0 <= from < s.len() {
        lemma_longest_at(patterns, s, from, patterns.len() as int);
        if longest_at(patterns, s, from, patterns.len() as int) == 0 {
            lemma_next_match(patterns, s, from + 1);
        }
    }
}

/// The longest pattern at a position stands there, and no other that does is
/// longer.
pub proof fn lemma_longest_at(patterns: Seq<Seq<char>>, s: Seq<char>, i: int, n: int)
    requires
        n <= patterns.len(),
    ensures
        longest_at(patterns, s, i, n) > 0 ==> exists|k: int|
            0 <= k < n && #[trigger] pattern_at(patterns[k], s, i) && patterns[k].len()
                == longest_at(patterns, s, i, n),
        forall|k: int|
            0 <= k < n && #[trigger] pattern_at(patterns[k], s, i) ==> patterns[k].len()
                <= longest_at(patterns, s, i, n),
    decreases n,
{
    if n > 0 {
        lemma_longest_at(patterns, s, i, n - 1);
        let best = longest_at(patterns, s, i, n - 1);
        if pattern_at(patterns[n - 1], s, i) && patterns[n - 1].len() > best {
        } else if best > 0 {
            let k = choose|k: int|
                0 <= k < n - 1 && #[trigger] pattern_at(patterns[k], s, i) && patterns[k].len()
                    == best;
            assert(pattern_at(patterns[k], s, i));
        }
    }
}

/// `AhoCorasick::find_iter`, of an automaton that ignores ASCII case and
/// matches leftmost-longest: the successive non-overlapping matches, as start
/// and end in bytes of the haystack. The bounds on the patterns keep their
/// automaton far below the sizes at which it cannot be built.
#[verifier::external_body]
fn find_phrases(patterns: &Vec<String>, haystack: &str) -> (r: Vec<(usize, usize)>)
    requires
        patterns.len() <= 100,
        forall|k: int| 0 <= k < patterns.len() ==> 0 < (#[trigger] patterns[k]@).len() <= 200,
    ensures
        r.len() == matches_from(text::texts(patterns@), haystack@, 0).len(),
        forall|i: int|
            0 <= i < r.len() ==> (#[trigger] r[i].0 as nat, r[i].1 as nat) == in_bytes(
                haystack@,
                matches_from(text::texts(patterns@), haystack@, 0)[i],
            ),
{
    let automaton = AhoCorasickBuilder::new()
        .ascii_case_insensitive(true)
        .match_kind(MatchKind::LeftmostLongest)
        .build(patterns)
        .expect("a small set of non-empty patterns");
    automaton.find_iter(haystack).map(|m| (m.start(), m.end())).collect()
}

/// The text up to the hallucination that ends it, if one does.
pub open spec fn without_tail(line: Seq<char>) -> Seq<char> {
    let t = text::trimmed_end(Class::WhiteSpace, line);
    let found = matches_from(hallucinations(), t, 0);
    if found.len() > 0 && found.last().1 == t.len() {
        text::trimmed_end(Class::WhiteSpace, t.take(found.last().0))
    } else {
        line
    }
}

/// Whether a line holds one hallucination and nothing else.
pub open spec fn is_hallucination(line: Seq<char>) -> bool {
    let t = text::trimmed(Class::WhiteSpace, line);
    next_match(hallucinations(), t, 0) == Some((0int, t.len() as int))
}

/// The lines that are left.
pub open spec fn kept_lines(lines: Seq<Seq<char>>) -> Seq<Seq<char>>
    decreases lines.len(),
{
    if lines.len() == 0 {
        Seq::empty()
    } else if is_hallucination(lines.last()) {
        kept_lines(lines.drop_last())
    } else {
        kept_lines(lines.drop_last()).push(without_tail(lines.last()))
    }
}

/// A text without the hallucinations that make up or end a line. A line feed
/// at the end stays; blanks there go.
pub open spec fn scrubbed(s: Seq<char>) -> Seq<char> {
    let body = text::joined(kept_lines(text::lines(s)), seq!['\n']);
    text::trimmed_end(
        Class::Blank,
        if s.len() > 0 && s.last() == '\n' {
            body.push('\n')
        } else {
            body
        },
    )
}

fn phrase_list() -> (r: Vec<String>)
    ensures
        text::texts(r@) == hallucinations(),
        r.len() <= 100,
        forall|k: int| 0 <= k < r.len() ==> 0 < (#[trigger] r[k]@).len() <= 200,
{
    let mut v: Vec<String> = Vec::new();
    v.push("Thanks for watching!".to_owned());
    v.push("Thanks for watching.".to_owned());
    v.push("Thank you for watching.".to_owned());
    v.push("Thank you for watching!".to_owned());
    v.push("Thank you.".to_owned());
    v.push("Thanks.".to_owned());
    v.push("Subtitles by the Amara.org community".to_owned());
    v.push("Transcribed by ESO Translates".to_owned());
    v.push("[Music]".to_owned());
    v.push("(music)".to_owned());
    v.push("♪".to_owned());
    proof {
        reveal_strlit("Thanks for watching!");
        reveal_strlit("Thanks for watching.");
        reveal_strlit("Thank you for watching.");
        reveal_strlit("Thank you for watching!");
        reveal_strlit("Thank you.");
        reveal_strlit("Thanks.");
        reveal_strlit("Subtitles by the Amara.org community");
        reveal_strlit("Transcribed by ESO Translates");
        reveal_strlit("[Music]");
        reveal_strlit("(music)");
        reveal_strlit("♪");
        assert(text::texts(v@) =~= hallucinations());
    }
    v
}

/// The matches in a text, as character positions.
fn find_hallucinations(phrases: &Vec<String>, s: &[char]) -> (r: Vec<(usize, usize)>)
    requires
        text::texts(phrases@) == hallucinations(),
        phrases.len() <= 100,
        forall|k: int| 0 <= k < phrases.len() ==> 0 < (#[trigger] phrases[k]@).len() <= 200,
    ensures
        r@.map_values(|m: (usize, usize)| (m.0 as int, m.1 as int)) == matches_from(
            hallucinations(),
            s@,
            0,
        ),
        forall|i: int| 0 <= i < r.len() ==> (#[trigger] r[i]).0 < r[i].1 <= s@.len(),
{
    let hay = text::to_text(s);
    let found = find_phrases(phrases, hay.as_str());
    let ghost all = matches_from(hallucinations(), s@, 0);
    let mut out: Vec<(usize, usize)> = Vec::new();
    let mut i: usize = 0;
    while i < found.len()
        invariant
            i <= found.len(),
            all == matches_from(hallucinations(), s@, 0),
            found.len() == all.len(),
            forall|j: int|
                0 <= j < found.len() ==> (#[trigger] found[j].0 as nat, found[j].1 as nat)
                    == in_bytes(s@, all[j]),
            out@.map_values(|m: (usize, usize)| (m.0 as int, m.1 as int)) == all.take(i as int),
            forall|j: int| 0 <= j < out.len() ==> (#[trigger] out[j]).0 < out[j].1 <= s@.len(),
        decreases found.len() - i,
    {
        let ghost m = all[i as int];
        proof {
            lemma_matches_from(hallucinations(), s@, 0);
            assert((found[i as int].0 as nat, found[i as int].1 as nat) == in_bytes(s@, m));
            assert(0 <= m.0 < m.1 <= s@.len());
            assert(text::byte_len(s@.take(m.0)) == found[i as int].0);
            assert(text::byte_len(s@.take(m.1)) == found[i as int].1);
        }
        let a = text::char_index(s, found[i].0);
        let b = text::char_index(s, found[i].1);
        assert(a == m.0 && b == m.1);
        let ghost before = out@;
        out.push((a, b));
        assert(out@.map_values(|m: (usize, usize)| (m.0 as int, m.1 as int)) == before.map_values(
            |m: (usize, usize)| (m.0 as int, m.1 as int),
        ).push(m));
        i += 1;
    }
    assert(all.take(i as int) == all);
    out
}

/// Every match lies inside the text and is a pattern.
pub proof fn lemma_matches_from(patterns: Seq<Seq<char>>, s: Seq<char>, from: int)
    ensures
        forall|i: int|
            0 <= i < matches_from(patterns, s, from).len() ==> {
                let m = #[trigger] matches_from(patterns, s, from)[i];
                &&& 0 <= m.0 < m.1 <= s.len()
                &&& exists|k: int|
                    0 <= k < patterns.len() && #[trigger] pattern_at(patterns[k], s, m.0)
                        && patterns[k].len() == m.1 - m.0
            },
        matches_from(patterns, s, from).len() > 0 <==> next_match(patterns, s, from) is Some,
        matches_from(patterns, s, from).len() > 0 ==> matches_from(patterns, s, from)[0]
            == next_match(patterns, s, from)->0,
    decreases s.len() - from,
{
    lemma_next_match(patterns, s, from);
    match next_match(patterns, s, from) {
        None => {},
        Some(m) => {
            lemma_matches_from(patterns, s, m.1);
            let all = matches_from(patterns, s, from);
            let rest = matches_from(patterns, s, m.1);
            assert(all == seq![m] + rest);
            assert forall|i: int| 0 <= i < all.len() implies {
                let x = #[trigger] all[i];
                &&& 0 <= x.0 < x.1 <= s.len()
                &&& exists|k: int|
                    0 <= k < patterns.len() && #[trigger] pattern_at(patterns[k], s, x.0)
                        && patterns[k].len() == x.1 - x.0
            } by {
                if i > 0 {
                    assert(all[i] == rest[i - 1]);
                }
            }
        },
    }
}

fn is_whole_line(phrases: &Vec<String>, line: &[char]) -> (r: bool)
    requires
        text::texts(phrases@) == hallucinations(),
        phrases.len() <= 100,
        forall|k: int| 0 <= k < phrases.len() ==> 0 < (#[trigger] phrases[k]@).len() <= 200,
    ensures
        r == is_hallucination(line@),
{
    let t = text::trim(Class::WhiteSpace, line);
    let found = find_hallucinations(phrases, t);
    let ghost all = matches_from(hallucinations(), t@, 0);
    proof {
        lemma_matches_from(hallucinations(), t@, 0);
    }
    if found.len() == 0 {
        assert(all.len() == 0);
        return false;
    }
    assert(all[0] == (found@[0].0 as int, found@[0].1 as int));
    found[0].0 == 0 && found[0].1 == t.len()
}

fn strip_trailing_match(phrases: &Vec<String>, line: &[char]) -> (r: Vec<char>)
    requires
        text::texts(phrases@) == hallucinations(),
        phrases.len() <= 100,
        forall|k: int| 0 <= k < phrases.len() ==> 0 < (#[trigger] phrases[k]@).len() <= 200,
    ensures
        r@ == without_tail(line@),
{
    let t = text::trim_end(Class::WhiteSpace, line);
    let found = find_hallucinations(phrases, t);
    let ghost all = matches_from(hallucinations(), t@, 0);
    if found.len() == 0 {
        assert(all.len() == 0);
        return text::copied(line);
    }
    let last = found[found.len() - 1];
    assert(all.last() == (last.0 as int, last.1 as int));
    assert(found@[found.len() - 1].0 < found@[found.len() - 1].1);
    if last.1 != t.len() {
        return text::copied(line);
    }
    let kept = slice_subrange(t, 0, last.0);
    assert(kept@ == t@.take(last.0 as int));
    text::copied(text::trim_end(Class::WhiteSpace, kept))
}

/// Removes the hallucinations that make up a line or end one. Where more text
/// follows in the line, the phrase was meant and stays.
pub fn scrub_hallucinations(text: &str) -> (r: String)
    ensures
        r@ == scrubbed(text@),
{
    let cs = text::to_chars(text);
    let phrases = phrase_list();
    let lines = text::split_lines(cs.as_slice());
    let ghost all = text::lines(text@);
    let mut kept: Vec<Vec<char>> = Vec::new();
    let mut i: usize = 0;
    while i < lines.len()
        invariant
            i <= lines.len(),
            all == text::lines(text@),
            text::rows(lines@) == all,
            text::rows(kept@) == kept_lines(all.take(i as int)),
            text::texts(phrases@) == hallucinations(),
            phrases.len() <= 100,
            forall|k: int| 0 <= k < phrases.len() ==> 0 < (#[trigger] phrases[k]@).len() <= 200,
        decreases lines.len() - i,
    {
        assert(all.take(i + 1).drop_last() == all.take(i as int));
        assert(all.take(i + 1).last() == lines@[i as int]@);
        if !is_whole_line(&phrases, lines[i].as_slice()) {
            let line = strip_trailing_match(&phrases, lines[i].as_slice());
            let ghost before = kept@;
            kept.push(line);
            assert(text::rows(kept@) == text::rows(before).push(line@));
        }
        i += 1;
    }
    assert(all.take(i as int) == all);
    let mut feed: Vec<char> = Vec::new();
    feed.push('\n');
    assert(feed@ == seq!['\n']);
    let mut out = text::join(&kept, feed.as_slice());
    if cs.len() > 0 && cs[cs.len() - 1] == '\n' {
        out.push('\n');
    }
    text::to_text(text::trim_end(Class::Blank, out.as_slice()))
}

/// A maximal run of white space, or of anything else.
#[verifier::ext_equal]
pub struct Chunk {
    pub blank: bool,
    pub text: Seq<char>,
}

/// A text as its alternating runs of words and ASCII white space.
pub open spec fn chunks(s: Seq<char>) -> Seq<Chunk>
    decreases s.len(),
{
    if s.len() == 0 {
        Seq::empty()
    } else {
        let before = chunks(s.drop_last());
        let blank = chars::ascii_space(s.last());
        if before.len() > 0 && before.last().blank == blank {
            before.drop_last().push(Chunk { blank, text: before.last().text.push(s.last()) })
        } else {
            before.push(Chunk { blank, text: seq![s.last()] })
        }
    }
}

/// The state of the walk over the chunks: the text kept so far, its last word
/// in lower case, and the white space since.
#[verifier::ext_equal]
pub struct Walk {
    pub out: Seq<char>,
    pub prev: Option<Seq<char>>,
    pub gap: Seq<char>,
}

/// The walk over the chunks, given each of them in lower case. A word that
/// repeats the one before it goes, with the white space between them.
pub open spec fn walk(cs: Seq<Chunk>, lows: Seq<Seq<char>>) -> Walk
    decreases cs.len(),
{
    if cs.len() == 0 {
        Walk { out: Seq::empty(), prev: None, gap: Seq::empty() }
    } else {
        let w = walk(cs.drop_last(), lows.drop_last());
        let c = cs.last();
        if c.blank {
            Walk { gap: w.gap + c.text, ..w }
        } else if w.prev == Some(lows.last()) {
            Walk { gap: Seq::empty(), ..w }
        } else {
            Walk { out: w.out + w.gap + c.text, prev: Some(lows.last()), gap: Seq::empty() }
        }
    }
}

/// The chunks in lower case.
pub open spec fn lowered(cs: Seq<Chunk>) -> Seq<Seq<char>> {
    cs.map_values(|c: Chunk| chars::lowercase(c.text))
}

/// A text in which no word repeats the one before it.
pub open spec fn collapsed(s: Seq<char>) -> Seq<char> {
    let w = walk(chunks(s), lowered(chunks(s)));
    w.out + w.gap
}

/// A chunk that was read.
pub struct Run {
    pub blank: bool,
    pub text: Vec<char>,
}

/// What chunks that were read hold.
pub open spec fn run_chunks(v: Seq<Run>) -> Seq<Chunk> {
    v.map_values(|r: Run| Chunk { blank: r.blank, text: r.text@ })
}

fn split_keep_ws(s: &[char]) -> (r: Vec<Run>)
    ensures
        run_chunks(r@) == chunks(s@),
{
    let mut v: Vec<Run> = Vec::new();
    assert(s@.take(0) =~= Seq::empty());
    assert(run_chunks(v@) =~= Seq::empty());
    let mut i: usize = 0;
    while i < s.len()
        invariant
            i <= s.len(),
            run_chunks(v@) == chunks(s@.take(i as int)),
        decreases s.len() - i,
    {
        let ghost cs = chunks(s@.take(i as int));
        assert(s@.take(i + 1).drop_last() =~= s@.take(i as int));
        let blank = chars::is_ascii_space(s[i]);
        let n: usize = v.len();
        let ghost before = v@;
        if n > 0 {
            assert(cs.last() == (Chunk { blank: before[n - 1].blank, text: before[n - 1].text@ }));
        }
        if n > 0 && v[n - 1].blank == blank {
            match v.pop() {
                Some(mut run) => {
                    run.text.push(s[i]);
                    v.push(run);
                },
                None => {},
            }
            assert(run_chunks(v@) =~= cs.drop_last().push(
                Chunk { blank, text: cs.last().text.push(s@[i as int]) },
            ));
        } else {
            v.push(Run { blank, text: text::one_char(s[i]) });
            assert(run_chunks(v@) =~= cs.push(Chunk { blank, text: seq![s@[i as int]] }));
        }
        i += 1;
    }
    assert(s@.take(i as int) =~= s@);
    v
}

/// Takes out each word that repeats the word before it, given each chunk in
/// lower case.
pub fn collapse_runs(runs: &Vec<Run>, lows: &Vec<Vec<char>>) -> (r: Vec<char>)
    requires
        lows.len() == runs.len(),
    ensures
        r@ == ({
            let w = walk(run_chunks(runs@), text::rows(lows@));
            w.out + w.gap
        }),
{
    let ghost cs = run_chunks(runs@);
    let ghost ls = text::rows(lows@);
    let mut out: Vec<char> = Vec::new();
    let mut prev: Option<usize> = None;
    let mut gap: Vec<char> = Vec::new();
    assert(cs.take(0) =~= Seq::empty());
    let mut i: usize = 0;
    while i < runs.len()
        invariant
            i <= runs.len(),
            lows.len() == runs.len(),
            cs == run_chunks(runs@),
            ls == text::rows(lows@),
            out@ == walk(cs.take(i as int), ls.take(i as int)).out,
            gap@ == walk(cs.take(i as int), ls.take(i as int)).gap,
            match prev {
                Some(p) => p < i && walk(cs.take(i as int), ls.take(i as int)).prev == Some(
                    ls[p as int],
                ),
                None => walk(cs.take(i as int), ls.take(i as int)).prev is None,
            },
        decreases runs.len() - i,
    {
        assert(cs.take(i + 1).drop_last() =~= cs.take(i as int));
        assert(ls.take(i + 1).drop_last() =~= ls.take(i as int));
        assert(cs.take(i + 1).last() == cs[i as int]);
        assert(ls.take(i + 1).last() == lows@[i as int]@);
        if runs[i].blank {
            text::append(&mut gap, runs[i].text.as_slice());
        } else {
            let repeated = match prev {
                Some(p) => text::same(lows[p].as_slice(), lows[i].as_slice()),
                None => false,
            };
            if !repeated {
                text::append(&mut out, gap.as_slice());
                text::append(&mut out, runs[i].text.as_slice());
                prev = Some(i);
            }
            gap = Vec::new();
        }
        i += 1;
    }
    assert(cs.take(i as int) =~= cs);
    assert(ls.take(i as int) =~= ls);
    text::append(&mut out, gap.as_slice());
    out
}

fn lower_runs(runs: &Vec<Run>) -> (r: Vec<Vec<char>>)
    ensures
        text::rows(r@) == lowered(run_chunks(runs@)),
{
    let ghost all = lowered(run_chunks(runs@));
    let mut out: Vec<Vec<char>> = Vec::new();
    let mut i: usize = 0;
    while i < runs.len()
        invariant
            i <= runs.len(),
            all == lowered(run_chunks(runs@)),
            text::rows(out@) == all.take(i as int),
        decreases runs.len() - i,
    {
        let low = text::lower(runs[i].text.as_slice());
        let ghost before = out@;
        out.push(low);
        assert(text::rows(out@) =~= text::rows(before).push(low@));
        assert(all.take(i + 1) =~= all.take(i as int).push(all[i as int]));
        i += 1;
    }
    assert(all.take(i as int) =~= all);
    out
}

/// Takes out each word that repeats the word before it, whatever the case of
/// either; the first one keeps its own. Words are what ASCII white space
/// separates, so that a word with punctuation is another word.
pub fn collapse_repeats(text: &str) -> (r: String)
    ensures
        r@ == collapsed(text@),
{
    let s = text::to_chars(text);
    let runs = split_keep_ws(s.as_slice());
    let lows = lower_runs(&runs);
    assert(text::rows(lows@).len() == run_chunks(runs@).len());
    let r = collapse_runs(&runs, &lows);
    text::to_text(r.as_slice())
}

/// Whether two words are the same up to case.
pub open spec fn repeats(a: Seq<char>, b: Seq<char>) -> bool {
    chars::lowercase(a) == chars::lowercase(b)
}

/// The walk over the chunks of a text.
pub open spec fn walk_of(cs: Seq<Chunk>) -> Walk {
    walk(cs, lowered(cs))
}

pub proof fn lemma_walk_of(cs: Seq<Chunk>)
    requires
        cs.len() > 0,
    ensures
        walk_of(cs) == ({
            let w = walk_of(cs.drop_last());
            let c = cs.last();
            if c.blank {
                Walk { gap: w.gap + c.text, ..w }
            } else if w.prev == Some(chars::lowercase(c.text)) {
                Walk { gap: Seq::empty(), ..w }
            } else {
                Walk {
                    out: w.out + w.gap + c.text,
                    prev: Some(chars::lowercase(c.text)),
                    gap: Seq::empty(),
                }
            }
        }),
{
    assert(lowered(cs).drop_last() =~= lowered(cs.drop_last()));
}

/// The chunks written one after the other.
pub open spec fn flat(cs: Seq<Chunk>) -> Seq<char>
    decreases cs.len(),
{
    if cs.len() == 0 {
        Seq::empty()
    } else {
        flat(cs.drop_last()) + cs.last().text
    }
}

/// Whether a chunk is a run: not empty, and of one kind.
pub open spec fn is_run(c: Chunk) -> bool {
    c.text.len() > 0 && forall|i: int|
        0 <= i < c.text.len() ==> chars::ascii_space(#[trigger] c.text[i]) == c.blank
}

/// Whether chunks are runs that alternate in kind.
pub open spec fn alternating(cs: Seq<Chunk>) -> bool {
    &&& forall|i: int| 0 <= i < cs.len() ==> is_run(#[trigger] cs[i])
    &&& forall|i: int, j: int|
        0 <= i && j == i + 1 && j < cs.len() ==> (#[trigger] cs[i]).blank != (#[trigger] cs[j]).blank
}

/// Whether no word repeats the one before it, which stands two chunks away.
pub open spec fn without_repeats(cs: Seq<Chunk>) -> bool {
    forall|i: int, j: int|
        0 <= i && j == i + 2 && j < cs.len() && !cs[i].blank && !cs[j].blank ==> !repeats(
            (#[trigger] cs[i]).text,
            (#[trigger] cs[j]).text,
        )
}

proof fn lemma_alternating_prefix(cs: Seq<Chunk>)
    requires
        alternating(cs),
        cs.len() > 0,
    ensures
        alternating(cs.drop_last()),
{
    let d = cs.drop_last();
    assert forall|i: int| 0 <= i < d.len() implies is_run(#[trigger] d[i]) by {
        assert(is_run(cs[i]));
    }
    assert forall|i: int, j: int| 0 <= i && j == i + 1 && j < d.len() implies (
    #[trigger] d[i]).blank != (#[trigger] d[j]).blank by {
        assert(cs[i].blank != cs[j].blank);
    }
}

proof fn lemma_alternating_push(cs: Seq<Chunk>, c: Chunk)
    requires
        alternating(cs),
        is_run(c),
        cs.len() > 0 ==> cs.last().blank != c.blank,
    ensures
        alternating(cs.push(c)),
{
    let d = cs.push(c);
    assert forall|i: int| 0 <= i < d.len() implies is_run(#[trigger] d[i]) by {
        if i < cs.len() {
            assert(is_run(cs[i]));
        }
    }
    assert forall|i: int, j: int| 0 <= i && j == i + 1 && j < d.len() implies (
    #[trigger] d[i]).blank != (#[trigger] d[j]).blank by {
        if j < cs.len() {
            assert(cs[i].blank != cs[j].blank);
        }
    }
}

/// The chunks of a text alternate and spell it.
pub proof fn lemma_chunks(s: Seq<char>)
    ensures
        alternating(chunks(s)),
        flat(chunks(s)) == s,
    decreases s.len(),
{
    if s.len() > 0 {
        let before = chunks(s.drop_last());
        lemma_chunks(s.drop_last());
        let blank = chars::ascii_space(s.last());
        if before.len() > 0 && before.last().blank == blank {
            let d = before.drop_last();
            let c = Chunk { blank, text: before.last().text.push(s.last()) };
            lemma_alternating_prefix(before);
            assert(is_run(before[before.len() - 1]));
            assert(is_run(c)) by {
                assert forall|i: int| 0 <= i < c.text.len() implies chars::ascii_space(
                    #[trigger] c.text[i],
                ) == c.blank by {
                    if i < before.last().text.len() {
                        assert(chars::ascii_space(before.last().text[i]) == before.last().blank);
                    }
                }
            }
            if d.len() > 0 {
                assert(before[d.len() - 1].blank != before[d.len() as int].blank);
            }
            lemma_alternating_push(d, c);
            assert(chunks(s) == d.push(c));
            assert(d.push(c).drop_last() == d);
            assert(flat(d) + (before.last().text.push(s.last())) == (flat(d)
                + before.last().text).push(s.last()));
            assert(s.drop_last().push(s.last()) == s);
        } else {
            let c = Chunk { blank, text: seq![s.last()] };
            lemma_alternating_push(before, c);
            assert(before.push(c).drop_last() == before);
            assert(s.drop_last() + seq![s.last()] == s);
        }
    }
}

/// Alternating runs are the chunks of what they spell.
pub proof fn lemma_chunks_of_flat(cs: Seq<Chunk>)
    requires
        alternating(cs),
    ensures
        chunks(flat(cs)) == cs,
    decreases cs.len(),
{
    if cs.len() > 0 {
        lemma_alternating_prefix(cs);
        lemma_chunks_of_flat(cs.drop_last());
        let c = cs.last();
        assert(is_run(cs[cs.len() - 1]));
        if cs.len() > 1 {
            assert(cs[cs.len() - 2].blank != cs[cs.len() - 1].blank);
        }
        lemma_chunks_grow(cs.drop_last(), c, c.text.len() as int);
        assert(c.text.take(c.text.len() as int) == c.text);
        assert(cs.drop_last().push(c) == cs);
    }
}

proof fn lemma_chunks_grow(before: Seq<Chunk>, c: Chunk, n: int)
    requires
        chunks(flat(before)) == before,
        is_run(c),
        before.len() > 0 ==> before.last().blank != c.blank,
        0 < n <= c.text.len(),
    ensures
        chunks(flat(before) + c.text.take(n)) == before.push(
            Chunk { blank: c.blank, text: c.text.take(n) },
        ),
    decreases n,
{
    let s = flat(before) + c.text.take(n);
    assert(s.last() == c.text[n - 1]);
    assert(chars::ascii_space(c.text[n - 1]) == c.blank);
    assert(s.drop_last() == flat(before) + c.text.take(n - 1));
    if n == 1 {
        assert(flat(before) + c.text.take(0) == flat(before));
        assert(c.text.take(1) == seq![s.last()]);
    } else {
        lemma_chunks_grow(before, c, n - 1);
        let b = before.push(Chunk { blank: c.blank, text: c.text.take(n - 1) });
        assert(b.drop_last() == before);
        assert(c.text.take(n - 1).push(s.last()) == c.text.take(n));
    }
}

/// What the walk keeps, as chunks: the kept text without the white space at
/// its end.
spec fn kept_chunks(cs: Seq<Chunk>) -> Seq<Chunk>
    decreases cs.len(),
{
    if cs.len() == 0 {
        Seq::empty()
    } else {
        let k = kept_chunks(cs.drop_last());
        let w = walk_of(cs.drop_last());
        let c = cs.last();
        if c.blank || w.prev == Some(chars::lowercase(c.text)) {
            k
        } else if w.gap.len() > 0 {
            k.push(Chunk { blank: true, text: w.gap }).push(c)
        } else {
            k.push(c)
        }
    }
}

/// What holds all along the walk.
spec fn walk_inv(cs: Seq<Chunk>) -> bool {
    let k = kept_chunks(cs);
    let w = walk_of(cs);
    &&& alternating(k)
    &&& without_repeats(k)
    &&& flat(k) == w.out
    &&& k.len() > 0 ==> !k.last().blank && w.prev == Some(chars::lowercase(k.last().text))
    &&& k.len() == 0 ==> w.prev is None
    &&& w.gap.len() > 0 ==> is_run(Chunk { blank: true, text: w.gap })
    &&& cs.len() > 0 && cs.last().blank ==> w.gap == cs.last().text
    &&& cs.len() > 0 && !cs.last().blank ==> w.gap.len() == 0 && k.len() > 0
    &&& cs.len() == 0 ==> w.gap.len() == 0
}

proof fn lemma_without_repeats_push(k: Seq<Chunk>, c: Chunk)
    requires
        without_repeats(k),
        k.len() > 1 && !k[k.len() - 2].blank && !c.blank ==> !repeats(
            k[k.len() - 2].text,
            c.text,
        ),
    ensures
        without_repeats(k.push(c)),
{
    let d = k.push(c);
    assert forall|i: int, j: int|
        0 <= i && j == i + 2 && j < d.len() && !d[i].blank && !d[j].blank implies !repeats(
        (#[trigger] d[i]).text,
        (#[trigger] d[j]).text,
    ) by {
        if j < k.len() {
            assert(!repeats(k[i].text, k[j].text));
        }
    }
}

proof fn lemma_walk(cs: Seq<Chunk>)
    requires
        alternating(cs),
    ensures
        walk_inv(cs),
    decreases cs.len(),
{
    if cs.len() > 0 {
        let before = cs.drop_last();
        lemma_alternating_prefix(cs);
        lemma_walk(before);
        let c = cs.last();
        let k = kept_chunks(before);
        let w = walk_of(before);
        lemma_walk_of(cs);
        assert(is_run(cs[cs.len() - 1]));
        if before.len() > 0 {
            assert(cs[cs.len() - 2].blank != cs[cs.len() - 1].blank);
        }
        if before.len() > 0 {
            assert(is_run(cs[cs.len() - 2]));
        }
        if c.blank {
            assert(w.gap + c.text == c.text);
            assert(walk_of(cs).gap == c.text);
            assert(Chunk { blank: true, text: c.text } == c);
        } else if w.prev == Some(chars::lowercase(c.text)) {
        } else if w.gap.len() > 0 {
            let g = Chunk { blank: true, text: w.gap };
            lemma_alternating_push(k, g);
            lemma_alternating_push(k.push(g), c);
            lemma_without_repeats_push(k, g);
            assert(k.push(g).push(c).drop_last() == k.push(g));
            assert(k.push(g).drop_last() == k);
            assert(flat(k.push(g)) == w.out + w.gap);
            if k.len() > 0 {
                assert(k.push(g)[k.push(g).len() - 2] == k.last());
            }
            lemma_without_repeats_push(k.push(g), c);
        } else {
            assert(before.len() == 0);
            lemma_alternating_push(k, c);
            lemma_without_repeats_push(k, c);
            assert(k.push(c).drop_last() == k);
            assert(w.out + w.gap + c.text == w.out + c.text);
        }
    }
}

/// In a collapsed text no word repeats the one before it.
pub proof fn law_no_repeats_left(s: Seq<char>)
    ensures
        without_repeats(chunks(collapsed(s))),
{
    let cs = chunks(s);
    lemma_chunks(s);
    lemma_walk(cs);
    let k = kept_chunks(cs);
    let w = walk_of(cs);
    if w.gap.len() > 0 {
        let g = Chunk { blank: true, text: w.gap };
        lemma_alternating_push(k, g);
        lemma_without_repeats_push(k, g);
        assert(k.push(g).drop_last() == k);
        lemma_chunks_of_flat(k.push(g));
    } else {
        assert(w.out + w.gap == w.out);
        lemma_chunks_of_flat(k);
    }
}

proof fn lemma_walk_without_repeats(cs: Seq<Chunk>)
    requires
        alternating(cs),
        without_repeats(cs),
    ensures
        walk_of(cs).out + walk_of(cs).gap == flat(cs),
        cs.len() > 0 && !cs.last().blank ==> walk_of(cs).gap.len() == 0 && walk_of(cs).prev == Some(
            chars::lowercase(cs.last().text),
        ),
        cs.len() > 0 && cs.last().blank ==> walk_of(cs).prev == (if cs.len() > 1 {
            Some(chars::lowercase(cs[cs.len() - 2].text))
        } else {
            None
        }),
        cs.len() == 0 ==> walk_of(cs).prev is None,
    decreases cs.len(),
{
    if cs.len() > 0 {
        let before = cs.drop_last();
        lemma_alternating_prefix(cs);
        assert(without_repeats(before)) by {
            assert forall|i: int, j: int|
                0 <= i && j == i + 2 && j < before.len() && !before[i].blank
                    && !before[j].blank implies !repeats(
                (#[trigger] before[i]).text,
                (#[trigger] before[j]).text,
            ) by {
                assert(!repeats(cs[i].text, cs[j].text));
            }
        }
        lemma_walk_without_repeats(before);
        let n = cs.len() as int;
        let c = cs.last();
        let w = walk_of(before);
        lemma_walk_of(cs);
        if n > 1 {
            assert(cs[n - 2].blank != cs[n - 1].blank);
        }
        if n > 2 {
            assert(cs[n - 3].blank != cs[n - 2].blank);
        }
        if c.blank {
            assert(w.out + (w.gap + c.text) == w.out + w.gap + c.text);
        } else {
            if n > 2 {
                assert(!repeats(cs[n - 3].text, cs[n - 1].text));
            }
            assert(walk_of(cs).out + walk_of(cs).gap == w.out + w.gap + c.text);
        }
    }
}

/// A text in which no word repeats the one before it stays as it is.
pub proof fn law_collapse_keeps_text_without_repeats(s: Seq<char>)
    requires
        without_repeats(chunks(s)),
    ensures
        collapsed(s) == s,
{
    lemma_chunks(s);
    lemma_walk_without_repeats(chunks(s));
}

/// To collapse a text twice is to collapse it once.
pub proof fn law_collapse_is_idempotent(s: Seq<char>)
    ensures
        collapsed(collapsed(s)) == collapsed(s),
{
    law_no_repeats_left(s);
    law_collapse_keeps_text_without_repeats(collapsed(s));
}

/// Whether a phrase ends a text, up to ASCII case.
pub open spec fn ends_in_hallucination(s: Seq<char>) -> bool {
    exists|k: int|
        0 <= k < hallucinations().len() && #[trigger] pattern_at(
            hallucinations()[k],
            s,
            s.len() - hallucinations()[k].len(),
        )
}

/// Where a text keeps anything at all, the text trimmed on both sides ends the
/// text trimmed at its end.
proof fn lemma_trimmed_ends_trimmed_end(k: Class, s: Seq<char>, n: int)
    requires
        0 <= n <= s.len(),
        text::trimmed_end(k, s.skip(n)).len() > 0,
    ensures
        n <= text::trimmed_end(k, s).len(),
        text::trimmed_end(k, s).skip(n) == text::trimmed_end(k, s.skip(n)),
    decreases s.len(),
{
    let t = s.skip(n);
    if t.len() > 0 && k.has(t.last()) {
        assert(t.last() == s.last());
        assert(t.drop_last() == s.drop_last().skip(n));
        lemma_trimmed_ends_trimmed_end(k, s.drop_last(), n);
    } else {
        assert(t.last() == s.last());
    }
}

proof fn lemma_trimmed_start_skips(k: Class, s: Seq<char>)
    ensures
        exists|n: int| 0 <= n <= s.len() && text::trimmed_start(k, s) == #[trigger] s.skip(n),
    decreases s.len(),
{
    if s.len() > 0 && k.has(s[0]) {
        lemma_trimmed_start_skips(k, s.skip(1));
        let n = choose|n: int|
            0 <= n <= s.skip(1).len() && text::trimmed_start(k, s.skip(1)) == #[trigger] s.skip(
                1,
            ).skip(n);
        assert(s.skip(1).skip(n) == s.skip(n + 1));
    } else {
        assert(s.skip(0) == s);
    }
}

/// A line that does not end in a hallucination is left alone, whatever it
/// holds further in.
pub proof fn law_phrases_inside_a_line_stay(line: Seq<char>)
    requires
        !ends_in_hallucination(text::trimmed_end(Class::WhiteSpace, line)),
    ensures
        !is_hallucination(line),
        without_tail(line) == line,
{
    let h = hallucinations();
    let t = text::trimmed_end(Class::WhiteSpace, line);
    lemma_matches_from(h, t, 0);
    let found = matches_from(h, t, 0);
    if found.len() > 0 && found.last().1 == t.len() {
        let m = found[found.len() - 1];
        let k = choose|k: int|
            0 <= k < h.len() && #[trigger] pattern_at(h[k], t, m.0) && h[k].len() == m.1 - m.0;
        assert(pattern_at(h[k], t, t.len() - h[k].len()));
    }
    if is_hallucination(line) {
        let u = text::trimmed(Class::WhiteSpace, line);
        lemma_next_match(h, u, 0);
        let k = choose|k: int|
            0 <= k < h.len() && #[trigger] pattern_at(h[k], u, 0) && h[k].len() == u.len();
        lemma_trimmed_start_skips(Class::WhiteSpace, line);
        let n = choose|n: int|
            0 <= n <= line.len() && text::trimmed_start(Class::WhiteSpace, line)
                == #[trigger] line.skip(n);
        lemma_trimmed_ends_trimmed_end(Class::WhiteSpace, line, n);
        assert(t.skip(n) == u);
        assert(t.len() - h[k].len() == n);
        assert(t.subrange(n, t.len() as int) == u.subrange(0, u.len() as int));
        assert(pattern_at(h[k], t, n));
        assert(pattern_at(h[k], t, t.len() - h[k].len()));
    }
}

/// Lines none of which ends in a hallucination are all kept as they are.
pub proof fn law_other_lines_stay(lines: Seq<Seq<char>>)
    requires
        forall|i: int|
            0 <= i < lines.len() ==> !ends_in_hallucination(
                text::trimmed_end(Class::WhiteSpace, #[trigger] lines[i]),
            ),
    ensures
        kept_lines(lines) == lines,
    decreases lines.len(),
{
    if lines.len() > 0 {
        let n = lines.len() - 1;
        law_phrases_inside_a_line_stay(lines[n]);
        assert forall|i: int| 0 <= i < lines.drop_last().len() implies !ends_in_hallucination(
            text::trimmed_end(Class::WhiteSpace, #[trigger] lines.drop_last()[i]),
        ) by {
            assert(lines[i] == lines.drop_last()[i]);
        }
        law_other_lines_stay(lines.drop_last());
        assert(lines.drop_last().push(lines.last()) == lines);
    }
}

proof fn lemma_line_only_shrinks(line: Seq<char>)
    ensures
        text::left_of(without_tail(line), line),
{
    let t = text::trimmed_end(Class::WhiteSpace, line);
    let found = matches_from(hallucinations(), t, 0);
    text::lemma_trimmed_end(Class::WhiteSpace, line);
    text::lemma_left_of_itself(line);
    if found.len() > 0 && found.last().1 == t.len() {
        lemma_matches_from(hallucinations(), t, 0);
        let m = found[found.len() - 1];
        text::lemma_trimmed_end(Class::WhiteSpace, t.take(m.0));
        assert(without_tail(line).is_prefix_of(line));
        text::lemma_left_of_prefix(without_tail(line), line);
    }
}

/// What the finished lines of a text leave, joined, with a line feed behind
/// it, is left of the text up to the open line.
proof fn lemma_kept_of_finished(s: Seq<char>)
    ensures
        ({
            let (done, open) = text::line_scan(s);
            let n = s.len() - open.len();
            let body = text::joined(kept_lines(done), seq!['\n']);
            &&& 0 <= n
            &&& s.skip(n) == open
            &&& done.len() > 0 ==> text::left_of(body.push('\n'), s.take(n))
            &&& done.len() == 0 ==> n == 0
            &&& done.len() > 0 ==> n > 0 && s[n - 1] == '\n'
        }),
    decreases s.len(),
{
    let (done, open) = text::line_scan(s);
    if s.len() == 0 {
        assert(s.skip(0) == open);
    } else {
        let t = s.drop_last();
        lemma_kept_of_finished(t);
        let (d0, o0) = text::line_scan(t);
        let n0 = t.len() - o0.len();
        if s.last() == '\n' {
            lemma_one_more_kept(d0, text::without_return(o0), t.take(n0), o0);
            let body = text::joined(kept_lines(done), seq!['\n']);
            assert(t.take(n0) + o0 == t);
            text::lemma_left_of_itself(seq!['\n']);
            text::lemma_left_of_parts(body, t, seq!['\n'], seq!['\n']);
            assert(t + seq!['\n'] == s);
            assert(body + seq!['\n'] == body.push('\n'));
            assert(s.take(s.len() as int) == s);
            assert(s.skip(s.len() as int) == open);
        } else {
            assert(s.take(n0) == t.take(n0));
            assert(s.skip(n0) == open);
        }
    }
}

proof fn lemma_one_more_kept(done: Seq<Seq<char>>, line: Seq<char>, head: Seq<char>, tail: Seq<char>)
    requires
        done.len() > 0 ==> text::left_of(
            text::joined(kept_lines(done), seq!['\n']).push('\n'),
            head,
        ),
        line == tail || line == text::without_return(tail),
    ensures
        text::left_of(text::joined(kept_lines(done.push(line)), seq!['\n']), head + tail),
{
    let k = kept_lines(done);
    let body = text::joined(k, seq!['\n']);
    assert(done.push(line).drop_last() == done);
    text::lemma_left_of_prefix(line, tail);
    lemma_line_only_shrinks(line);
    let w = without_tail(line);
    text::lemma_left_of_left(w, line, tail);
    // the lines above, without the line feed behind them
    if done.len() > 0 {
        text::lemma_left_of_itself(body);
        text::lemma_left_of_parts(body, body, Seq::empty(), seq!['\n']);
        assert(body + Seq::<char>::empty() == body);
        assert(body + seq!['\n'] == body.push('\n'));
        text::lemma_left_of_left(body, body.push('\n'), head);
    }
    if is_hallucination(line) {
        text::lemma_left_of_parts(body, head, Seq::empty(), tail);
        assert(body + Seq::<char>::empty() == body);
    } else {
        assert(k.push(w).drop_last() == k);
        if k.len() > 0 {
            assert(done.len() > 0);
            text::lemma_left_of_parts(body.push('\n'), head, w, tail);
            assert(body + seq!['\n'] + w == body.push('\n') + w);
        } else {
            text::lemma_left_of_parts(Seq::empty(), head, w, tail);
            assert(Seq::<char>::empty() + w == w);
        }
    }
}

/// Scrubbing only takes characters out of the text. It writes none that is not
/// there and changes no order.
pub proof fn law_scrub_only_removes(s: Seq<char>)
    ensures
        text::left_of(scrubbed(s), s),
{
    lemma_kept_of_finished(s);
    let (done, open) = text::line_scan(s);
    let n = s.len() - open.len();
    let body = text::joined(kept_lines(text::lines(s)), seq!['\n']);
    assert(s.take(n) + s.skip(n) == s);
    if open.len() > 0 {
        lemma_one_more_kept(done, open, s.take(n), open);
        assert(s.last() != '\n') by {
            lemma_open_line_has_no_feed(s);
            assert(open[open.len() - 1] == s.last());
        }
        text::lemma_trimmed_end(Class::Blank, body);
        text::lemma_left_of_prefix(scrubbed(s), body);
        text::lemma_left_of_left(scrubbed(s), body, s);
    } else if done.len() > 0 {
        assert(s.take(n) == s);
        text::lemma_trimmed_end(Class::Blank, body.push('\n'));
        text::lemma_left_of_prefix(scrubbed(s), body.push('\n'));
        text::lemma_left_of_left(scrubbed(s), body.push('\n'), s);
    } else {
        assert(scrubbed(s).len() == 0);
    }
}

proof fn lemma_open_line_has_no_feed(s: Seq<char>)
    ensures
        forall|i: int|
            0 <= i < text::line_scan(s).1.len() ==> (#[trigger] text::line_scan(s).1[i]) != '\n',
    decreases s.len(),
{
    if s.len() > 0 {
        lemma_open_line_has_no_feed(s.drop_last());
        let before = text::line_scan(s.drop_last()).1;
        let now = text::line_scan(s).1;
        assert forall|i: int| 0 <= i < now.len() implies (#[trigger] now[i]) != '\n' by {
            if i < before.len() {
                assert(before[i] == now[i]);
            }
        }
    }
}

proof fn lemma_walk_only_removes(cs: Seq<Chunk>)
    ensures
        text::left_of(walk_of(cs).out + walk_of(cs).gap, flat(cs)),
    decreases cs.len(),
{
    if cs.len() == 0 {
        assert(walk_of(cs).out + walk_of(cs).gap =~= Seq::empty());
    } else {
        let before = cs.drop_last();
        let c = cs.last();
        let w = walk_of(before);
        lemma_walk_only_removes(before);
        lemma_walk_of(cs);
        let now = walk_of(cs).out + walk_of(cs).gap;
        text::lemma_left_of_itself(c.text);
        if !c.blank && w.prev == Some(chars::lowercase(c.text)) {
            assert(w.out.is_prefix_of(w.out + w.gap));
            text::lemma_left_of_prefix(w.out, w.out + w.gap);
            text::lemma_left_of_left(w.out, w.out + w.gap, flat(before));
            text::lemma_left_of_parts(w.out, flat(before), Seq::empty(), c.text);
            assert(w.out + Seq::<char>::empty() =~= now);
        } else {
            text::lemma_left_of_parts(w.out + w.gap, flat(before), c.text, c.text);
            assert(w.out + w.gap + c.text =~= now);
        }
    }
}

/// Collapsing only takes characters out of the text: words that stay keep
/// their case and their order.
pub proof fn law_collapse_only_removes(s: Seq<char>)
    ensures
        text::left_of(collapsed(s), s),
{
    lemma_chunks(s);
    lemma_walk_only_removes(chunks(s));
}

proof fn lemma_one_line(s: Seq<char>)
    requires
        forall|i: int| 0 <= i < s.len() ==> #[trigger] s[i] != '\n',
    ensures
        text::line_scan(s) == (Seq::<Seq<char>>::empty(), s),
    decreases s.len(),
{
    if s.len() > 0 {
        let d = s.drop_last();
        assert forall|i: int| 0 <= i < d.len() implies #[trigger] d[i] != '\n' by {
            assert(s[i] == d[i]);
        }
        lemma_one_line(d);
        assert(s[s.len() - 1] != '\n');
        assert(d.push(s.last()) =~= s);
    }
}

/// One line that ends neither in a hallucination nor in blanks stays as it is.
pub proof fn law_one_line_stays(s: Seq<char>)
    requires
        forall|i: int| 0 <= i < s.len() ==> #[trigger] s[i] != '\n',
        text::trimmed_end(Class::WhiteSpace, s) == s,
        !ends_in_hallucination(s),
    ensures
        scrubbed(s) == s,
{
    lemma_one_line(s);
    if s.len() > 0 {
        let all = seq![s];
        assert(text::lines(s) =~= all);
        law_other_lines_stay(all);
        text::lemma_trimmed_end(Class::WhiteSpace, s);
        assert(s[s.len() - 1] != '\n');
        assert(!Class::Blank.has(s.last()));
    } else {
        assert(text::lines(s) =~= Seq::empty());
    }
}

} // verus!
