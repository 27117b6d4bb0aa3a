//! Text as a sequence of characters: trimming, splitting, searching, joining.
use vstd::prelude::*;
use vstd::slice::slice_subrange;
use vstd::utf8::*;
use crate::chars;

verus! {

/// The sets of characters that trimming and splitting go by.
#[derive(Clone, Copy, PartialEq, Eq, Structural)]
pub enum Class {
    /// Unicode white space.
    WhiteSpace,
    /// Space and tab.
    Blank,
    /// ASCII punctuation.
    AsciiPunctuation,
    /// What opens a Markdown heading: number signs and spaces.
    HeadingLead,
    /// Anything but a letter or a digit.
    NonAlphanumeric,
    /// The separators of file paths, of either kind.
    PathSeparator,
    /// A slash.
    Slash,
    /// Line feed and carriage return.
    LineBreak,
    /// An asterisk.
    Star,
}

impl Class {
    pub open spec fn has(self, c: char) -> bool {
        match self {
            Class::WhiteSpace => chars::white_space(c),
            Class::Blank => c == ' ' || c == '\t',
            Class::AsciiPunctuation => chars::ascii_punctuation(c),
            Class::HeadingLead => c == '#' || c == ' ',
            Class::NonAlphanumeric => !chars::alphanumeric(c),
            Class::PathSeparator => c == '/' || c == '\\',
            Class::Slash => c == '/',
            Class::LineBreak => c == '\n' || c == '\r',
            Class::Star => c == '*',
        }
    }

    pub fn contains(self, c: char) -> (r: bool)
        ensures
            r == self.has(c),
    {
        match self {
            Class::WhiteSpace => c.is_whitespace(),
            Class::Blank => c == ' ' || c == '\t',
            Class::AsciiPunctuation => chars::is_ascii_punctuation(c),
            Class::HeadingLead => c == '#' || c == ' ',
            Class::NonAlphanumeric => !c.is_alphanumeric(),
            Class::PathSeparator => c == '/' || c == '\\',
            Class::Slash => c == '/',
            Class::LineBreak => c == '\n' || c == '\r',
            Class::Star => c == '*',
        }
    }
}

/// `s` without the leading characters of a class.
pub open spec fn trimmed_start(k: Class, s: Seq<char>) -> Seq<char>
    decreases s.len(),
{
    if s.len() > 0 && k.has(s[0]) {
        trimmed_start(k, s.skip(1))
    } else {
        s
    }
}

/// `s` without the trailing characters of a class.
pub open spec fn trimmed_end(k: Class, s: Seq<char>) -> Seq<char>
    decreases s.len(),
{
    if s.len() > 0 && k.has(s.last()) {
        trimmed_end(k, s.drop_last())
    } else {
        s
    }
}

/// `s` without the characters of a class at either end.
pub open spec fn trimmed(k: Class, s: Seq<char>) -> Seq<char> {
    trimmed_end(k, trimmed_start(k, s))
}

/// Whether `pat` stands in `s` at position `i`.
pub open spec fn occurs_at(s: Seq<char>, pat: Seq<char>, i: int) -> bool {
    0 <= i && i + pat.len() <= s.len() && s.subrange(i, i + pat.len()) == pat
}

/// The first position from `i` on at which `pat` stands in `s`.
pub open spec fn first_from(s: Seq<char>, pat: Seq<char>, i: int) -> Option<int>
    decreases s.len() + 1 - i,
{
    if i < 0 || i + pat.len() > s.len() {
        None
    } else if occurs_at(s, pat, i) {
        Some(i)
    } else {
        first_from(s, pat, i + 1)
    }
}

/// The first position at which `pat` stands in `s`.
pub open spec fn first_of(s: Seq<char>, pat: Seq<char>) -> Option<int> {
    first_from(s, pat, 0)
}

/// A list of fields that ends in an unfinished one, with that one added unless
/// it is empty.
pub open spec fn flushed(done: Seq<Seq<char>>, open: Seq<char>) -> Seq<Seq<char>> {
    if open.len() == 0 {
        done
    } else {
        done.push(open)
    }
}

/// The finished fields of `s`, and the field that its end leaves open.
pub open spec fn field_scan(k: Class, s: Seq<char>) -> (Seq<Seq<char>>, Seq<char>)
    decreases s.len(),
{
    if s.len() == 0 {
        (Seq::empty(), Seq::empty())
    } else {
        let (done, open) = field_scan(k, s.drop_last());
        if k.has(s.last()) {
            (flushed(done, open), Seq::empty())
        } else {
            (done, open.push(s.last()))
        }
    }
}

/// The non-empty runs of `s` between characters of a class.
pub open spec fn fields(k: Class, s: Seq<char>) -> Seq<Seq<char>> {
    let (done, open) = field_scan(k, s);
    flushed(done, open)
}

/// The words of `s`: what white space separates.
pub open spec fn words(s: Seq<char>) -> Seq<Seq<char>> {
    fields(Class::WhiteSpace, s)
}

/// A line without the carriage return that its line feed left behind.
pub open spec fn without_return(line: Seq<char>) -> Seq<char> {
    if line.len() > 0 && line.last() == '\r' {
        line.drop_last()
    } else {
        line
    }
}

/// The finished lines of `s`, and what follows the last line feed.
pub open spec fn line_scan(s: Seq<char>) -> (Seq<Seq<char>>, Seq<char>)
    decreases s.len(),
{
    if s.len() == 0 {
        (Seq::empty(), Seq::empty())
    } else {
        let (done, open) = line_scan(s.drop_last());
        if s.last() == '\n' {
            (done.push(without_return(open)), Seq::empty())
        } else {
            (done, open.push(s.last()))
        }
    }
}

/// The lines of `s`. A line ends in a line feed, with or without a carriage
/// return before it; the last one may have none.
pub open spec fn lines(s: Seq<char>) -> Seq<Seq<char>> {
    let (done, open) = line_scan(s);
    flushed(done, open)
}

/// The parts with `sep` between each two.
pub open spec fn joined(parts: Seq<Seq<char>>, sep: Seq<char>) -> Seq<char>
    decreases parts.len(),
{
    if parts.len() == 0 {
        Seq::empty()
    } else if parts.len() == 1 {
        parts[0]
    } else {
        joined(parts.drop_last(), sep) + sep + parts.last()
    }
}

/// The parts of `s` between one occurrence of `pat` and the next.
pub open spec fn parts(s: Seq<char>, pat: Seq<char>) -> Seq<Seq<char>>
    decreases s.len(),
    when pat.len() > 0
{
    match first_of(s, pat) {
        None => seq![s],
        Some(p) => {
            proof {
                lemma_first_from_occurs(s, pat, 0);
            }
            seq![s.take(p)] + parts(s.skip(p + pat.len()), pat)
        },
    }
}

/// What a list of character vectors holds.
pub open spec fn rows(v: Seq<Vec<char>>) -> Seq<Seq<char>> {
    v.map_values(|r: Vec<char>| r@)
}

/// What a list of strings holds.
pub open spec fn texts(v: Seq<String>) -> Seq<Seq<char>> {
    v.map_values(|r: String| r@)
}

/// The text of an optional string slice.
pub open spec fn opt_str(s: Option<&str>) -> Option<Seq<char>> {
    match s {
        Some(t) => Some(t@),
        None => None,
    }
}

/// The text of an optional string.
pub open spec fn opt_text(s: Option<String>) -> Option<Seq<char>> {
    match s {
        Some(t) => Some(t@),
        None => None,
    }
}

/// The given texts, trimmed; those that come out empty go.
pub open spec fn non_blank(ts: Seq<Seq<char>>) -> Seq<Seq<char>>
    decreases ts.len(),
{
    if ts.len() == 0 {
        Seq::empty()
    } else {
        flushed(non_blank(ts.drop_last()), trimmed(Class::WhiteSpace, ts.last()))
    }
}

/// A text of one character.
pub fn one_char(c: char) -> (r: Vec<char>)
    ensures
        r@ == seq![c],
{
    let mut v: Vec<char> = Vec::new();
    v.push(c);
    assert(v@ =~= seq![c]);
    v
}

/// A text of two characters.
pub fn two_chars(a: char, b: char) -> (r: Vec<char>)
    ensures
        r@ == seq![a, b],
{
    let mut v: Vec<char> = Vec::new();
    v.push(a);
    v.push(b);
    assert(v@ =~= seq![a, b]);
    v
}

pub fn to_chars(s: &str) -> (r: Vec<char>)
    ensures
        r@ == s@,
{
    let mut out: Vec<char> = Vec::new();
    for c in it: s.chars()
        invariant
            out@ == s@.take(it.index() as int),
            it.seq() == s@,
    {
        out.push(c);
    }
    out
}

pub fn to_text(s: &[char]) -> (r: String)
    ensures
        r@ == s@,
{
    let mut out = String::new();
    let mut i: usize = 0;
    while i < s.len()
        invariant
            i <= s.len(),
            out@ == s@.take(i as int),
        decreases s.len() - i,
    {
        out.push(s[i]);
        i += 1;
    }
    assert(s@.take(i as int) == s@);
    out
}

pub fn copied(s: &[char]) -> (r: Vec<char>)
    ensures
        r@ == s@,
{
    let mut out: Vec<char> = Vec::new();
    append(&mut out, s);
    assert(out@ == s@);
    out
}

pub fn append(out: &mut Vec<char>, s: &[char])
    ensures
        final(out)@ == old(out)@ + s@,
{
    let ghost start = out@;
    let mut i: usize = 0;
    while i < s.len()
        invariant
            i <= s.len(),
            out@ == start + s@.take(i as int),
        decreases s.len() - i,
    {
        out.push(s[i]);
        i += 1;
    }
    assert(s@.take(i as int) == s@);
}

pub fn same(a: &[char], b: &[char]) -> (r: bool)
    ensures
        r == (a@ == b@),
{
    if a.len() != b.len() {
        return false;
    }
    let mut i: usize = 0;
    while i < a.len()
        invariant
            i <= a.len(),
            a.len() == b.len(),
            a@.take(i as int) == b@.take(i as int),
        decreases a.len() - i,
    {
        if a[i] != b[i] {
            assert(a@[i as int] != b@[i as int]);
            return false;
        }
        i += 1;
    }
    assert(a@.take(i as int) == a@);
    assert(b@.take(i as int) == b@);
    true
}

pub fn concat(a: &str, b: &str) -> (r: String)
    ensures
        r@ == a@ + b@,
{
    let mut out = to_chars(a);
    let tail = to_chars(b);
    append(&mut out, tail.as_slice());
    to_text(out.as_slice())
}

/// Whether two strings hold the same text.
pub fn same_text(a: &str, b: &str) -> (r: bool)
    ensures
        r == (a@ == b@),
{
    let x = to_chars(a);
    let y = to_chars(b);
    same(x.as_slice(), y.as_slice())
}

pub fn trim_start(k: Class, s: &[char]) -> (r: &[char])
    ensures
        r@ == trimmed_start(k, s@),
{
    let mut i: usize = 0;
    assert(s@.skip(0) == s@);
    while i < s.len() && k.contains(s[i])
        invariant
            i <= s.len(),
            trimmed_start(k, s@) == trimmed_start(k, s@.skip(i as int)),
        decreases s.len() - i,
    {
        assert(s@.skip(i as int).skip(1) == s@.skip(i + 1));
        i += 1;
    }
    slice_subrange(s, i, s.len())
}

pub fn trim_end(k: Class, s: &[char]) -> (r: &[char])
    ensures
        r@ == trimmed_end(k, s@),
        r@ == s@.take(r@.len() as int),
        r@.len() <= s@.len(),
{
    let mut n: usize = s.len();
    assert(s@.take(n as int) == s@);
    while n > 0 && k.contains(s[n - 1])
        invariant
            n <= s.len(),
            trimmed_end(k, s@) == trimmed_end(k, s@.take(n as int)),
        decreases n,
    {
        assert(s@.take(n as int).drop_last() == s@.take(n - 1));
        n -= 1;
    }
    let r = slice_subrange(s, 0, n);
    assert(r@ == s@.take(n as int));
    r
}

pub fn trim(k: Class, s: &[char]) -> (r: &[char])
    ensures
        r@ == trimmed(k, s@),
{
    trim_end(k, trim_start(k, s))
}

/// Takes the trailing characters of a class off `out`.
pub fn drop_trailing(k: Class, out: &mut Vec<char>)
    ensures
        final(out)@ == trimmed_end(k, old(out)@),
{
    let ghost start = out@;
    while out.len() > 0 && k.contains(out[out.len() - 1])
        invariant
            trimmed_end(k, start) == trimmed_end(k, out@),
        decreases out.len(),
    {
        let _ = out.pop();
    }
}

pub fn stands_at(s: &[char], pat: &[char], i: usize) -> (r: bool)
    ensures
        r == occurs_at(s@, pat@, i as int),
{
    if i > s.len() || pat.len() > s.len() - i {
        return false;
    }
    same(slice_subrange(s, i, i + pat.len()), pat)
}

pub fn find_from(s: &[char], pat: &[char], from: usize) -> (r: Option<usize>)
    ensures
        match r {
            Some(p) => first_from(s@, pat@, from as int) == Some(p as int),
            None => first_from(s@, pat@, from as int) is None,
        },
{
    let mut i: usize = from;
    while i <= s.len() && pat.len() <= s.len() - i
        invariant
            from <= i,
            i <= s.len() + 1 || i == from,
            first_from(s@, pat@, from as int) == first_from(s@, pat@, i as int),
        decreases s.len() + 1 - i,
    {
        if stands_at(s, pat, i) {
            return Some(i);
        }
        if i == s.len() {
            assert(first_from(s@, pat@, i + 1) is None);
            return None;
        }
        i += 1;
    }
    None
}

pub fn find(s: &[char], pat: &[char]) -> (r: Option<usize>)
    ensures
        match r {
            Some(p) => first_of(s@, pat@) == Some(p as int) && occurs_at(s@, pat@, p as int),
            None => first_of(s@, pat@) is None,
        },
{
    let r = find_from(s, pat, 0);
    proof {
        lemma_first_from_occurs(s@, pat@, 0);
    }
    r
}

/// A position that a search gives back is one where the pattern stands, and
/// the pattern stands nowhere between it and the start of the search.
pub proof fn lemma_first_from_occurs(s: Seq<char>, pat: Seq<char>, i: int)
    requires
        0 <= i,
    ensures
        match first_from(s, pat, i) {
            Some(p) => i <= p && occurs_at(s, pat, p) && forall|q: int|
                i <= q < p ==> !occurs_at(s, pat, q),
            None => forall|q: int| i <= q ==> !occurs_at(s, pat, q),
        },
    decreases s.len() + 1 - i,
{
    if i + pat.len() <= s.len() && !occurs_at(s, pat, i) {
        lemma_first_from_occurs(s, pat, i + 1);
    }
}

pub fn starts_with(s: &[char], pat: &[char]) -> (r: bool)
    ensures
        r == pat@.is_prefix_of(s@),
{
    if pat.len() > s.len() {
        return false;
    }
    let head = slice_subrange(s, 0, pat.len());
    same(head, pat)
}

pub fn split_fields(k: Class, s: &[char]) -> (r: Vec<Vec<char>>)
    ensures
        rows(r@) == fields(k, s@),
{
    let mut done: Vec<Vec<char>> = Vec::new();
    let mut open: Vec<char> = Vec::new();
    let mut i: usize = 0;
    while i < s.len()
        invariant
            i <= s.len(),
            rows(done@) == field_scan(k, s@.take(i as int)).0,
            open@ == field_scan(k, s@.take(i as int)).1,
        decreases s.len() - i,
    {
        assert(s@.take(i + 1).drop_last() == s@.take(i as int));
        if k.contains(s[i]) {
            if open.len() > 0 {
                let ghost before = done@;
                done.push(open);
                assert(rows(done@) == rows(before).push(open@));
                open = Vec::new();
            }
        } else {
            open.push(s[i]);
        }
        i += 1;
    }
    assert(s@.take(i as int) == s@);
    if open.len() > 0 {
        let ghost before = done@;
        done.push(open);
        assert(rows(done@) == rows(before).push(open@));
    }
    done
}

pub fn split_words(s: &[char]) -> (r: Vec<Vec<char>>)
    ensures
        rows(r@) == words(s@),
{
    split_fields(Class::WhiteSpace, s)
}

pub fn split_lines(s: &[char]) -> (r: Vec<Vec<char>>)
    ensures
        rows(r@) == lines(s@),
{
    let mut done: Vec<Vec<char>> = Vec::new();
    let mut open: Vec<char> = Vec::new();
    let mut i: usize = 0;
    while i < s.len()
        invariant
            i <= s.len(),
            rows(done@) == line_scan(s@.take(i as int)).0,
            open@ == line_scan(s@.take(i as int)).1,
        decreases s.len() - i,
    {
        assert(s@.take(i + 1).drop_last() == s@.take(i as int));
        if s[i] == '\n' {
            if open.len() > 0 && open[open.len() - 1] == '\r' {
                let _ = open.pop();
            }
            let ghost before = done@;
            done.push(open);
            assert(rows(done@) == rows(before).push(open@));
            open = Vec::new();
        } else {
            open.push(s[i]);
        }
        i += 1;
    }
    assert(s@.take(i as int) == s@);
    if open.len() > 0 {
        let ghost before = done@;
        done.push(open);
        assert(rows(done@) == rows(before).push(open@));
    }
    done
}

pub fn split_parts(s: &[char], pat: &[char]) -> (r: Vec<Vec<char>>)
    requires
        pat.len() > 0,
    ensures
        rows(r@) == parts(s@, pat@),
{
    let mut done: Vec<Vec<char>> = Vec::new();
    let mut at: usize = 0;
    assert(s@.skip(0) =~= s@);
    assert(rows(done@) + parts(s@, pat@) =~= parts(s@, pat@));
    loop
        invariant_except_break
            at <= s.len(),
            pat.len() > 0,
            parts(s@, pat@) == rows(done@) + parts(s@.skip(at as int), pat@),
        ensures
            rows(done@) == parts(s@, pat@),
        decreases s.len() - at,
    {
        let rest = slice_subrange(s, at, s.len());
        assert(rest@ =~= s@.skip(at as int));
        let ghost before = done@;
        match find(rest, pat) {
            None => {
                let part = copied(rest);
                done.push(part);
                assert(rows(done@) =~= rows(before) + seq![rest@]);
                break;
            },
            Some(p) => {
                let part = copied(slice_subrange(rest, 0, p));
                assert(part@ =~= rest@.take(p as int));
                done.push(part);
                let next: usize = at + p + pat.len();
                assert(rest@.skip(p + pat@.len()) =~= s@.skip(next as int));
                assert(rows(done@) =~= rows(before).push(part@));
                assert(rows(before) + (seq![part@] + parts(s@.skip(next as int), pat@)) =~= rows(
                    done@,
                ) + parts(s@.skip(next as int), pat@));
                at = next;
            },
        }
    }
    done
}

pub fn join(parts: &Vec<Vec<char>>, sep: &[char]) -> (r: Vec<char>)
    ensures
        r@ == joined(rows(parts@), sep@),
{
    let mut out: Vec<char> = Vec::new();
    let mut i: usize = 0;
    while i < parts.len()
        invariant
            i <= parts.len(),
            out@ == joined(rows(parts@).take(i as int), sep@),
        decreases parts.len() - i,
    {
        let ghost head = rows(parts@).take(i + 1);
        assert(head.drop_last() == rows(parts@).take(i as int));
        assert(head.last() == parts@[i as int]@);
        if i > 0 {
            append(&mut out, sep);
        }
        append(&mut out, parts[i].as_slice());
        i += 1;
    }
    assert(rows(parts@).take(i as int) == rows(parts@));
    out
}

pub fn lower(s: &[char]) -> (r: Vec<char>)
    ensures
        r@ == chars::lowercase(s@),
        !s@.contains('_') ==> !r@.contains('_'),
{
    let t = to_text(s);
    let l = t.to_lowercase();
    to_chars(l.as_str())
}

pub fn upper(s: &[char]) -> (r: Vec<char>)
    ensures
        r@ == chars::uppercase(s@),
{
    let t = to_text(s);
    let u = t.to_uppercase();
    to_chars(u.as_str())
}

/// A trimmed text is a start of the text, does not end in the class, and stays
/// the same when it is trimmed again. Only characters of the class went.
pub proof fn lemma_trimmed_end(k: Class, s: Seq<char>)
    ensures
        trimmed_end(k, s).is_prefix_of(s),
        trimmed_end(k, s).len() > 0 ==> !k.has(trimmed_end(k, s).last()),
        trimmed_end(k, trimmed_end(k, s)) == trimmed_end(k, s),
        forall|i: int| trimmed_end(k, s).len() <= i < s.len() ==> k.has(#[trigger] s[i]),
    decreases s.len(),
{
    if s.len() > 0 && k.has(s.last()) {
        let t = s.drop_last();
        lemma_trimmed_end(k, t);
        assert(trimmed_end(k, s).is_prefix_of(s));
        assert forall|i: int| trimmed_end(k, s).len() <= i < s.len() implies k.has(
            #[trigger] s[i],
        ) by {
            if i < t.len() {
                assert(t[i] == s[i]);
            }
        }
    }
}

/// No field is empty, and none holds a character of the class.
pub proof fn lemma_fields(k: Class, s: Seq<char>)
    ensures
        forall|j: int| 0 <= j < fields(k, s).len() ==> (#[trigger] fields(k, s)[j]).len() > 0,
        forall|j: int, i: int|
            0 <= j < fields(k, s).len() && 0 <= i < fields(k, s)[j].len() ==> !k.has(
                #[trigger] fields(k, s)[j][i],
            ),
        forall|i: int| 0 <= i < field_scan(k, s).1.len() ==> !k.has(#[trigger] field_scan(k, s).1[i]),
    decreases s.len(),
{
    if s.len() > 0 {
        lemma_fields(k, s.drop_last());
        let before = fields(k, s.drop_last());
        let (done, open) = field_scan(k, s.drop_last());
        let now = fields(k, s);
        if k.has(s.last()) {
            assert(now == before);
        } else {
            assert(now == done.push(open.push(s.last())));
            assert forall|j: int| 0 <= j < now.len() implies (#[trigger] now[j]).len() > 0 by {
                if j < done.len() {
                    assert(before[j] == now[j]);
                }
            }
            assert forall|j: int, i: int|
                0 <= j < now.len() && 0 <= i < now[j].len() implies !k.has(#[trigger] now[j][i]) by {
                if j < done.len() {
                    assert(before[j] == now[j]);
                    assert(!k.has(before[j][i]));
                } else if i < open.len() {
                    assert(!k.has(open[i]));
                    assert(now[j][i] == open[i]);
                }
            }
        }
    }
}

/// The fields of a text, run together, are its characters that are not of the
/// class.
pub proof fn lemma_fields_joined(k: Class, s: Seq<char>)
    ensures
        joined(fields(k, s), Seq::empty()) == s.filter(|c: char| !k.has(c)),
        joined(field_scan(k, s).0, Seq::empty()) + field_scan(k, s).1 == s.filter(
            |c: char| !k.has(c),
        ),
    decreases s.len(),
{
    let none = Seq::<char>::empty();
    let (done, open) = field_scan(k, s);
    reveal(Seq::filter);
    if s.len() > 0 {
        let t = s.drop_last();
        let (d0, o0) = field_scan(k, t);
        lemma_fields_joined(k, t);
        if k.has(s.last()) {
            assert(joined(done, none) + open =~= joined(done, none));
        } else {
            assert(joined(d0, none) + o0.push(s.last()) =~= (joined(d0, none) + o0).push(s.last()));
        }
    }
    lemma_joined_push(done, open);
    assert(joined(done, none) + none =~= joined(done, none));
}

/// Parts run together, with one more behind them.
proof fn lemma_joined_push(ps: Seq<Seq<char>>, p: Seq<char>)
    ensures
        joined(ps.push(p), Seq::empty()) == joined(ps, Seq::empty()) + p,
{
    let none = Seq::<char>::empty();
    assert(ps.push(p).drop_last() =~= ps);
    if ps.len() == 0 {
        assert(none + p =~= p);
    } else {
        assert(joined(ps, none) + none + p =~= joined(ps, none) + p);
    }
}

/// A text has a field where it has a character that is not of the class.
pub proof fn lemma_no_fields(k: Class, s: Seq<char>)
    ensures
        fields(k, s).len() == 0 <==> forall|i: int| 0 <= i < s.len() ==> k.has(#[trigger] s[i]),
        field_scan(k, s).0.len() == 0 && field_scan(k, s).1.len() == 0 <==> fields(k, s).len() == 0,
    decreases s.len(),
{
    if s.len() > 0 {
        let t = s.drop_last();
        lemma_no_fields(k, t);
        if forall|i: int| 0 <= i < s.len() ==> k.has(#[trigger] s[i]) {
            assert forall|i: int| 0 <= i < t.len() implies k.has(#[trigger] t[i]) by {
                assert(k.has(s[i]));
            }
            assert(k.has(s[s.len() - 1]));
        }
        if fields(k, s).len() == 0 {
            assert forall|i: int| 0 <= i < s.len() implies k.has(#[trigger] s[i]) by {
                if i < t.len() {
                    assert(k.has(t[i]));
                }
            }
        }
    }
}

/// The characters of a text's fields are characters of the text.
pub proof fn lemma_fields_ascii(k: Class, s: Seq<char>)
    requires
        chars::all_ascii(s),
    ensures
        forall|j: int| 0 <= j < fields(k, s).len() ==> chars::all_ascii(#[trigger] fields(k, s)[j]),
        forall|j: int|
            0 <= j < field_scan(k, s).0.len() ==> chars::all_ascii(
                #[trigger] field_scan(k, s).0[j],
            ),
        chars::all_ascii(field_scan(k, s).1),
    decreases s.len(),
{
    if s.len() > 0 {
        let t = s.drop_last();
        assert forall|i: int| 0 <= i < t.len() implies chars::ascii(#[trigger] t[i]) by {
            assert(chars::ascii(s[i]));
        }
        lemma_fields_ascii(k, t);
        assert(chars::ascii(s[s.len() - 1]));
    }
}

pub proof fn lemma_field_scan_more(k: Class, s: Seq<char>, w: Seq<char>)
    requires
        forall|i: int| 0 <= i < w.len() ==> !k.has(#[trigger] w[i]),
    ensures
        field_scan(k, s + w) == (field_scan(k, s).0, field_scan(k, s).1 + w),
    decreases w.len(),
{
    if w.len() == 0 {
        assert(s + w =~= s);
        assert(field_scan(k, s).1 + w =~= field_scan(k, s).1);
    } else {
        let v = w.drop_last();
        assert forall|i: int| 0 <= i < v.len() implies !k.has(#[trigger] v[i]) by {
            assert(!k.has(w[i]));
        }
        lemma_field_scan_more(k, s, v);
        assert((s + w).drop_last() =~= s + v);
        assert(!k.has(w[w.len() - 1]));
        assert((field_scan(k, s).1 + v).push(w.last()) =~= field_scan(k, s).1 + w);
    }
}

/// Fields joined with a character of the class are the fields of what comes
/// out.
pub proof fn lemma_fields_of_joined(k: Class, ws: Seq<Seq<char>>, c: char)
    requires
        k.has(c),
        forall|j: int| 0 <= j < ws.len() ==> (#[trigger] ws[j]).len() > 0,
        forall|j: int, i: int|
            0 <= j < ws.len() && 0 <= i < ws[j].len() ==> !k.has(#[trigger] ws[j][i]),
    ensures
        fields(k, joined(ws, seq![c])) == ws,
        ws.len() > 0 ==> field_scan(k, joined(ws, seq![c])) == (ws.drop_last(), ws.last()),
    decreases ws.len(),
{
    let t = joined(ws, seq![c]);
    if ws.len() > 0 {
        let d = ws.drop_last();
        let w = ws.last();
        assert(ws[ws.len() - 1].len() > 0);
        assert forall|i: int| 0 <= i < w.len() implies !k.has(#[trigger] w[i]) by {
            assert(!k.has(ws[ws.len() - 1][i]));
        }
        assert forall|j: int| 0 <= j < d.len() implies (#[trigger] d[j]).len() > 0 by {
            assert(ws[j].len() > 0);
        }
        assert forall|j: int, i: int| 0 <= j < d.len() && 0 <= i < d[j].len() implies !k.has(
            #[trigger] d[j][i],
        ) by {
            assert(!k.has(ws[j][i]));
        }
        lemma_fields_of_joined(k, d, c);
        assert(d.push(w) =~= ws);
        if d.len() == 0 {
            let none = Seq::<char>::empty();
            lemma_field_scan_more(k, none, w);
            assert(none + w =~= w);
            assert(field_scan(k, t).0 =~= d);
        } else {
            let head = joined(d, seq![c]);
            assert(head + seq![c] =~= head.push(c));
            assert(head.push(c).drop_last() =~= head);
            assert(field_scan(k, head.push(c)) == (fields(k, head), Seq::<char>::empty()));
            lemma_field_scan_more(k, head.push(c), w);
            assert(Seq::<char>::empty() + w =~= w);
        }
    }
}

/// Joining a list is putting its first part before the rest of it.
pub proof fn lemma_joined_front(a: Seq<char>, rest: Seq<Seq<char>>, sep: Seq<char>)
    requires
        rest.len() > 0,
    ensures
        joined(seq![a] + rest, sep) == a + sep + joined(rest, sep),
    decreases rest.len(),
{
    let all = seq![a] + rest;
    assert(all.last() == rest.last());
    assert(all.drop_last() =~= seq![a] + rest.drop_last());
    if rest.len() == 1 {
        assert(all.drop_last() =~= seq![a]);
        assert(joined(seq![a], sep) == a);
        assert(joined(rest, sep) == rest.last());
    } else {
        lemma_joined_front(a, rest.drop_last(), sep);
        let head = joined(rest.drop_last(), sep);
        assert(a + sep + head + sep + rest.last() =~= a + sep + (head + sep + rest.last()));
    }
}

/// The parts of a text, joined again, are the text.
pub proof fn lemma_joined_parts(s: Seq<char>, pat: Seq<char>)
    requires
        pat.len() > 0,
    ensures
        parts(s, pat).len() > 0,
        joined(parts(s, pat), pat) == s,
    decreases s.len(),
{
    match first_of(s, pat) {
        None => {},
        Some(p) => {
            lemma_first_from_occurs(s, pat, 0);
            let rest = s.skip(p + pat.len());
            lemma_joined_parts(rest, pat);
            lemma_joined_front(s.take(p), parts(rest, pat), pat);
            assert(s.take(p) + s.subrange(p, p + pat.len()) + rest =~= s);
        },
    }
}

/// The parts of a text between occurrences of a character do not hold it.
pub proof fn lemma_parts_without(s: Seq<char>, c: char)
    ensures
        forall|j: int, i: int|
            0 <= j < parts(s, seq![c]).len() && 0 <= i < parts(s, seq![c])[j].len()
                ==> #[trigger] parts(s, seq![c])[j][i] != c,
    decreases s.len(),
{
    let pat = seq![c];
    lemma_first_from_occurs(s, pat, 0);
    assert forall|i: int| 0 <= i < s.len() && #[trigger] s[i] == c implies occurs_at(s, pat, i) by {
        assert(s.subrange(i, i + 1) =~= pat);
    }
    match first_of(s, pat) {
        None => {},
        Some(p) => {
            let rest = s.skip(p + 1);
            lemma_parts_without(rest, c);
            let ps = parts(rest, pat);
            assert(parts(s, pat) == seq![s.take(p)] + ps);
            assert forall|j: int, i: int|
                0 <= j < parts(s, pat).len() && 0 <= i < parts(s, pat)[j].len() implies #[trigger] parts(
                s,
                pat,
            )[j][i] != c by {
                if j > 0 {
                    assert(parts(s, pat)[j] == ps[j - 1]);
                    assert(ps[j - 1][i] != c);
                } else {
                    assert(parts(s, pat)[j] == s.take(p));
                    assert(s.take(p)[i] == s[i]);
                }
            }
        },
    }
}

/// Parts that do not hold a character, joined with it, are the parts of what
/// comes out.
pub proof fn lemma_parts_of_joined(ps: Seq<Seq<char>>, c: char)
    requires
        ps.len() > 0,
        forall|j: int, i: int|
            0 <= j < ps.len() && 0 <= i < ps[j].len() ==> #[trigger] ps[j][i] != c,
    ensures
        parts(joined(ps, seq![c]), seq![c]) == ps,
    decreases ps.len(),
{
    let pat = seq![c];
    let a = ps[0];
    let s = joined(ps, pat);
    lemma_first_from_occurs(s, pat, 0);
    if ps.len() == 1 {
        assert forall|q: int| !occurs_at(s, pat, q) by {
            if occurs_at(s, pat, q) {
                assert(s.subrange(q, q + 1)[0] == s[q]);
                assert(ps[0][q] != c);
            }
        }
        assert(seq![s] =~= ps);
    } else {
        let rest = ps.skip(1);
        assert(ps =~= seq![a] + rest);
        assert forall|j: int, i: int| 0 <= j < rest.len() && 0 <= i < rest[j].len() implies #[trigger] rest[j][i]
            != c by {
            assert(ps[j + 1][i] != c);
        }
        lemma_parts_of_joined(rest, c);
        lemma_joined_front(a, rest, pat);
        let n = a.len() as int;
        assert(s.subrange(n, n + 1) =~= pat);
        assert(occurs_at(s, pat, n));
        assert forall|q: int| 0 <= q < n implies !occurs_at(s, pat, q) by {
            if occurs_at(s, pat, q) {
                assert(s.subrange(q, q + 1)[0] == s[q]);
                assert(s[q] == ps[0][q]);
            }
        }
        assert(first_of(s, pat) == Some(n));
        assert(s.take(n) =~= a);
        assert(s.skip(n + 1) =~= joined(rest, pat));
    }
}

/// Of two lists of parts, the one that is left of the other part by part is
/// left of it as a whole.
pub proof fn lemma_left_of_joined(a: Seq<Seq<char>>, b: Seq<Seq<char>>, sep: Seq<char>)
    requires
        a.len() == b.len(),
        forall|i: int| 0 <= i < a.len() ==> left_of(#[trigger] a[i], b[i]),
    ensures
        left_of(joined(a, sep), joined(b, sep)),
    decreases a.len(),
{
    if a.len() > 0 {
        let n = a.len() - 1;
        assert(left_of(a[n], b[n]));
        if n > 0 {
            let c = a.drop_last();
            let d = b.drop_last();
            assert forall|i: int| 0 <= i < c.len() implies left_of(#[trigger] c[i], d[i]) by {
                assert(left_of(a[i], b[i]));
            }
            lemma_left_of_joined(c, d, sep);
            lemma_left_of_itself(sep);
            lemma_left_of_parts(joined(c, sep), joined(d, sep), sep, sep);
            lemma_left_of_parts(joined(c, sep) + sep, joined(d, sep) + sep, a[n], b[n]);
        }
    }
}

/// What is left of a text that does not hold a character does not hold it.
pub proof fn lemma_left_of_without(a: Seq<char>, b: Seq<char>, c: char)
    requires
        left_of(a, b),
        forall|i: int| 0 <= i < b.len() ==> #[trigger] b[i] != c,
    ensures
        forall|i: int| 0 <= i < a.len() ==> #[trigger] a[i] != c,
    decreases b.len(),
{
    if a.len() > 0 {
        let d = b.drop_last();
        assert forall|i: int| 0 <= i < d.len() implies #[trigger] d[i] != c by {
            assert(b[i] != c);
        }
        if left_of(a, d) {
            lemma_left_of_without(a, d, c);
        } else {
            lemma_left_of_without(a.drop_last(), d, c);
            assert(b[b.len() - 1] != c);
            assert forall|i: int| 0 <= i < a.len() implies #[trigger] a[i] != c by {
                if i < a.len() - 1 {
                    assert(a.drop_last()[i] == a[i]);
                }
            }
        }
    }
}

/// Whether `a` is what is left of `b` when some of its characters are taken
/// out.
pub open spec fn left_of(a: Seq<char>, b: Seq<char>) -> bool
    decreases b.len(),
{
    ||| a.len() == 0
    ||| b.len() > 0 && a.last() == b.last() && left_of(a.drop_last(), b.drop_last())
    ||| b.len() > 0 && left_of(a, b.drop_last())
}

pub proof fn lemma_left_of_itself(a: Seq<char>)
    ensures
        left_of(a, a),
    decreases a.len(),
{
    if a.len() > 0 {
        lemma_left_of_itself(a.drop_last());
    }
}

pub proof fn lemma_left_of_parts(a1: Seq<char>, b1: Seq<char>, a2: Seq<char>, b2: Seq<char>)
    requires
        left_of(a1, b1),
        left_of(a2, b2),
    ensures
        left_of(a1 + a2, b1 + b2),
    decreases b2.len(),
{
    if b2.len() == 0 {
        assert(a1 + a2 == a1);
        assert(b1 + b2 == b1);
    } else {
        let b = b1 + b2;
        assert(b.drop_last() == b1 + b2.drop_last());
        if a2.len() > 0 && a2.last() == b2.last() && left_of(a2.drop_last(), b2.drop_last()) {
            lemma_left_of_parts(a1, b1, a2.drop_last(), b2.drop_last());
            assert((a1 + a2).drop_last() == a1 + a2.drop_last());
        } else {
            lemma_left_of_parts(a1, b1, a2, b2.drop_last());
        }
    }
}

pub proof fn lemma_left_of_left(a: Seq<char>, b: Seq<char>, c: Seq<char>)
    requires
        left_of(a, b),
        left_of(b, c),
    ensures
        left_of(a, c),
    decreases c.len(),
{
    if a.len() > 0 && b.len() > 0 && c.len() > 0 {
        if b.last() == c.last() && left_of(b.drop_last(), c.drop_last()) {
            if a.last() == b.last() && left_of(a.drop_last(), b.drop_last()) {
                lemma_left_of_left(a.drop_last(), b.drop_last(), c.drop_last());
            } else {
                lemma_left_of_left(a, b.drop_last(), c.drop_last());
            }
        } else {
            lemma_left_of_left(a, b, c.drop_last());
        }
    }
}

/// A start of a text is left of it.
pub proof fn lemma_left_of_prefix(a: Seq<char>, s: Seq<char>)
    requires
        a.is_prefix_of(s),
    ensures
        left_of(a, s),
{
    let n = a.len() as int;
    lemma_left_of_itself(a);
    lemma_left_of_parts(a, a, Seq::empty(), s.skip(n));
    assert(a + Seq::<char>::empty() == a);
    assert(a + s.skip(n) == s);
}

/// A text without its first characters is left of it.
pub proof fn lemma_left_of_skip(s: Seq<char>, n: int)
    requires
        0 <= n <= s.len(),
    ensures
        left_of(s.skip(n), s),
{
    lemma_left_of_itself(s.skip(n));
    assert(left_of(Seq::<char>::empty(), s.take(n)));
    lemma_left_of_parts(Seq::empty(), s.take(n), s.skip(n), s.skip(n));
    assert(Seq::<char>::empty() + s.skip(n) == s.skip(n));
    assert(s.take(n) + s.skip(n) == s);
}

/// The length of a text in bytes of UTF-8.
pub open spec fn byte_len(s: Seq<char>) -> nat {
    encode_utf8(s).len()
}

/// The bytes that a character takes in UTF-8.
pub open spec fn width(c: char) -> nat {
    encode_scalar(c as u32).len()
}

pub proof fn lemma_encode_parts(a: Seq<char>, b: Seq<char>)
    ensures
        encode_utf8(a + b) == encode_utf8(a) + encode_utf8(b),
    decreases a.len(),
{
    if a.len() == 0 {
        assert(a + b == b);
        assert(encode_utf8(a) + encode_utf8(b) == encode_utf8(b));
    } else {
        lemma_encode_parts(a.drop_first(), b);
        assert((a + b).drop_first() == a.drop_first() + b);
        assert(encode_utf8(a + b) == encode_utf8(a) + encode_utf8(b));
    }
}

pub proof fn lemma_byte_len_step(s: Seq<char>, i: int)
    requires
        0 <= i < s.len(),
    ensures
        byte_len(s.take(i + 1)) == byte_len(s.take(i)) + width(s[i]),
        1 <= width(s[i]) <= 4,
{
    let one = seq![s[i]];
    assert(s.take(i + 1) == s.take(i) + one);
    lemma_encode_parts(s.take(i), one);
    reveal_with_fuel(encode_utf8, 2);
    assert(one.drop_first() == Seq::<char>::empty());
}

/// A longer start of a text takes more bytes.
pub proof fn lemma_byte_len_grows(s: Seq<char>, i: int, j: int)
    requires
        0 <= i <= j <= s.len(),
    ensures
        byte_len(s.take(i)) + (j - i) <= byte_len(s.take(j)),
    decreases j - i,
{
    if i < j {
        lemma_byte_len_grows(s, i, j - 1);
        lemma_byte_len_step(s, j - 1);
    }
}

pub fn char_width(c: char) -> (r: usize)
    ensures
        r == width(c),
        1 <= r <= 4,
{
    let u: u32 = c as u32;
    if u <= 0x7f {
        1
    } else if u <= 0x7ff {
        2
    } else if u <= 0xffff {
        3
    } else {
        4
    }
}

/// The character position at a byte position.
pub fn char_index(s: &[char], offset: usize) -> (r: usize)
    requires
        exists|k: int| 0 <= k <= s@.len() && byte_len(#[trigger] s@.take(k)) == offset,
    ensures
        r <= s@.len(),
        byte_len(s@.take(r as int)) == offset,
        forall|k: int|
            0 <= k <= s@.len() && byte_len(#[trigger] s@.take(k)) == offset ==> k == r,
{
    let ghost k = choose|k: int| 0 <= k <= s@.len() && byte_len(#[trigger] s@.take(k)) == offset;
    let mut i: usize = 0;
    let mut at: usize = 0;
    assert(s@.take(0) == Seq::<char>::empty());
    while at < offset
        invariant
            i <= k <= s@.len(),
            byte_len(s@.take(k)) == offset,
            at == byte_len(s@.take(i as int)),
            at <= offset,
        decreases offset - at,
    {
        proof {
            if i == k {
                assert(false);
            }
            lemma_byte_len_step(s@, i as int);
            lemma_byte_len_grows(s@, i + 1, k);
        }
        at += char_width(s[i]);
        i += 1;
    }
    assert forall|j: int| 0 <= j <= s@.len() && byte_len(#[trigger] s@.take(j)) == offset implies j
        == i by {
        if j < i {
            lemma_byte_len_grows(s@, j, i as int);
        } else {
            lemma_byte_len_grows(s@, i as int, j);
        }
    }
    i
}

/// Whether two texts are the same up to ASCII case.
pub open spec fn same_caseless(a: Seq<char>, b: Seq<char>) -> bool {
    a.len() == b.len() && forall|i: int|
        0 <= i < a.len() ==> chars::same_ascii_caseless(#[trigger] a[i], b[i])
}

pub fn lower_ascii(c: char) -> (r: char)
    ensures
        r == chars::ascii_lower(c),
{
    if 'A' <= c && c <= 'Z' {
        let u: u8 = c as u8;
        (u + 32) as char
    } else {
        c
    }
}

pub fn same_but_case(a: &[char], b: &[char]) -> (r: bool)
    ensures
        r == same_caseless(a@, b@),
{
    if a.len() != b.len() {
        return false;
    }
    let mut i: usize = 0;
    while i < a.len()
        invariant
            i <= a.len(),
            a.len() == b.len(),
            forall|j: int| 0 <= j < i ==> chars::same_ascii_caseless(#[trigger] a@[j], b@[j]),
        decreases a.len() - i,
    {
        if lower_ascii(a[i]) != lower_ascii(b[i]) {
            assert(!chars::same_ascii_caseless(a@[i as int], b@[i as int]));
            return false;
        }
        i += 1;
    }
    true
}

/// A digit as a character.
pub open spec fn digit(d: int) -> char {
    (48 + d) as char
}

/// A number in decimal.
pub open spec fn decimal(n: nat) -> Seq<char>
    decreases n,
{
    if n < 10 {
        seq![digit(n as int)]
    } else {
        decimal(n / 10).push(digit((n % 10) as int))
    }
}

fn digit_char(d: u8) -> (r: char)
    requires
        d < 10,
    ensures
        r == digit(d as int),
{
    (48u8 + d) as char
}

/// Writes a number in decimal.
pub fn decimal_chars(n: u64) -> (r: Vec<char>)
    ensures
        r@ == decimal(n as nat),
    decreases n,
{
    let last: u8 = (n % 10) as u8;
    if n < 10 {
        let mut out: Vec<char> = Vec::new();
        out.push(digit_char(last));
        assert(out@ =~= seq![digit(n as int)]);
        return out;
    }
    let mut out = decimal_chars(n / 10);
    out.push(digit_char(last));
    out
}

/// Writes a number in decimal.
pub fn decimal_text(n: u64) -> (r: String)
    ensures
        r@ == decimal(n as nat),
{
    let cs = decimal_chars(n);
    to_text(cs.as_slice())
}

} // verus!
