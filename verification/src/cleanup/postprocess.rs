//! Output modes, chosen per app.
//!
//! * `default` and `markdown` leave the text as it is.
//! * `plain` takes Markdown markup out, so that the text reads as prose. White
//!   space stays where it is.
//! * `code` turns the text into one identifier, if code mode was asked for.
use vstd::prelude::*;
use vstd::slice::slice_subrange;
use crate::chars;
use crate::text;
use crate::text::Class;

verus! {

#[derive(Debug, Clone, Copy, PartialEq, Eq, Structural)]
pub enum Mode {
    Default,
    Plain,
    Markdown,
    Code,
}

/// The mode with a given name; `Default` for a name that is none.
pub open spec fn mode_named(s: Seq<char>) -> Mode {
    if s == "plain"@ {
        Mode::Plain
    } else if s == "markdown"@ {
        Mode::Markdown
    } else if s == "code"@ {
        Mode::Code
    } else {
        Mode::Default
    }
}

impl Mode {
    /// The mode with a given name; `Default` for a name that is none.
    pub fn from_str(s: &str) -> (r: Self)
        ensures
            r == mode_named(s@),
    {
        if text::same_text(s, "plain") {
            Mode::Plain
        } else if text::same_text(s, "markdown") {
            Mode::Markdown
        } else if text::same_text(s, "code") {
            Mode::Code
        } else {
            Mode::Default
        }
    }
}

#[derive(Debug, Clone, Copy, PartialEq, Eq, Structural)]
pub enum CodeCase {
    Snake,
    Camel,
    Kebab,
}

/// The case with a given name; `Snake` for a name that is none.
pub open spec fn case_named(s: Seq<char>) -> CodeCase {
    if s == "camel"@ {
        CodeCase::Camel
    } else if s == "kebab"@ {
        CodeCase::Kebab
    } else {
        CodeCase::Snake
    }
}

impl CodeCase {
    /// The case with a given name; `Snake` for a name that is none.
    pub fn from_str(s: &str) -> (r: Self)
        ensures
            r == case_named(s@),
    {
        if text::same_text(s, "camel") {
            CodeCase::Camel
        } else if text::same_text(s, "kebab") {
            CodeCase::Kebab
        } else {
            CodeCase::Snake
        }
    }
}

/// The number of digits that `s` starts with.
pub open spec fn leading_digits(s: Seq<char>) -> nat
    decreases s.len(),
{
    if s.len() > 0 && chars::ascii_digit(s[0]) {
        1 + leading_digits(s.skip(1))
    } else {
        0
    }
}

/// A line without the marker of a list item: `- `, `* `, or a number, a full
/// stop and a space.
pub open spec fn without_list_marker(s: Seq<char>) -> Seq<char> {
    let n = leading_digits(s) as int;
    if s.len() >= 2 && (s[0] == '-' || s[0] == '*') && s[1] == ' ' {
        s.skip(2)
    } else if 0 < n && n + 1 < s.len() && s[n] == '.' && s[n + 1] == ' ' {
        s.skip(n + 2)
    } else {
        s
    }
}

/// A line without the marker of a quotation, `> `.
pub open spec fn without_quote_marker(s: Seq<char>) -> Seq<char> {
    if s.len() >= 2 && s[0] == '>' && s[1] == ' ' {
        s.skip(2)
    } else {
        s
    }
}

/// `s` without the markers that come in pairs; a marker left over at the end
/// stays.
pub open spec fn without_pairs(s: Seq<char>, marker: Seq<char>) -> Seq<char>
    decreases s.len(),
    when marker.len() > 0
{
    match text::first_of(s, marker) {
        None => s,
        Some(p) => {
            let after = s.skip(p + marker.len());
            match text::first_of(after, marker) {
                None => s,
                Some(q) => {
                    proof {
                        text::lemma_first_from_occurs(s, marker, 0);
                        text::lemma_first_from_occurs(after, marker, 0);
                    }
                    s.take(p) + after.take(q) + without_pairs(
                        after.skip(q + marker.len()),
                        marker,
                    )
                },
            }
        },
    }
}

/// Where `s` starts with a link, the positions at which its text and the
/// whole link end.
pub open spec fn link_at_start(s: Seq<char>) -> Option<(int, int)> {
    if s.len() == 0 || s[0] != '[' {
        None
    } else {
        match text::first_of(s, seq![']', '(']) {
            None => None,
            Some(p) => match text::first_of(s.skip(p + 2), seq![')']) {
                None => None,
                Some(q) => Some((p, p + 2 + q)),
            },
        }
    }
}

/// `s` with each link `[text](target)` replaced by its text.
pub open spec fn without_links(s: Seq<char>) -> Seq<char>
    decreases s.len(),
{
    if s.len() == 0 {
        s
    } else {
        proof {
            lemma_link_at_start(s);
        }
        match link_at_start(s) {
            Some((p, q)) => s.subrange(1, p) + without_links(s.skip(q + 1)),
            None => seq![s[0]] + without_links(s.skip(1)),
        }
    }
}

/// What stays of the start of a line: the blanks that indent it. Where the
/// number signs of a heading are among them, nothing does.
pub open spec fn indent(line: Seq<char>) -> Seq<char> {
    let lead = line.take(line.len() - text::trimmed_start(Class::HeadingLead, line).len());
    if lead.contains('#') {
        Seq::empty()
    } else {
        lead
    }
}

/// A line without its markup.
pub open spec fn plain_line(line: Seq<char>) -> Seq<char> {
    let lead = indent(line) + without_quote_marker(
        without_list_marker(text::trimmed_start(Class::HeadingLead, line)),
    );
    let bold = without_pairs(without_pairs(lead, seq!['*', '*']), seq!['_', '_']);
    let slanted = without_pairs(without_pairs(bold, seq!['*']), seq!['_']);
    without_links(without_pairs(slanted, seq!['`']))
}

/// What stands between the line feeds of a text.
pub open spec fn between_feeds(s: Seq<char>) -> Seq<Seq<char>> {
    text::parts(s, seq!['\n'])
}

/// A text without its markup. Every line feed stays.
pub open spec fn plain_text(s: Seq<char>) -> Seq<char> {
    text::joined(between_feeds(s).map_values(|l: Seq<char>| plain_line(l)), seq!['\n'])
}

/// A word with its first letter a capital.
pub open spec fn capitalised(word: Seq<char>) -> Seq<char> {
    if word.len() == 0 {
        word
    } else {
        chars::uppercase(seq![word[0]]) + word.skip(1)
    }
}

/// The words run together, each but the first with a capital.
pub open spec fn camel(words: Seq<Seq<char>>) -> Seq<char>
    decreases words.len(),
{
    if words.len() == 0 {
        Seq::empty()
    } else if words.len() == 1 {
        words[0]
    } else {
        camel(words.drop_last()) + capitalised(words.last())
    }
}

/// The runs of letters and digits of a text, in lower case.
pub open spec fn identifier_words(s: Seq<char>) -> Seq<Seq<char>> {
    text::fields(Class::NonAlphanumeric, s).map_values(|w: Seq<char>| chars::lowercase(w))
}

/// Words as one identifier.
pub open spec fn joined_in(words: Seq<Seq<char>>, case: CodeCase) -> Seq<char> {
    match case {
        CodeCase::Snake => text::joined(words, seq!['_']),
        CodeCase::Kebab => text::joined(words, seq!['-']),
        CodeCase::Camel => camel(words),
    }
}

/// The text as one identifier.
pub open spec fn identifier(s: Seq<char>, case: CodeCase) -> Seq<char> {
    joined_in(identifier_words(s), case)
}

/// A text with dashes for its underscores.
pub open spec fn with_dashes(s: Seq<char>) -> Seq<char> {
    s.map_values(
        |c: char|
            if c == '_' {
                '-'
            } else {
                c
            },
    )
}

/// The text as a mode leaves it.
pub open spec fn postprocessed(
    s: Seq<char>,
    mode: Mode,
    code_mode_active: bool,
    code_case: CodeCase,
) -> Seq<char> {
    match mode {
        Mode::Default => s,
        Mode::Markdown => s,
        Mode::Plain => plain_text(s),
        Mode::Code => if code_mode_active {
            identifier(s, code_case)
        } else {
            s
        },
    }
}

/// A link closes its text before it closes as a whole, inside the text.
pub proof fn lemma_link_at_start(s: Seq<char>)
    ensures
        link_at_start(s) matches Some((p, q)) ==> 1 <= p && p + 2 <= q < s.len(),
{
    text::lemma_first_from_occurs(s, seq![']', '('], 0);
    match text::first_of(s, seq![']', '(']) {
        Some(p) => {
            text::lemma_first_from_occurs(s.skip(p + 2), seq![')'], 0);
            assert(s.subrange(p, p + 2)[0] == s[p]);
        },
        None => {},
    }
}

fn strip_list_marker(s: &[char]) -> (r: &[char])
    ensures
        r@ == without_list_marker(s@),
{
    if s.len() >= 2 && (s[0] == '-' || s[0] == '*') && s[1] == ' ' {
        let r = slice_subrange(s, 2, s.len());
        assert(r@ == s@.skip(2));
        return r;
    }
    let mut n: usize = 0;
    assert(s@.skip(0) == s@);
    while n < s.len() && chars::is_ascii_digit(s[n])
        invariant
            n <= s.len(),
            leading_digits(s@) == n + leading_digits(s@.skip(n as int)),
        decreases s.len() - n,
    {
        assert(s@.skip(n as int).skip(1) == s@.skip(n + 1));
        n += 1;
    }
    if 0 < n && n < s.len() && n + 1 < s.len() && s[n] == '.' && s[n + 1] == ' ' {
        let r = slice_subrange(s, n + 2, s.len());
        assert(r@ == s@.skip(n + 2));
        return r;
    }
    s
}

fn strip_quote_marker(s: &[char]) -> (r: &[char])
    ensures
        r@ == without_quote_marker(s@),
{
    if s.len() >= 2 && s[0] == '>' && s[1] == ' ' {
        let r = slice_subrange(s, 2, s.len());
        assert(r@ == s@.skip(2));
        return r;
    }
    s
}

fn strip_paired(s: &[char], marker: &[char]) -> (r: Vec<char>)
    requires
        marker.len() > 0,
    ensures
        r@ == without_pairs(s@, marker@),
{
    let mut out: Vec<char> = Vec::new();
    let mut at: usize = 0;
    assert(s@.skip(0) == s@);
    loop
        invariant_except_break
            at <= s.len(),
            marker.len() > 0,
            without_pairs(s@, marker@) == out@ + without_pairs(s@.skip(at as int), marker@),
        ensures
            out@ == without_pairs(s@, marker@),
        decreases s.len() - at,
    {
        let rest = slice_subrange(s, at, s.len());
        assert(rest@ == s@.skip(at as int));
        let mut pair: Option<(usize, usize)> = None;
        if let Some(p) = text::find(rest, marker) {
            let after = slice_subrange(rest, p + marker.len(), rest.len());
            assert(after@ == rest@.skip(p + marker@.len()));
            if let Some(q) = text::find(after, marker) {
                pair = Some((p, q));
            }
        }
        match pair {
            None => {
                text::append(&mut out, rest);
                break;
            },
            Some((p, q)) => {
                let ghost before = out@;
                let after = slice_subrange(rest, p + marker.len(), rest.len());
                assert(after@ == rest@.skip(p + marker@.len()));
                text::append(&mut out, slice_subrange(rest, 0, p));
                text::append(&mut out, slice_subrange(after, 0, q));
                let next: usize = at + p + marker.len() + q + marker.len();
                assert(after@.skip(q + marker@.len()) == s@.skip(next as int));
                assert(out@ == before + (rest@.take(p as int) + after@.take(q as int)));
                assert(before + (rest@.take(p as int) + after@.take(q as int) + without_pairs(
                    s@.skip(next as int),
                    marker@,
                )) == out@ + without_pairs(s@.skip(next as int), marker@));
                at = next;
            },
        }
    }
    out
}

fn strip_links(s: &[char]) -> (r: Vec<char>)
    ensures
        r@ == without_links(s@),
{
    let middle = text::two_chars(']', '(');
    let end = text::one_char(')');
    let mut out: Vec<char> = Vec::new();
    let mut at: usize = 0;
    assert(s@.skip(0) == s@);
    while at < s.len()
        invariant
            at <= s.len(),
            middle@ == seq![']', '('],
            end@ == seq![')'],
            without_links(s@) == out@ + without_links(s@.skip(at as int)),
        decreases s.len() - at,
    {
        let rest = slice_subrange(s, at, s.len());
        assert(rest@ == s@.skip(at as int));
        let ghost before = out@;
        let mut link: Option<(usize, usize)> = None;
        if rest[0] == '[' {
            if let Some(p) = text::find(rest, middle.as_slice()) {
                let target = slice_subrange(rest, p + 2, rest.len());
                assert(target@ == rest@.skip(p + 2));
                if let Some(q) = text::find(target, end.as_slice()) {
                    link = Some((p, p + 2 + q));
                }
            }
        }
        proof {
            lemma_link_at_start(rest@);
        }
        match link {
            Some((p, q)) => {
                text::append(&mut out, slice_subrange(rest, 1, p));
                assert(rest@.skip(q + 1) == s@.skip(at + q + 1));
                assert(before + (rest@.subrange(1, p as int) + without_links(
                    s@.skip(at + q + 1),
                )) == out@ + without_links(s@.skip(at + q + 1)));
                at = at + q + 1;
            },
            None => {
                out.push(rest[0]);
                assert(rest@.skip(1) == s@.skip(at + 1));
                assert(before + (seq![rest@[0]] + without_links(s@.skip(at + 1))) == out@
                    + without_links(s@.skip(at + 1)));
                at = at + 1;
            },
        }
    }
    assert(out@ == without_links(s@));
    out
}

fn holds(s: &[char], c: char) -> (r: bool)
    ensures
        r == s@.contains(c),
{
    let mut i: usize = 0;
    while i < s.len()
        invariant
            i <= s.len(),
            forall|j: int| 0 <= j < i ==> s@[j] != c,
        decreases s.len() - i,
    {
        if s[i] == c {
            assert(s@[i as int] == c);
            return true;
        }
        i += 1;
    }
    false
}

/// What is left of a text trimmed at its start is its end.
proof fn lemma_trimmed_start_is_rest(k: Class, s: Seq<char>)
    ensures
        text::trimmed_start(k, s).len() <= s.len(),
        text::trimmed_start(k, s) == s.skip(s.len() - text::trimmed_start(k, s).len()),
    decreases s.len(),
{
    let t = text::trimmed_start(k, s);
    if s.len() > 0 && k.has(s[0]) {
        lemma_trimmed_start_is_rest(k, s.skip(1));
        assert(s.skip(1).skip(s.len() - 1 - t.len()) =~= s.skip(s.len() - t.len()));
    } else {
        assert(s.skip(0) =~= s);
    }
}

fn strip_markdown_line(line: &[char]) -> (r: Vec<char>)
    ensures
        r@ == plain_line(line@),
{
    let rest = text::trim_start(Class::HeadingLead, line);
    proof {
        lemma_trimmed_start_is_rest(Class::HeadingLead, line@);
    }
    let n: usize = line.len() - rest.len();
    let lead = slice_subrange(line, 0, n);
    assert(lead@ == line@.take(n as int));
    let mut open: Vec<char> = Vec::new();
    if !holds(lead, '#') {
        text::append(&mut open, lead);
    }
    assert(open@ == indent(line@));
    text::append(&mut open, strip_quote_marker(strip_list_marker(rest)));
    let a = strip_paired(open.as_slice(), text::two_chars('*', '*').as_slice());
    let b = strip_paired(a.as_slice(), text::two_chars('_', '_').as_slice());
    let c = strip_paired(b.as_slice(), text::one_char('*').as_slice());
    let d = strip_paired(c.as_slice(), text::one_char('_').as_slice());
    let e = strip_paired(d.as_slice(), text::one_char('`').as_slice());
    strip_links(e.as_slice())
}

fn strip_markdown(s: &[char]) -> (r: Vec<char>)
    ensures
        r@ == plain_text(s@),
{
    let feed = text::one_char('\n');
    let lines = text::split_parts(s, feed.as_slice());
    let ghost all = between_feeds(s@).map_values(|l: Seq<char>| plain_line(l));
    let mut out: Vec<Vec<char>> = Vec::new();
    let mut i: usize = 0;
    assert(text::rows(out@) =~= all.take(0));
    while i < lines.len()
        invariant
            i <= lines.len(),
            text::rows(lines@) == between_feeds(s@),
            all == between_feeds(s@).map_values(|l: Seq<char>| plain_line(l)),
            text::rows(out@) == all.take(i as int),
        decreases lines.len() - i,
    {
        let ghost before = out@;
        assert(between_feeds(s@)[i as int] == lines@[i as int]@);
        let cleaned = strip_markdown_line(lines[i].as_slice());
        out.push(cleaned);
        assert(text::rows(out@) =~= text::rows(before).push(cleaned@));
        assert(all.take(i + 1) =~= all.take(i as int).push(all[i as int]));
        i += 1;
    }
    assert(all.take(i as int) =~= all);
    text::join(&out, feed.as_slice())
}

fn capitalise(word: &[char]) -> (r: Vec<char>)
    ensures
        r@ == capitalised(word@),
{
    if word.len() == 0 {
        return text::copied(word);
    }
    let first = text::one_char(word[0]);
    let mut r = text::upper(first.as_slice());
    let rest = slice_subrange(word, 1, word.len());
    assert(rest@ == word@.skip(1));
    text::append(&mut r, rest);
    r
}

fn join_camel(words: &Vec<Vec<char>>) -> (r: Vec<char>)
    ensures
        r@ == camel(text::rows(words@)),
{
    let ghost all = text::rows(words@);
    let mut out: Vec<char> = Vec::new();
    let mut i: usize = 0;
    while i < words.len()
        invariant
            i <= words.len(),
            all == text::rows(words@),
            out@ == camel(all.take(i as int)),
        decreases words.len() - i,
    {
        assert(all.take(i + 1).drop_last() == all.take(i as int));
        assert(all.take(i + 1).last() == words@[i as int]@);
        if i == 0 {
            text::append(&mut out, words[0].as_slice());
        } else {
            let w = capitalise(words[i].as_slice());
            text::append(&mut out, w.as_slice());
        }
        i += 1;
    }
    assert(all.take(i as int) == all);
    out
}

/// Makes one identifier of words in lower case.
pub fn join_words_in(words: &Vec<Vec<char>>, case: CodeCase) -> (r: Vec<char>)
    ensures
        r@ == joined_in(text::rows(words@), case),
{
    match case {
        CodeCase::Snake => text::join(words, text::one_char('_').as_slice()),
        CodeCase::Kebab => text::join(words, text::one_char('-').as_slice()),
        CodeCase::Camel => join_camel(words),
    }
}

/// The text as one identifier. A kebab-case one is the snake-case one with
/// dashes for underscores, whatever the text.
fn to_code_case(s: &[char], case: CodeCase) -> (r: Vec<char>)
    ensures
        r@ == identifier(s@, case),
        case is Kebab ==> r@ == with_dashes(identifier(s@, CodeCase::Snake)),
        case is Snake ==> with_dashes(r@) == identifier(s@, CodeCase::Kebab),
{
    let runs = text::split_fields(Class::NonAlphanumeric, s);
    let ghost all = identifier_words(s@);
    proof {
        text::lemma_fields(Class::NonAlphanumeric, s@);
    }
    let mut words: Vec<Vec<char>> = Vec::new();
    let mut i: usize = 0;
    while i < runs.len()
        invariant
            i <= runs.len(),
            text::rows(runs@) == text::fields(Class::NonAlphanumeric, s@),
            forall|j: int, k: int|
                0 <= j < runs@.len() && 0 <= k < text::rows(runs@)[j].len()
                    ==> !Class::NonAlphanumeric.has(#[trigger] text::rows(runs@)[j][k]),
            all == identifier_words(s@),
            text::rows(words@) == all.take(i as int),
            forall|j: int| 0 <= j < i ==> !(#[trigger] all[j]).contains('_'),
        decreases runs.len() - i,
    {
        let w = text::lower(runs[i].as_slice());
        assert(text::rows(runs@)[i as int] == runs@[i as int]@);
        assert(!runs@[i as int]@.contains('_')) by {
            assert(Class::NonAlphanumeric.has('_'));
        }
        let ghost before = words@;
        words.push(w);
        assert(all[i as int] == w@);
        assert(text::rows(words@) == text::rows(before).push(w@));
        i += 1;
    }
    assert(all.take(i as int) == all);
    proof {
        assert forall|j: int, k: int| 0 <= j < all.len() && 0 <= k < all[j].len() implies
            #[trigger] all[j][k] != '_' by {
            assert(!all[j].contains('_'));
        }
        law_kebab_is_snake_with_dashes(s@);
    }
    join_words_in(&words, case)
}

/// Applies an output mode. `code_mode_active` says that the speaker asked for
/// code; without it the `Code` mode leaves the text as it is. A kebab-case
/// identifier is the snake-case one with dashes for underscores, whatever the
/// text.
pub fn apply(text: &str, mode: Mode, code_mode_active: bool, code_case: CodeCase) -> (r: String)
    ensures
        r@ == postprocessed(text@, mode, code_mode_active, code_case),
        mode is Code && code_mode_active && code_case is Kebab ==> r@ == with_dashes(
            postprocessed(text@, mode, code_mode_active, CodeCase::Snake),
        ),
        mode is Code && code_mode_active && code_case is Snake ==> with_dashes(r@)
            == postprocessed(text@, mode, code_mode_active, CodeCase::Kebab),
{
    match mode {
        Mode::Default => text.to_owned(),
        Mode::Markdown => text.to_owned(),
        Mode::Plain => {
            let cs = text::to_chars(text);
            let r = strip_markdown(cs.as_slice());
            text::to_text(r.as_slice())
        },
        Mode::Code => {
            if code_mode_active {
                let cs = text::to_chars(text);
                let r = to_code_case(cs.as_slice(), code_case);
                text::to_text(r.as_slice())
            } else {
                text.to_owned()
            }
        },
    }
}

proof fn lemma_pairs_only_remove(s: Seq<char>, marker: Seq<char>)
    requires
        marker.len() > 0,
    ensures
        text::left_of(without_pairs(s, marker), s),
    decreases s.len(),
{
    text::lemma_left_of_itself(s);
    match text::first_of(s, marker) {
        None => {},
        Some(p) => {
            let after = s.skip(p + marker.len());
            match text::first_of(after, marker) {
                None => {},
                Some(q) => {
                    text::lemma_first_from_occurs(s, marker, 0);
                    text::lemma_first_from_occurs(after, marker, 0);
                    let end = q + marker.len();
                    let rest = after.skip(end);
                    lemma_pairs_only_remove(rest, marker);
                    text::lemma_left_of_itself(s.take(p));
                    text::lemma_left_of_itself(after.take(q));
                    // s is: head, marker, inner, marker, rest
                    text::lemma_left_of_parts(
                        s.take(p),
                        s.take(p),
                        Seq::empty(),
                        s.subrange(p, p + marker.len()),
                    );
                    text::lemma_left_of_parts(
                        s.take(p) + Seq::empty(),
                        s.take(p) + s.subrange(p, p + marker.len()),
                        after.take(q),
                        after.take(q),
                    );
                    text::lemma_left_of_parts(
                        s.take(p) + Seq::empty() + after.take(q),
                        s.take(p) + s.subrange(p, p + marker.len()) + after.take(q),
                        Seq::empty(),
                        after.subrange(q, end),
                    );
                    let a = s.take(p) + Seq::empty() + after.take(q) + Seq::empty();
                    let b = s.take(p) + s.subrange(p, p + marker.len()) + after.take(q)
                        + after.subrange(q, end);
                    text::lemma_left_of_parts(a, b, without_pairs(rest, marker), rest);
                    assert(a == s.take(p) + after.take(q));
                    assert(b + rest == s);
                },
            }
        },
    }
}

proof fn lemma_links_only_remove(s: Seq<char>)
    ensures
        text::left_of(without_links(s), s),
    decreases s.len(),
{
    if s.len() > 0 {
        lemma_link_at_start(s);
        match link_at_start(s) {
            Some((p, q)) => {
                let rest = s.skip(q + 1);
                lemma_links_only_remove(rest);
                text::lemma_left_of_itself(s.subrange(1, p));
                text::lemma_left_of_parts(
                    Seq::empty(),
                    s.take(1),
                    s.subrange(1, p),
                    s.subrange(1, p),
                );
                text::lemma_left_of_parts(
                    Seq::empty() + s.subrange(1, p),
                    s.take(1) + s.subrange(1, p),
                    Seq::empty(),
                    s.subrange(p, q + 1),
                );
                let a = Seq::empty() + s.subrange(1, p) + Seq::empty();
                let b = s.take(1) + s.subrange(1, p) + s.subrange(p, q + 1);
                text::lemma_left_of_parts(a, b, without_links(rest), rest);
                assert(a == s.subrange(1, p));
                assert(b + rest == s);
            },
            None => {
                lemma_links_only_remove(s.skip(1));
                text::lemma_left_of_itself(seq![s[0]]);
                text::lemma_left_of_parts(
                    seq![s[0]],
                    seq![s[0]],
                    without_links(s.skip(1)),
                    s.skip(1),
                );
                assert(seq![s[0]] + s.skip(1) == s);
            },
        }
    }
}

/// Taking the markup out of a line takes characters out and does nothing else.
pub proof fn law_plain_line_only_removes(line: Seq<char>)
    ensures
        text::left_of(plain_line(line), line),
{
    let r0 = text::trimmed_start(Class::HeadingLead, line);
    lemma_trimmed_start_is_rest(Class::HeadingLead, line);
    let r1 = without_list_marker(r0);
    lemma_leading_digits(r0);
    assert(text::left_of(r1, r0)) by {
        text::lemma_left_of_itself(r0);
        let n = leading_digits(r0) as int;
        if r0.len() >= 2 {
            text::lemma_left_of_skip(r0, 2);
        }
        if n + 2 <= r0.len() {
            text::lemma_left_of_skip(r0, n + 2);
        }
    }
    let r2 = without_quote_marker(r1);
    assert(text::left_of(r2, r1)) by {
        text::lemma_left_of_itself(r1);
        if r1.len() >= 2 {
            text::lemma_left_of_skip(r1, 2);
        }
    }
    text::lemma_left_of_left(r2, r1, r0);
    let lead = line.take(line.len() - r0.len());
    text::lemma_left_of_itself(lead);
    text::lemma_left_of_parts(indent(line), lead, r2, r0);
    assert(lead + r0 =~= line);
    let s2 = indent(line) + r2;
    let s3 = without_pairs(s2, seq!['*', '*']);
    lemma_pairs_only_remove(s2, seq!['*', '*']);
    text::lemma_left_of_left(s3, s2, line);
    let s4 = without_pairs(s3, seq!['_', '_']);
    lemma_pairs_only_remove(s3, seq!['_', '_']);
    text::lemma_left_of_left(s4, s3, line);
    let s5 = without_pairs(s4, seq!['*']);
    lemma_pairs_only_remove(s4, seq!['*']);
    text::lemma_left_of_left(s5, s4, line);
    let s6 = without_pairs(s5, seq!['_']);
    lemma_pairs_only_remove(s5, seq!['_']);
    text::lemma_left_of_left(s6, s5, line);
    let s7 = without_pairs(s6, seq!['`']);
    lemma_pairs_only_remove(s6, seq!['`']);
    text::lemma_left_of_left(s7, s6, line);
    lemma_links_only_remove(s7);
    text::lemma_left_of_left(without_links(s7), s7, line);
}

proof fn lemma_leading_digits(s: Seq<char>)
    ensures
        leading_digits(s) <= s.len(),
    decreases s.len(),
{
    if s.len() > 0 && chars::ascii_digit(s[0]) {
        lemma_leading_digits(s.skip(1));
    }
}

/// The plain mode only takes characters out of the text. It writes none that
/// is not there and changes no order.
pub proof fn law_plain_only_removes(s: Seq<char>, active: bool, case: CodeCase)
    ensures
        text::left_of(postprocessed(s, Mode::Plain, active, case), s),
{
    let lines = between_feeds(s);
    let plain = lines.map_values(|l: Seq<char>| plain_line(l));
    assert forall|i: int| 0 <= i < plain.len() implies text::left_of(#[trigger] plain[i], lines[i]) by {
        law_plain_line_only_removes(lines[i]);
    }
    text::lemma_left_of_joined(plain, lines, seq!['\n']);
    text::lemma_joined_parts(s, seq!['\n']);
}

/// The plain mode leaves the lines where they are: what stands between the
/// line feeds of the result is what stood between those of the text, each
/// without its markup.
pub proof fn law_plain_keeps_line_feeds(s: Seq<char>, active: bool, case: CodeCase)
    ensures
        between_feeds(postprocessed(s, Mode::Plain, active, case)) == between_feeds(s).map_values(
            |l: Seq<char>| plain_line(l),
        ),
{
    let lines = between_feeds(s);
    let plain = lines.map_values(|l: Seq<char>| plain_line(l));
    text::lemma_joined_parts(s, seq!['\n']);
    text::lemma_parts_without(s, '\n');
    assert forall|j: int, i: int| 0 <= j < plain.len() && 0 <= i < plain[j].len() implies #[trigger] plain[j][i]
        != '\n' by {
        let line = lines[j];
        assert forall|x: int| 0 <= x < line.len() implies #[trigger] line[x] != '\n' by {
            assert(lines[j][x] != '\n');
        }
        law_plain_line_only_removes(line);
        text::lemma_left_of_without(plain_line(line), line, '\n');
    }
    text::lemma_parts_of_joined(plain, '\n');
}

/// A text none of whose lines holds markup comes out of the plain mode as it
/// went in, with all its white space.
pub proof fn law_text_without_markup_stays(s: Seq<char>, active: bool, case: CodeCase)
    requires
        forall|i: int|
            0 <= i < between_feeds(s).len() ==> without_markup(#[trigger] between_feeds(s)[i]),
    ensures
        postprocessed(s, Mode::Plain, active, case) == s,
{
    let lines = between_feeds(s);
    let plain = lines.map_values(|l: Seq<char>| plain_line(l));
    assert forall|i: int| 0 <= i < plain.len() implies #[trigger] plain[i] == lines[i] by {
        assert(without_markup(lines[i]));
        law_line_without_markup_stays(lines[i]);
    }
    assert(plain =~= lines);
    text::lemma_joined_parts(s, seq!['\n']);
}

/// Whether a line holds no markup: none of the characters that mark headings,
/// emphasis, code and links, and behind its indentation no marker of a list
/// item or a quotation.
pub open spec fn without_markup(line: Seq<char>) -> bool {
    let rest = text::trimmed_start(Class::HeadingLead, line);
    &&& forall|i: int|
        0 <= i < line.len() ==> {
            let c = #[trigger] line[i];
            c != '#' && c != '*' && c != '_' && c != '`' && c != '['
        }
    &&& without_list_marker(rest) == rest
    &&& without_quote_marker(rest) == rest
}

proof fn lemma_no_pairs(s: Seq<char>, marker: Seq<char>)
    requires
        marker.len() > 0,
        forall|i: int| 0 <= i < s.len() ==> #[trigger] s[i] != marker[0],
    ensures
        without_pairs(s, marker) == s,
{
    text::lemma_first_from_occurs(s, marker, 0);
    if let Some(p) = text::first_of(s, marker) {
        assert(s.subrange(p, p + marker.len())[0] == s[p]);
    }
}

proof fn lemma_no_links(s: Seq<char>)
    requires
        forall|i: int| 0 <= i < s.len() ==> #[trigger] s[i] != '[',
    ensures
        without_links(s) == s,
    decreases s.len(),
{
    if s.len() > 0 {
        let t = s.skip(1);
        assert forall|i: int| 0 <= i < t.len() implies #[trigger] t[i] != '[' by {
            assert(s[i + 1] != '[');
        }
        assert(s[0] != '[');
        lemma_no_links(t);
        assert(seq![s[0]] + t =~= s);
    }
}

/// A line that holds no markup stays as it is, its indentation too.
pub proof fn law_line_without_markup_stays(line: Seq<char>)
    requires
        without_markup(line),
    ensures
        plain_line(line) == line,
{
    let rest = text::trimmed_start(Class::HeadingLead, line);
    lemma_trimmed_start_is_rest(Class::HeadingLead, line);
    let lead = line.take(line.len() - rest.len());
    assert(!lead.contains('#')) by {
        if lead.contains('#') {
            let i = choose|i: int| 0 <= i < lead.len() && lead[i] == '#';
            assert(line[i] == '#');
        }
    }
    assert(lead + rest =~= line);
    lemma_no_pairs(line, seq!['*', '*']);
    lemma_no_pairs(line, seq!['_', '_']);
    lemma_no_pairs(line, seq!['*']);
    lemma_no_pairs(line, seq!['_']);
    lemma_no_pairs(line, seq!['`']);
    lemma_no_links(line);
}

/// Unless the speaker asked for code, the `Code` mode does what the default
/// mode does: nothing.
pub proof fn law_code_waits_for_its_activator(s: Seq<char>, case: CodeCase)
    ensures
        postprocessed(s, Mode::Code, false, case) == postprocessed(s, Mode::Default, false, case),
        postprocessed(s, Mode::Default, false, case) == s,
{
}

/// Words joined with one mark are the words joined with another, mark by mark.
proof fn lemma_joined_marks(ws: Seq<Seq<char>>, a: char, b: char)
    requires
        forall|j: int, i: int|
            0 <= j < ws.len() && 0 <= i < ws[j].len() ==> #[trigger] ws[j][i] != a,
    ensures
        text::joined(ws, seq![b]) == text::joined(ws, seq![a]).map_values(
            |c: char|
                if c == a {
                    b
                } else {
                    c
                },
        ),
    decreases ws.len(),
{
    let f = |c: char|
        if c == a {
            b
        } else {
            c
        };
    if ws.len() > 0 {
        let n = ws.len() - 1;
        let d = ws.drop_last();
        assert forall|j: int, i: int| 0 <= j < d.len() && 0 <= i < d[j].len() implies #[trigger] d[j][i]
            != a by {
            assert(ws[j][i] != a);
        }
        assert forall|i: int| 0 <= i < ws[n].len() implies f(#[trigger] ws[n][i]) == ws[n][i] by {}
        assert(ws[n].map_values(f) =~= ws[n]);
        lemma_joined_marks(d, a, b);
        if ws.len() > 1 {
            let head = text::joined(d, seq![a]);
            assert((head + seq![a] + ws[n]).map_values(f) =~= head.map_values(f) + seq![b] + ws[n]);
        }
    }
}

/// A kebab-case identifier is the snake-case one with dashes for underscores,
/// as lower case brings none in: see [`apply`], which states it of any text.
pub proof fn law_kebab_is_snake_with_dashes(s: Seq<char>)
    requires
        forall|j: int, i: int|
            0 <= j < identifier_words(s).len() && 0 <= i < identifier_words(s)[j].len()
                ==> #[trigger] identifier_words(s)[j][i] != '_',
    ensures
        identifier(s, CodeCase::Kebab) == with_dashes(identifier(s, CodeCase::Snake)),
{
    lemma_joined_marks(identifier_words(s), '_', '-');
}

/// Whether a character is one of an ASCII word in lower case: a small letter
/// or a digit.
pub open spec fn plain_word_char(c: char) -> bool {
    chars::ascii_lower_letter(c) || chars::ascii_digit(c)
}

/// Whether words are of small letters and digits, and none is empty.
pub open spec fn plain_words(ws: Seq<Seq<char>>) -> bool {
    &&& forall|j: int| 0 <= j < ws.len() ==> (#[trigger] ws[j]).len() > 0
    &&& forall|j: int, i: int|
        0 <= j < ws.len() && 0 <= i < ws[j].len() ==> plain_word_char(#[trigger] ws[j][i])
}

/// The identifier words of ASCII text are of small letters and digits, and are
/// its letters and digits in lower case, in order.
proof fn lemma_ascii_identifier_words(s: Seq<char>)
    requires
        chars::all_ascii(s),
    ensures
        plain_words(identifier_words(s)),
        identifier_words(s).len() == 0 <==> forall|i: int|
            0 <= i < s.len() ==> !chars::alphanumeric(#[trigger] s[i]),
        text::joined(identifier_words(s), Seq::empty()) == s.filter(
            |c: char| chars::ascii_letter(c) || chars::ascii_digit(c),
        ).map_values(|c: char| chars::ascii_lower(c)),
{
    let k = Class::NonAlphanumeric;
    let ws = text::fields(k, s);
    let lws = identifier_words(s);
    let f = |c: char| chars::ascii_lower(c);
    text::lemma_fields(k, s);
    text::lemma_fields_ascii(k, s);
    text::lemma_no_fields(k, s);
    text::lemma_fields_joined(k, s);
    assert forall|j: int| 0 <= j < lws.len() implies #[trigger] lws[j] == ws[j].map_values(f) by {
        assert(chars::all_ascii(ws[j]));
    }
    assert forall|j: int, i: int| 0 <= j < lws.len() && 0 <= i < lws[j].len() implies plain_word_char(
        #[trigger] lws[j][i],
    ) by {
        assert(lws[j] == ws[j].map_values(f));
        assert(chars::all_ascii(ws[j]));
        assert(chars::ascii(ws[j][i]));
        assert(!k.has(ws[j][i]));
        lemma_ascii_lower(ws[j][i]);
    }
    assert forall|j: int| 0 <= j < lws.len() implies (#[trigger] lws[j]).len() > 0 by {
        assert(ws[j].len() > 0);
        assert(lws[j] == ws[j].map_values(f));
    }
    lemma_joined_mapped(ws, lws, f);
    let p = |c: char| !k.has(c);
    let q = |c: char| chars::ascii_letter(c) || chars::ascii_digit(c);
    lemma_same_filter(s, p, q);
    if lws.len() == 0 {
        assert forall|i: int| 0 <= i < s.len() implies !chars::alphanumeric(#[trigger] s[i]) by {
            assert(k.has(s[i]));
        }
    } else if forall|i: int| 0 <= i < s.len() ==> !chars::alphanumeric(#[trigger] s[i]) {
        assert forall|i: int| 0 <= i < s.len() implies k.has(#[trigger] s[i]) by {
            assert(!chars::alphanumeric(s[i]));
        }
    }
}

proof fn lemma_ascii_lower(c: char)
    requires
        chars::ascii_letter(c) || chars::ascii_digit(c),
    ensures
        plain_word_char(chars::ascii_lower(c)),
        plain_word_char(c) ==> chars::ascii_lower(c) == c,
{
}

proof fn lemma_joined_mapped(a: Seq<Seq<char>>, b: Seq<Seq<char>>, f: spec_fn(char) -> char)
    requires
        a.len() == b.len(),
        forall|j: int| 0 <= j < b.len() ==> #[trigger] b[j] == a[j].map_values(f),
    ensures
        text::joined(b, Seq::empty()) == text::joined(a, Seq::empty()).map_values(f),
    decreases a.len(),
{
    let none = Seq::<char>::empty();
    if a.len() > 0 {
        let n = a.len() - 1;
        assert(b[n] == a[n].map_values(f));
        let c = a.drop_last();
        let d = b.drop_last();
        assert forall|j: int| 0 <= j < d.len() implies #[trigger] d[j] == c[j].map_values(f) by {
            assert(b[j] == a[j].map_values(f));
        }
        lemma_joined_mapped(c, d, f);
        if n > 0 {
            let head = text::joined(c, none);
            assert((head + none + a[n]).map_values(f) =~= head.map_values(f) + none + b[n]);
        }
    } else {
        assert(none.map_values(f) =~= none);
    }
}

proof fn lemma_same_filter(s: Seq<char>, p: spec_fn(char) -> bool, q: spec_fn(char) -> bool)
    requires
        forall|i: int| 0 <= i < s.len() ==> p(#[trigger] s[i]) == q(s[i]),
    ensures
        s.filter(p) == s.filter(q),
    decreases s.len(),
{
    reveal(Seq::filter);
    if s.len() > 0 {
        let t = s.drop_last();
        assert forall|i: int| 0 <= i < t.len() implies p(#[trigger] t[i]) == q(t[i]) by {
            assert(p(s[i]) == q(s[i]));
        }
        lemma_same_filter(t, p, q);
        assert(p(s[s.len() - 1]) == q(s[s.len() - 1]));
    }
}

proof fn lemma_filter_all(s: Seq<char>, p: spec_fn(char) -> bool)
    requires
        forall|i: int| 0 <= i < s.len() ==> p(#[trigger] s[i]),
    ensures
        s.filter(p) == s,
    decreases s.len(),
{
    reveal(Seq::filter);
    if s.len() > 0 {
        let t = s.drop_last();
        assert forall|i: int| 0 <= i < t.len() implies p(#[trigger] t[i]) by {
            assert(p(s[i]));
        }
        lemma_filter_all(t, p);
        assert(p(s[s.len() - 1]));
        assert(t.push(s.last()) =~= s);
    }
}

proof fn lemma_filter_more(s: Seq<char>, t: Seq<char>, p: spec_fn(char) -> bool)
    ensures
        (s + t).filter(p) == s.filter(p) + t.filter(p),
    decreases t.len(),
{
    reveal(Seq::filter);
    if t.len() == 0 {
        assert(s + t =~= s);
        assert(s.filter(p) + t.filter(p) =~= s.filter(p));
    } else {
        let u = t.drop_last();
        assert((s + t).drop_last() =~= s + u);
        lemma_filter_more(s, u, p);
        if p(t.last()) {
            assert(s.filter(p) + u.filter(p).push(t.last()) =~= (s.filter(p) + u.filter(p)).push(
                t.last(),
            ));
        }
    }
}

/// Whether a text is a snake-case identifier: small letters, digits and
/// underscores, with no underscore first, last, or beside another.
pub open spec fn snake_shaped(r: Seq<char>) -> bool {
    &&& forall|i: int| 0 <= i < r.len() ==> (plain_word_char(#[trigger] r[i]) || r[i] == '_')
    &&& r.len() > 0 ==> r[0] != '_' && r.last() != '_'
    &&& forall|i: int| 0 < i < r.len() && #[trigger] r[i] == '_' ==> r[i - 1] != '_'
}

proof fn lemma_snake_joined(ws: Seq<Seq<char>>)
    requires
        plain_words(ws),
    ensures
        snake_shaped(text::joined(ws, seq!['_'])),
        text::joined(ws, seq!['_']).len() == 0 <==> ws.len() == 0,
        text::joined(ws, seq!['_']).filter(|c: char| c != '_') == text::joined(ws, Seq::empty()),
    decreases ws.len(),
{
    let none = Seq::<char>::empty();
    let p = |c: char| c != '_';
    let r = text::joined(ws, seq!['_']);
    reveal(Seq::filter);
    if ws.len() > 0 {
        let n = ws.len() - 1;
        let w = ws[n];
        let d = ws.drop_last();
        assert forall|j: int| 0 <= j < d.len() implies (#[trigger] d[j]).len() > 0 by {
            assert(ws[j].len() > 0);
        }
        assert forall|j: int, i: int| 0 <= j < d.len() && 0 <= i < d[j].len() implies plain_word_char(
            #[trigger] d[j][i],
        ) by {
            assert(plain_word_char(ws[j][i]));
        }
        lemma_snake_joined(d);
        assert(w.len() > 0);
        assert forall|i: int| 0 <= i < w.len() implies plain_word_char(#[trigger] w[i]) by {
            assert(plain_word_char(ws[n][i]));
        }
        lemma_filter_all(w, p);
        if n > 0 {
            let head = text::joined(d, seq!['_']);
            assert(r == head + seq!['_'] + w);
            assert forall|i: int| 0 <= i < r.len() implies (plain_word_char(#[trigger] r[i]) || r[i]
                == '_') by {
                if i < head.len() {
                    assert(r[i] == head[i]);
                } else if i > head.len() {
                    assert(r[i] == w[i - head.len() - 1]);
                }
            }
            assert forall|i: int| 0 < i < r.len() && #[trigger] r[i] == '_' implies r[i - 1] != '_' by {
                if i < head.len() {
                    assert(r[i] == head[i] && r[i - 1] == head[i - 1]);
                } else if i == head.len() {
                    assert(r[i - 1] == head.last());
                } else {
                    assert(r[i] == w[i - head.len() - 1]);
                }
            }
            assert(r[0] == head[0]);
            assert(r.last() == w.last());
            lemma_filter_more(head + seq!['_'], w, p);
            lemma_filter_more(head, seq!['_'], p);
            assert(seq!['_'].filter(p) =~= none) by {
                reveal_with_fuel(Seq::filter, 2);
                assert(seq!['_'].drop_last() =~= none);
            }
            assert(head.filter(p) + none + w =~= text::joined(ws, none));
        } else {
            assert(r == w);
        }
    }
}

/// What an identifier in snake case of ASCII text is: small letters, digits and
/// single underscores between them; empty only for a text without letters and
/// digits; without its underscores the letters and digits of the text, in lower
/// case and in order. Made an identifier again, it stays as it is; with dashes
/// it is the kebab-case identifier.
pub proof fn law_snake_of_ascii(s: Seq<char>)
    requires
        chars::all_ascii(s),
    ensures
        snake_shaped(identifier(s, CodeCase::Snake)),
        identifier(s, CodeCase::Snake).len() == 0 <==> forall|i: int|
            0 <= i < s.len() ==> !chars::alphanumeric(#[trigger] s[i]),
        identifier(s, CodeCase::Snake).filter(|c: char| c != '_') == s.filter(
            |c: char| chars::ascii_letter(c) || chars::ascii_digit(c),
        ).map_values(|c: char| chars::ascii_lower(c)),
        identifier(identifier(s, CodeCase::Snake), CodeCase::Snake) == identifier(
            s,
            CodeCase::Snake,
        ),
        identifier(s, CodeCase::Kebab) == with_dashes(identifier(s, CodeCase::Snake)),
{
    let k = Class::NonAlphanumeric;
    let ws = identifier_words(s);
    lemma_ascii_identifier_words(s);
    lemma_snake_joined(ws);
    assert forall|j: int, i: int| 0 <= j < ws.len() && 0 <= i < ws[j].len() implies #[trigger] ws[j][i]
        != '_' && !k.has(ws[j][i]) by {
        assert(plain_word_char(ws[j][i]));
    }
    law_kebab_is_snake_with_dashes(s);
    text::lemma_fields_of_joined(k, ws, '_');
    let r = identifier(s, CodeCase::Snake);
    assert(identifier_words(r) =~= ws) by {
        assert forall|j: int| 0 <= j < ws.len() implies chars::lowercase(#[trigger] ws[j]) == ws[j] by {
            assert forall|i: int| 0 <= i < ws[j].len() implies chars::ascii(#[trigger] ws[j][i])
                && chars::ascii_lower(ws[j][i]) == ws[j][i] by {
                assert(plain_word_char(ws[j][i]));
            }
            assert(ws[j].map_values(|c: char| chars::ascii_lower(c)) =~= ws[j]);
        }
    }
}

} // verus!
