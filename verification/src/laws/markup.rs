//! Markdown markup that is taken out of a text.
use vstd::prelude::*;
use crate::cleanup::postprocess;
use crate::cleanup::postprocess::{CodeCase, Mode};
use crate::laws;
use crate::text;
use crate::text::Class;

verus! {

/// The text without its markup.
pub open spec fn plain(s: Seq<char>) -> Seq<char> {
    postprocess::postprocessed(s, Mode::Plain, false, CodeCase::Snake)
}

/// The modes that leave a text as it is, and those that do not care for the
/// case of identifiers.
pub proof fn law_modes(s: Seq<char>, active: bool, case: CodeCase)
    ensures
        postprocess::postprocessed(s, Mode::Default, active, case) == s,
        postprocess::postprocessed(s, Mode::Markdown, active, case) == s,
        postprocess::postprocessed(s, Mode::Code, false, case) == s,
        postprocess::postprocessed(s, Mode::Plain, active, case) == plain(s),
{
}

/// The modes and the cases go by their names, and any other name is that of
/// the first.
pub proof fn law_names(s: Seq<char>)
    ensures
        postprocess::mode_named("plain"@) == Mode::Plain,
        postprocess::mode_named("markdown"@) == Mode::Markdown,
        postprocess::mode_named("code"@) == Mode::Code,
        s != "plain"@ && s != "markdown"@ && s != "code"@ ==> postprocess::mode_named(s)
            == Mode::Default,
        postprocess::case_named("camel"@) == CodeCase::Camel,
        postprocess::case_named("kebab"@) == CodeCase::Kebab,
        s != "camel"@ && s != "kebab"@ ==> postprocess::case_named(s) == CodeCase::Snake,
{
    reveal_strlit("plain");
    reveal_strlit("markdown");
    reveal_strlit("code");
    reveal_strlit("camel");
    reveal_strlit("kebab");
    assert("camel"@[0] != "kebab"@[0]);
    assert("plain"@.len() == 5 && "markdown"@.len() == 8 && "code"@.len() == 4);
}

/// Markup is taken out line by line, and every line feed stays.
pub proof fn law_line_by_line(line: Seq<char>, rest: Seq<char>)
    requires
        !line.contains('\n'),
    ensures
        plain(line) == postprocess::plain_line(line),
        plain(line + seq!['\n'] + rest) == postprocess::plain_line(line) + seq!['\n'] + plain(rest),
{
    let feed = seq!['\n'];
    let s = line + feed + rest;
    let f = |l: Seq<char>| postprocess::plain_line(l);
    assert forall|i: int| 0 <= i < line.len() implies #[trigger] line.subrange(i, i + 1)
        != feed by {
        assert(line.subrange(i, i + 1)[0] == line[i]);
        assert(line.contains(line[i]));
    }
    laws::text::law_parts(line, feed, 0);
    assert(text::parts(line, feed).map_values(f) =~= seq![f(line)]);
    laws::text::law_joined_few(f(line), feed);
    let p = line.len() as int;
    assert(s.subrange(p, p + 1) =~= feed);
    assert forall|i: int| 0 <= i < p implies #[trigger] s.subrange(i, i + 1) != feed by {
        assert(s.subrange(i, i + 1)[0] == line[i]);
        assert(line.contains(line[i]));
    }
    laws::text::law_parts(s, feed, p);
    assert(s.take(p) =~= line);
    assert(s.skip(p + 1) =~= rest);
    let others = text::parts(rest, feed);
    text::lemma_joined_parts(rest, feed);
    assert(text::parts(s, feed).map_values(f) =~= seq![f(line)] + others.map_values(f));
    laws::text::law_joined_of_parts(seq![f(line)], others.map_values(f), feed);
}

/// Markers go in pairs: the first in the text and the first behind it, with
/// what stands between them kept, and then those of the rest.
pub proof fn law_pair_goes(s: Seq<char>, marker: Seq<char>, p: int, q: int)
    requires
        marker.len() > 0,
        0 <= p,
        p + marker.len() <= q,
        q + marker.len() <= s.len(),
        s.subrange(p, p + marker.len()) == marker,
        forall|i: int| 0 <= i < p ==> #[trigger] s.subrange(i, i + marker.len()) != marker,
        s.subrange(q, q + marker.len()) == marker,
        forall|i: int|
            p + marker.len() <= i < q ==> #[trigger] s.subrange(i, i + marker.len()) != marker,
    ensures
        postprocess::without_pairs(s, marker) == s.take(p) + s.subrange(p + marker.len(), q)
            + postprocess::without_pairs(s.skip(q + marker.len()), marker),
{
    let n = marker.len();
    text::lemma_first_from_occurs(s, marker, 0);
    assert(text::occurs_at(s, marker, p));
    let x = text::first_of(s, marker)->0;
    assert(x == p) by {
        if x < p {
            assert(s.subrange(x, x + n) == marker);
        }
    }
    let after = s.skip(p + n);
    let y = q - p - n;
    text::lemma_first_from_occurs(after, marker, 0);
    assert(after.subrange(y, y + n) =~= s.subrange(q, q + n));
    assert(text::occurs_at(after, marker, y));
    let z = text::first_of(after, marker)->0;
    assert(z == y) by {
        if z < y {
            assert(after.subrange(z, z + n) =~= s.subrange(p + n + z, p + n + z + n));
        }
    }
    assert(after.take(y) =~= s.subrange(p + n, q));
    assert(after.skip(y + n) =~= s.skip(q + n));
}

/// A text in which no two markers stand, one behind the other, stays.
pub proof fn law_single_marker_stays(s: Seq<char>, marker: Seq<char>)
    requires
        marker.len() > 0,
        forall|p: int, q: int|
            0 <= p && p + marker.len() <= q && q + marker.len() <= s.len()
                && #[trigger] text::occurs_at(s, marker, p) ==> !#[trigger] text::occurs_at(
                s,
                marker,
                q,
            ),
    ensures
        postprocess::without_pairs(s, marker) == s,
{
    let n = marker.len();
    text::lemma_first_from_occurs(s, marker, 0);
    if let Some(p) = text::first_of(s, marker) {
        let after = s.skip(p + n);
        text::lemma_first_from_occurs(after, marker, 0);
        if let Some(z) = text::first_of(after, marker) {
            assert(after.subrange(z, z + n) =~= s.subrange(p + n + z, p + n + z + n));
            assert(text::occurs_at(s, marker, p));
            assert(text::occurs_at(s, marker, p + n + z));
        }
    }
}

/// A link gives way to its text, up to the first `](`, and its target goes, up
/// to the first bracket that closes it; then come the links of the rest.
pub proof fn law_link_goes(label: Seq<char>, target: Seq<char>, rest: Seq<char>)
    requires
        forall|i: int|
            0 <= i < label.len() ==> !(#[trigger] label[i] == ']' && (i + 1 < label.len()
                ==> label[i + 1] == '(')),
        !target.contains(')'),
    ensures
        postprocess::without_links(
            seq!['['] + label + seq![']', '('] + target + seq![')'] + rest,
        ) == label + postprocess::without_links(rest),
{
    let pat = seq![']', '('];
    let s = seq!['['] + label + pat + target + seq![')'] + rest;
    let p = label.len() as int + 1;
    let q = p + 2 + target.len();
    text::lemma_first_from_occurs(s, pat, 0);
    assert(s.subrange(p, p + 2) =~= pat);
    assert(text::occurs_at(s, pat, p));
    let x = text::first_of(s, pat)->0;
    assert(x == p) by {
        if x < p {
            assert(s.subrange(x, x + 2)[0] == s[x]);
            assert(s.subrange(x, x + 2)[1] == s[x + 1]);
            if x > 0 {
                assert(s[x] == label[x - 1]);
                if x < label.len() {
                    assert(s[x + 1] == label[x]);
                }
            }
        }
    }
    let after = s.skip(p + 2);
    text::lemma_first_from_occurs(after, seq![')'], 0);
    let y = target.len() as int;
    assert(after.subrange(y, y + 1) =~= seq![')']);
    assert(text::occurs_at(after, seq![')'], y));
    let z = text::first_of(after, seq![')'])->0;
    assert(z == y) by {
        if z < y {
            assert(after.subrange(z, z + 1)[0] == target[z]);
            assert(target.contains(target[z]));
        }
    }
    assert(s.subrange(1, p) =~= label);
    assert(s.skip(q + 1) =~= rest);
}

/// A character that opens no link stays.
pub proof fn law_other_character_stays(c: char, rest: Seq<char>)
    requires
        c != '[' || forall|i: int, j: int|
            0 <= i && i + 2 <= j < rest.len() && #[trigger] rest[i] == ']' && rest[i + 1] == '('
                ==> #[trigger] rest[j] != ')',
    ensures
        postprocess::without_links(seq![c] + rest) == seq![c] + postprocess::without_links(rest),
        postprocess::without_links(Seq::empty()) == Seq::<char>::empty(),
{
    let s = seq![c] + rest;
    let pat = seq![']', '('];
    assert(s.skip(1) =~= rest);
    if c == '[' {
        text::lemma_first_from_occurs(s, pat, 0);
        if let Some(p) = text::first_of(s, pat) {
            assert(s.subrange(p, p + 2)[0] == s[p]);
            assert(s.subrange(p, p + 2)[1] == s[p + 1]);
            let after = s.skip(p + 2);
            text::lemma_first_from_occurs(after, seq![')'], 0);
            if let Some(z) = text::first_of(after, seq![')']) {
                assert(after.subrange(z, z + 1)[0] == after[z]);
                assert(rest[p - 1] == ']' && rest[p] == '(');
                assert(rest[p + 1 + z] == ')');
            }
        }
    }
}

/// Whether a line starts with the number signs or spaces of a heading.
pub open spec fn starts_heading(s: Seq<char>) -> bool {
    s.len() > 0 && (s[0] == '#' || s[0] == ' ')
}

/// Whether a line starts with the marker of a list item, which is of `n`
/// characters.
pub open spec fn starts_item(s: Seq<char>, n: int) -> bool {
    &&& 2 <= n <= s.len()
    &&& s[n - 1] == ' '
    &&& ({
        ||| (n == 2 && (s[0] == '-' || s[0] == '*'))
        ||| (n >= 3 && s[n - 2] == '.' && forall|i: int|
            0 <= i < n - 2 ==> 48 <= #[trigger] s[i] as u32 <= 57)
    })
}

/// The markup inside a line: bold before italics, each kind with asterisks
/// before underscores, then code, then links.
pub open spec fn inner(s: Seq<char>) -> Seq<char> {
    let a = postprocess::without_pairs(s, seq!['*', '*']);
    let b = postprocess::without_pairs(a, seq!['_', '_']);
    let c = postprocess::without_pairs(b, seq!['*']);
    let d = postprocess::without_pairs(c, seq!['_']);
    postprocess::without_links(postprocess::without_pairs(d, seq!['`']))
}

proof fn lemma_digit(c: char)
    ensures
        crate::chars::ascii_digit(c) <==> 48 <= c as u32 <= 57,
{
}

proof fn lemma_leading_digits(s: Seq<char>, n: int)
    requires
        0 <= n <= s.len(),
        forall|i: int| 0 <= i < n ==> 48 <= #[trigger] s[i] as u32 <= 57,
        n < s.len() ==> !crate::chars::ascii_digit(s[n]),
    ensures
        postprocess::leading_digits(s) == n,
    decreases n,
{
    if n > 0 {
        assert(48 <= s[0] as u32 <= 57);
        lemma_digit(s[0]);
        let t = s.skip(1);
        assert forall|i: int| 0 <= i < n - 1 implies 48 <= #[trigger] t[i] as u32 <= 57 by {
            assert(48 <= s[i + 1] as u32 <= 57);
        }
        lemma_leading_digits(t, n - 1);
    }
}

proof fn lemma_item(s: Seq<char>, n: int)
    requires
        starts_item(s, n),
    ensures
        postprocess::without_list_marker(s) == s.skip(n),
{
    if n >= 3 && s[n - 2] == '.' && (forall|i: int|
        0 <= i < n - 2 ==> 48 <= #[trigger] s[i] as u32 <= 57) {
        lemma_leading_digits(s, n - 2);
        assert(48 <= s[0] as u32 <= 57);
    } else {
        assert(n == 2);
    }
}

proof fn lemma_digits_lead(s: Seq<char>)
    ensures
        postprocess::leading_digits(s) <= s.len(),
        forall|i: int|
            0 <= i < postprocess::leading_digits(s) ==> 48 <= #[trigger] s[i] as u32 <= 57,
    decreases s.len(),
{
    if s.len() > 0 && crate::chars::ascii_digit(s[0]) {
        lemma_digit(s[0]);
        lemma_digits_lead(s.skip(1));
        assert forall|i: int| 0 <= i < postprocess::leading_digits(s) implies 48
            <= #[trigger] s[i] as u32 <= 57 by {
            if i > 0 {
                assert(s.skip(1)[i - 1] == s[i]);
            }
        }
    }
}

proof fn lemma_no_item(s: Seq<char>)
    requires
        forall|n: int| !#[trigger] starts_item(s, n),
    ensures
        postprocess::without_list_marker(s) == s,
{
    lemma_digits_lead(s);
    let n = postprocess::leading_digits(s) as int;
    assert(!starts_item(s, 2));
    assert(!starts_item(s, n + 2));
}

/// A line that starts with no marker keeps its start, and loses the markup
/// inside it.
pub proof fn law_line_without_markers(line: Seq<char>)
    requires
        !starts_heading(line),
        forall|n: int| !#[trigger] starts_item(line, n),
        !(line.len() >= 2 && line[0] == '>' && line[1] == ' '),
    ensures
        postprocess::plain_line(line) == inner(line),
{
    lemma_no_item(line);
    let none = Seq::<char>::empty();
    laws::text::law_trimmed_start(Class::HeadingLead, none, line);
    assert(none + line =~= line);
    assert(line.take(0) =~= none);
    assert(postprocess::indent(line) =~= none);
    assert(none + line =~= line);
}

/// The number signs of a heading go, with the spaces around them.
pub proof fn law_heading_goes(lead: Seq<char>, rest: Seq<char>)
    requires
        forall|i: int| 0 <= i < lead.len() ==> #[trigger] lead[i] == '#' || lead[i] == ' ',
        lead.contains('#'),
        !starts_heading(rest),
    ensures
        postprocess::plain_line(lead + rest) == postprocess::plain_line(rest),
{
    let none = Seq::<char>::empty();
    assert forall|i: int| 0 <= i < lead.len() implies Class::HeadingLead.has(#[trigger] lead[i]) by {
        assert(lead[i] == '#' || lead[i] == ' ');
    }
    laws::text::law_trimmed_start(Class::HeadingLead, lead, rest);
    laws::text::law_trimmed_start(Class::HeadingLead, none, rest);
    assert(none + rest =~= rest);
    assert((lead + rest).take(lead.len() as int) =~= lead);
    assert(rest.take(0) =~= none);
}

/// The marker of a list item goes: a dash or an asterisk and a space, or a
/// number of any length, a full stop and a space.
pub proof fn law_item_marker_goes(line: Seq<char>, n: int)
    requires
        starts_item(line, n),
        !starts_heading(line.skip(n)),
        forall|m: int| !#[trigger] starts_item(line.skip(n), m),
    ensures
        postprocess::plain_line(line) == postprocess::plain_line(line.skip(n)),
{
    let none = Seq::<char>::empty();
    let rest = line.skip(n);
    lemma_item(line, n);
    lemma_no_item(rest);
    lemma_digit(line[0]);
    assert(!starts_heading(line));
    laws::text::law_trimmed_start(Class::HeadingLead, none, line);
    laws::text::law_trimmed_start(Class::HeadingLead, none, rest);
    assert(none + line =~= line);
    assert(none + rest =~= rest);
    assert(line.take(0) =~= none);
    assert(rest.take(0) =~= none);
    assert(postprocess::indent(line) =~= none);
    assert(postprocess::indent(rest) =~= none);
}

/// The marker of a quotation goes, once.
pub proof fn law_quote_marker_goes(rest: Seq<char>)
    requires
        !starts_heading(rest),
        forall|m: int| !#[trigger] starts_item(rest, m),
        !(rest.len() >= 2 && rest[0] == '>' && rest[1] == ' '),
    ensures
        postprocess::plain_line(seq!['>', ' '] + rest) == postprocess::plain_line(rest),
{
    let none = Seq::<char>::empty();
    let line = seq!['>', ' '] + rest;
    law_line_without_markers(rest);
    assert forall|m: int| !#[trigger] starts_item(line, m) by {
        if m >= 3 {
            assert(line[0] == '>');
        }
    }
    lemma_no_item(line);
    laws::text::law_trimmed_start(Class::HeadingLead, none, line);
    assert(none + line =~= line);
    assert(line.take(0) =~= none);
    assert(postprocess::indent(line) =~= none);
    assert(line.skip(2) =~= rest);
    assert(none + rest =~= rest);
}

/// The spaces that indent a line stay, and what stands behind them loses its
/// markers as it would without them.
pub proof fn law_indent_stays(spaces: Seq<char>, rest: Seq<char>)
    requires
        forall|i: int| 0 <= i < spaces.len() ==> #[trigger] spaces[i] == ' ',
        !starts_heading(rest),
    ensures
        postprocess::plain_line(spaces + rest) == spaces + postprocess::plain_line(rest),
{
    let none = Seq::<char>::empty();
    let line = spaces + rest;
    assert forall|i: int| 0 <= i < spaces.len() implies Class::HeadingLead.has(
        #[trigger] spaces[i],
    ) by {
        assert(spaces[i] == ' ');
    }
    laws::text::law_trimmed_start(Class::HeadingLead, spaces, rest);
    laws::text::law_trimmed_start(Class::HeadingLead, none, rest);
    assert(none + rest =~= rest);
    assert(line.take(spaces.len() as int) =~= spaces);
    assert(rest.take(0) =~= none);
    assert(!spaces.contains('#')) by {
        if spaces.contains('#') {
            let i = spaces.index_of('#');
            assert(spaces[i] == ' ');
        }
    }
    assert(postprocess::indent(line) == spaces);
    assert(postprocess::indent(rest) =~= none);
    let body = postprocess::without_quote_marker(postprocess::without_list_marker(rest));
    assert(none + body =~= body);
    lemma_inner_behind_spaces(spaces, body);
}

proof fn lemma_inner_behind_spaces(spaces: Seq<char>, s: Seq<char>)
    requires
        forall|i: int| 0 <= i < spaces.len() ==> #[trigger] spaces[i] == ' ',
    ensures
        inner(spaces + s) == spaces + inner(s),
    decreases spaces.len(),
{
    if spaces.len() == 0 {
        assert(spaces + s =~= s);
        assert(spaces + inner(s) =~= inner(s));
    } else {
        let t = spaces.skip(1);
        assert forall|i: int| 0 <= i < t.len() implies #[trigger] t[i] == ' ' by {
            assert(spaces[i + 1] == ' ');
        }
        assert(spaces[0] == ' ');
        lemma_inner_behind_spaces(t, s);
        assert(spaces + s =~= seq![' '] + (t + s));
        assert(spaces + inner(s) =~= seq![' '] + (t + inner(s)));
        lemma_inner_behind_space(t + s);
    }
}

proof fn lemma_inner_behind_space(s: Seq<char>)
    ensures
        inner(seq![' '] + s) == seq![' '] + inner(s),
{
    let a = postprocess::without_pairs(s, seq!['*', '*']);
    let b = postprocess::without_pairs(a, seq!['_', '_']);
    let c = postprocess::without_pairs(b, seq!['*']);
    let d = postprocess::without_pairs(c, seq!['_']);
    let e = postprocess::without_pairs(d, seq!['`']);
    lemma_pairs_behind_space(s, seq!['*', '*']);
    lemma_pairs_behind_space(a, seq!['_', '_']);
    lemma_pairs_behind_space(b, seq!['*']);
    lemma_pairs_behind_space(c, seq!['_']);
    lemma_pairs_behind_space(d, seq!['`']);
    assert((seq![' '] + e).skip(1) =~= e);
}

proof fn lemma_pairs_behind_space(s: Seq<char>, marker: Seq<char>)
    requires
        marker.len() > 0,
        marker[0] != ' ',
    ensures
        postprocess::without_pairs(seq![' '] + s, marker) == seq![' ']
            + postprocess::without_pairs(s, marker),
{
    let t = seq![' '] + s;
    let n = marker.len();
    text::lemma_first_from_occurs(s, marker, 0);
    text::lemma_first_from_occurs(t, marker, 0);
    assert(!text::occurs_at(t, marker, 0)) by {
        if text::occurs_at(t, marker, 0) {
            assert(t.subrange(0, n as int)[0] == ' ');
        }
    }
    assert forall|i: int| 1 <= i implies #[trigger] text::occurs_at(t, marker, i)
        == text::occurs_at(s, marker, i - 1) by {
        if i + n <= t.len() {
            assert(t.subrange(i, i + n) =~= s.subrange(i - 1, i - 1 + n));
        }
    }
    match text::first_of(s, marker) {
        None => {
            if let Some(x) = text::first_of(t, marker) {
                assert(text::occurs_at(s, marker, x - 1));
            }
        },
        Some(p) => {
            assert(text::occurs_at(t, marker, p + 1) == text::occurs_at(s, marker, p));
            let x = text::first_of(t, marker)->0;
            assert(x == p + 1) by {
                if x < p + 1 {
                    assert(text::occurs_at(s, marker, x - 1));
                }
            }
            assert(t.skip(x + n) =~= s.skip(p + n));
            assert(t.take(x) =~= seq![' '] + s.take(p));
            let after = s.skip(p + n);
            if let Some(q) = text::first_of(after, marker) {
                let rest = postprocess::without_pairs(after.skip(q + n), marker);
                assert(seq![' '] + s.take(p) + after.take(q) + rest =~= seq![' '] + (s.take(p)
                    + after.take(q) + rest));
            }
        },
    }
}

} // verus!
