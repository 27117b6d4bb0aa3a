//! Trimming, splitting, joining and searching.
use vstd::prelude::*;
use crate::chars;
use crate::text;
use crate::text::Class;

verus! {

/// Whether every character of a text is of a class.
pub open spec fn all_of(k: Class, s: Seq<char>) -> bool {
    forall|i: int| 0 <= i < s.len() ==> k.has(#[trigger] s[i])
}

/// Whether no character of a text is of a class.
pub open spec fn none_of(k: Class, s: Seq<char>) -> bool {
    forall|i: int| 0 <= i < s.len() ==> !k.has(#[trigger] s[i])
}

/// Whether a text neither starts nor ends in a class.
pub open spec fn bare(k: Class, s: Seq<char>) -> bool {
    s.len() > 0 ==> !k.has(s[0]) && !k.has(s.last())
}

/// Which characters the classes hold. Punctuation is what ASCII prints, but
/// for letters, digits and the space.
pub proof fn law_classes(c: char)
    ensures
        Class::WhiteSpace.has(c) == chars::white_space(c),
        Class::Blank.has(c) <==> c == ' ' || c == '\t',
        Class::AsciiPunctuation.has(c) <==> 33 <= c as u32 <= 126 && !(48 <= c as u32 <= 57) && !(65
            <= c as u32 <= 90) && !(97 <= c as u32 <= 122),
        Class::HeadingLead.has(c) <==> c == '#' || c == ' ',
        c as u32 <= 127 ==> (Class::NonAlphanumeric.has(c) <==> !(48 <= c as u32 <= 57) && !(65
            <= c as u32 <= 90) && !(97 <= c as u32 <= 122)),
        c as u32 > 127 ==> Class::NonAlphanumeric.has(c) == !chars::unicode_alphanumeric(c),
        Class::PathSeparator.has(c) <==> c == '/' || c == '\\',
        Class::Slash.has(c) <==> c == '/',
        Class::LineBreak.has(c) <==> c == '\n' || c == '\r',
        Class::Star.has(c) <==> c == '*',
{
}

/// What trimming the end leaves: all but the characters of the class there.
pub proof fn law_trimmed_end(k: Class, body: Seq<char>, tail: Seq<char>)
    requires
        all_of(k, tail),
        body.len() > 0 ==> !k.has(body.last()),
    ensures
        text::trimmed_end(k, body + tail) == body,
    decreases tail.len(),
{
    if tail.len() == 0 {
        assert(body + tail =~= body);
    } else {
        let t = tail.drop_last();
        assert forall|i: int| 0 <= i < t.len() implies k.has(#[trigger] t[i]) by {
            assert(k.has(tail[i]));
        }
        assert(k.has(tail[tail.len() - 1]));
        assert((body + tail).drop_last() =~= body + t);
        law_trimmed_end(k, body, t);
    }
}

/// What trimming the start leaves: all but the characters of the class there.
pub proof fn law_trimmed_start(k: Class, head: Seq<char>, body: Seq<char>)
    requires
        all_of(k, head),
        body.len() > 0 ==> !k.has(body[0]),
    ensures
        text::trimmed_start(k, head + body) == body,
    decreases head.len(),
{
    if head.len() == 0 {
        assert(head + body =~= body);
    } else {
        let h = head.skip(1);
        assert forall|i: int| 0 <= i < h.len() implies k.has(#[trigger] h[i]) by {
            assert(k.has(head[i + 1]));
        }
        assert(k.has(head[0]));
        assert((head + body).skip(1) =~= h + body);
        law_trimmed_start(k, h, body);
    }
}

/// What trimming leaves: all but the characters of the class at either end.
pub proof fn law_trimmed(k: Class, head: Seq<char>, body: Seq<char>, tail: Seq<char>)
    requires
        all_of(k, head),
        all_of(k, tail),
        bare(k, body),
    ensures
        text::trimmed(k, head + body + tail) == body,
{
    if body.len() == 0 {
        let all = head + body + tail;
        assert forall|i: int| 0 <= i < all.len() implies k.has(#[trigger] all[i]) by {
            if i < head.len() {
                assert(k.has(head[i]));
            } else {
                assert(k.has(tail[i - head.len()]));
            }
        }
        law_trimmed_start(k, all, Seq::empty());
        assert(all + Seq::<char>::empty() =~= all);
        assert(text::trimmed_end(k, Seq::empty()) =~= Seq::empty());
        assert(body =~= Seq::empty());
    } else {
        assert(head + body + tail =~= head + (body + tail));
        law_trimmed_start(k, head, body + tail);
        law_trimmed_end(k, body, tail);
    }
}

/// Every text is what trimming leaves of it, between characters of the class.
pub proof fn lemma_trimmed_apart(k: Class, s: Seq<char>) -> (r: (Seq<char>, Seq<char>))
    ensures
        s == r.0 + text::trimmed(k, s) + r.1,
        all_of(k, r.0),
        all_of(k, r.1),
        bare(k, text::trimmed(k, s)),
    decreases s.len(),
{
    if s.len() > 0 && k.has(s[0]) {
        let (h, t) = lemma_trimmed_apart(k, s.skip(1));
        let head = seq![s[0]] + h;
        assert forall|i: int| 0 <= i < head.len() implies k.has(#[trigger] head[i]) by {
            if i > 0 {
                assert(k.has(h[i - 1]));
            }
        }
        let m = text::trimmed(k, s);
        assert(m == text::trimmed(k, s.skip(1)));
        assert(s =~= seq![s[0]] + s.skip(1));
        assert(s =~= head + m + t);
        (head, t)
    } else {
        text::lemma_trimmed_end(k, s);
        let m = text::trimmed_end(k, s);
        let t = s.skip(m.len() as int);
        assert forall|i: int| 0 <= i < t.len() implies k.has(#[trigger] t[i]) by {
            assert(k.has(s[i + m.len()]));
        }
        assert(s =~= Seq::empty() + m + t);
        (Seq::empty(), t)
    }
}

/// What trimming leaves is empty where the text is of nothing but the class,
/// and only there.
pub proof fn law_blank(k: Class, s: Seq<char>)
    ensures
        all_of(k, s) == (text::trimmed(k, s).len() == 0),
{
    let (h, t) = lemma_trimmed_apart(k, s);
    let m = text::trimmed(k, s);
    if m.len() > 0 {
        assert(s[h.len() as int] == m[0]);
    } else {
        assert forall|i: int| 0 <= i < s.len() implies k.has(#[trigger] s[i]) by {
            if i < h.len() {
                assert(s[i] == h[i]);
            } else {
                assert(s[i] == t[i - h.len()]);
            }
        }
    }
}

/// A text has no fields where it is empty, and one where it holds nothing of
/// the class.
pub proof fn law_one_field(k: Class, w: Seq<char>)
    requires
        none_of(k, w),
    ensures
        text::fields(k, w) == (if w.len() == 0 {
            Seq::<Seq<char>>::empty()
        } else {
            seq![w]
        }),
{
    assert(Seq::<char>::empty() + w =~= w);
    text::lemma_field_scan_more(k, Seq::empty(), w);
    assert(text::fields(k, w) =~= if w.len() == 0 {
        Seq::<Seq<char>>::empty()
    } else {
        seq![w]
    });
}

/// A character of the class parts a text: its fields are those before the
/// character, and then those behind it.
pub proof fn law_fields_of_parts(k: Class, a: Seq<char>, c: char, b: Seq<char>)
    requires
        k.has(c),
    ensures
        text::fields(k, a + seq![c] + b) == text::fields(k, a) + text::fields(k, b),
    decreases b.len(),
{
    lemma_scan_of_parts(k, a, c, b);
    let (done, open) = text::field_scan(k, b);
    assert(text::fields(k, a + seq![c] + b) =~= text::fields(k, a) + text::fields(k, b));
}

proof fn lemma_scan_of_parts(k: Class, a: Seq<char>, c: char, b: Seq<char>)
    requires
        k.has(c),
    ensures
        text::field_scan(k, a + seq![c] + b) == (
            text::fields(k, a) + text::field_scan(k, b).0,
            text::field_scan(k, b).1,
        ),
    decreases b.len(),
{
    let s = a + seq![c] + b;
    if b.len() == 0 {
        assert(s.drop_last() =~= a);
        assert(text::fields(k, a) + Seq::<Seq<char>>::empty() =~= text::fields(k, a));
    } else {
        assert(s.drop_last() =~= a + seq![c] + b.drop_last());
        lemma_scan_of_parts(k, a, c, b.drop_last());
        let (done, open) = text::field_scan(k, b.drop_last());
        if k.has(b.last()) {
            assert(text::flushed(text::fields(k, a) + done, open) =~= text::fields(k, a)
                + text::flushed(done, open));
        }
    }
}

/// A text of nothing but the class has no fields.
pub proof fn law_no_fields(k: Class, s: Seq<char>)
    requires
        all_of(k, s),
    ensures
        text::fields(k, s).len() == 0,
    decreases s.len(),
{
    if s.len() > 0 {
        let t = s.drop_last();
        assert forall|i: int| 0 <= i < t.len() implies k.has(#[trigger] t[i]) by {
            assert(k.has(s[i]));
        }
        law_no_fields(k, t);
        assert(k.has(s[s.len() - 1]));
        law_fields_of_parts(k, t, s.last(), Seq::empty());
        law_one_field(k, Seq::empty());
        assert(t + seq![s.last()] + Seq::<char>::empty() =~= s);
    }
}

/// Fields stay the same where characters of the class come before or behind.
pub proof fn law_fields_between(k: Class, head: Seq<char>, s: Seq<char>, tail: Seq<char>)
    requires
        all_of(k, head),
        all_of(k, tail),
    ensures
        text::fields(k, head + s + tail) == text::fields(k, s),
    decreases head.len() + tail.len(),
{
    law_one_field(k, Seq::empty());
    if tail.len() > 0 {
        let t = tail.drop_last();
        assert forall|i: int| 0 <= i < t.len() implies k.has(#[trigger] t[i]) by {
            assert(k.has(tail[i]));
        }
        assert(k.has(tail[tail.len() - 1]));
        law_fields_between(k, head, s, t);
        law_fields_of_parts(k, head + s + t, tail.last(), Seq::empty());
        assert(head + s + t + seq![tail.last()] + Seq::<char>::empty() =~= head + s + tail);
        assert(text::fields(k, s) + Seq::<Seq<char>>::empty() =~= text::fields(k, s));
    } else if head.len() > 0 {
        let h = head.skip(1);
        assert forall|i: int| 0 <= i < h.len() implies k.has(#[trigger] h[i]) by {
            assert(k.has(head[i + 1]));
        }
        assert(k.has(head[0]));
        law_fields_between(k, h, s, tail);
        law_fields_of_parts(k, Seq::empty(), head[0], h + s + tail);
        assert(Seq::<char>::empty() + seq![head[0]] + (h + s + tail) =~= head + s + tail);
        assert(Seq::<Seq<char>>::empty() + text::fields(k, s) =~= text::fields(k, s));
    } else {
        assert(head + s + tail =~= s);
    }
}

/// A run that stands between characters of the class, or at an end of the
/// text, is a field.
pub proof fn law_field_inside(k: Class, before: Seq<char>, w: Seq<char>, after: Seq<char>)
    requires
        w.len() > 0,
        none_of(k, w),
        before.len() > 0 ==> k.has(before.last()),
        after.len() > 0 ==> k.has(after[0]),
    ensures
        text::fields(k, before + w + after) == text::fields(k, before) + seq![w] + text::fields(
            k,
            after,
        ),
{
    let f = |s: Seq<char>| text::fields(k, s);
    let none = Seq::<Seq<char>>::empty();
    law_one_field(k, w);
    law_one_field(k, Seq::empty());
    let front = before + w;
    assert(f(front) == f(before) + seq![w]) by {
        if before.len() == 0 {
            assert(front =~= w);
            assert(before =~= Seq::empty());
            assert(none + seq![w] =~= seq![w]);
        } else {
            let b = before.drop_last();
            law_fields_of_parts(k, b, before.last(), w);
            law_fields_of_parts(k, b, before.last(), Seq::empty());
            assert(b + seq![before.last()] + w =~= front);
            assert(b + seq![before.last()] + Seq::<char>::empty() =~= before);
            assert(f(b) + none =~= f(b));
        }
    }
    if after.len() == 0 {
        assert(front + after =~= front);
        assert(after =~= Seq::empty());
        assert(f(front) + none =~= f(front));
    } else {
        let a = after.skip(1);
        law_fields_of_parts(k, front, after[0], a);
        law_fields_of_parts(k, Seq::empty(), after[0], a);
        assert(front + seq![after[0]] + a =~= front + after);
        assert(Seq::<char>::empty() + seq![after[0]] + a =~= after);
        assert(none + f(a) =~= f(a));
    }
}

/// The words of a text are its fields between white space.
pub proof fn law_words_of_parts(a: Seq<char>, c: char, b: Seq<char>)
    requires
        chars::white_space(c),
    ensures
        text::words(a + seq![c] + b) == text::words(a) + text::words(b),
{
    law_fields_of_parts(Class::WhiteSpace, a, c, b);
}

/// A text without white space is one word.
pub proof fn law_one_word(w: Seq<char>)
    requires
        w.len() > 0,
        none_of(Class::WhiteSpace, w),
    ensures
        text::words(w) == seq![w],
{
    law_one_field(Class::WhiteSpace, w);
}

/// A line feed parts a text into lines. A carriage return before it goes with
/// it.
pub proof fn law_lines_of_parts(line: Seq<char>, rest: Seq<char>)
    requires
        !line.contains('\n'),
    ensures
        line.len() > 0 ==> text::lines(line) == seq![line],
        text::lines(Seq::empty()) == Seq::<Seq<char>>::empty(),
        line.len() > 0 && line.last() == '\r' ==> text::lines(line + seq!['\n'] + rest)
            == seq![line.drop_last()] + text::lines(rest),
        line.len() == 0 || line.last() != '\r' ==> text::lines(line + seq!['\n'] + rest)
            == seq![line] + text::lines(rest),
{
    lemma_line_scan(line);
    lemma_line_scan_of_parts(line, rest);
    let (done, open) = text::line_scan(rest);
    let first = seq![text::without_return(line)];
    assert(text::flushed(first + done, open) =~= first + text::flushed(done, open));
    assert(Seq::<Seq<char>>::empty().push(line) =~= seq![line]);
}

proof fn lemma_line_scan(line: Seq<char>)
    requires
        !line.contains('\n'),
    ensures
        text::line_scan(line) == (Seq::<Seq<char>>::empty(), line),
    decreases line.len(),
{
    if line.len() > 0 {
        let t = line.drop_last();
        assert(!t.contains('\n')) by {
            if t.contains('\n') {
                let i = t.index_of('\n');
                assert(line[i] == '\n');
            }
        }
        lemma_line_scan(t);
        assert(line[line.len() - 1] != '\n') by {
            assert(line.contains(line[line.len() - 1]));
        }
        assert(t.push(line.last()) =~= line);
    }
}

proof fn lemma_line_scan_of_parts(line: Seq<char>, rest: Seq<char>)
    requires
        !line.contains('\n'),
    ensures
        text::line_scan(line + seq!['\n'] + rest) == (
            seq![text::without_return(line)] + text::line_scan(rest).0,
            text::line_scan(rest).1,
        ),
    decreases rest.len(),
{
    let s = line + seq!['\n'] + rest;
    if rest.len() == 0 {
        lemma_line_scan(line);
        assert(s.drop_last() =~= line);
        assert(seq![text::without_return(line)] =~= Seq::<Seq<char>>::empty().push(
            text::without_return(line),
        ));
        assert(seq![text::without_return(line)] + Seq::<Seq<char>>::empty() =~= seq![
            text::without_return(line),
        ]);
    } else {
        assert(s.drop_last() =~= line + seq!['\n'] + rest.drop_last());
        lemma_line_scan_of_parts(line, rest.drop_last());
        let (done, open) = text::line_scan(rest.drop_last());
        let first = seq![text::without_return(line)];
        assert((first + done).push(text::without_return(open)) =~= first + done.push(
            text::without_return(open),
        ));
    }
}

/// Joining two lists is joining each, with the separator between.
pub proof fn law_joined_of_parts(a: Seq<Seq<char>>, b: Seq<Seq<char>>, sep: Seq<char>)
    requires
        a.len() > 0,
        b.len() > 0,
    ensures
        text::joined(a + b, sep) == text::joined(a, sep) + sep + text::joined(b, sep),
    decreases b.len(),
{
    let all = a + b;
    assert(all.last() == b.last());
    assert(all.drop_last() =~= a + b.drop_last());
    if b.len() == 1 {
        assert(all.drop_last() =~= a);
        assert(text::joined(b, sep) == b.last());
    } else {
        law_joined_of_parts(a, b.drop_last(), sep);
        let x = text::joined(a, sep);
        let y = text::joined(b.drop_last(), sep);
        assert(x + sep + y + sep + b.last() =~= x + sep + (y + sep + b.last()));
    }
}

/// Nothing joined is nothing, and one text joined is itself.
pub proof fn law_joined_few(p: Seq<char>, sep: Seq<char>)
    ensures
        text::joined(Seq::empty(), sep) == Seq::<char>::empty(),
        text::joined(seq![p], sep) == p,
{
}

/// A search finds the first place at which the pattern stands, wherever there
/// is one.
pub proof fn law_first_of(s: Seq<char>, pat: Seq<char>, p: int)
    requires
        0 <= p,
        p + pat.len() <= s.len(),
        s.subrange(p, p + pat.len()) == pat,
    ensures
        text::first_of(s, pat) matches Some(q) && 0 <= q <= p && s.subrange(q, q + pat.len())
            == pat && forall|i: int|
            0 <= i < q ==> #[trigger] s.subrange(i, i + pat.len()) != pat,
{
    text::lemma_first_from_occurs(s, pat, 0);
    assert(text::occurs_at(s, pat, p));
    let q = text::first_of(s, pat)->0;
    assert forall|i: int| 0 <= i < q implies #[trigger] s.subrange(i, i + pat.len()) != pat by {
        assert(!text::occurs_at(s, pat, i));
    }
}

/// What a search gives back is a place at which the pattern stands.
pub proof fn law_first_of_is_a_place(s: Seq<char>, pat: Seq<char>)
    ensures
        text::first_of(s, pat) matches Some(q) ==> 0 <= q && q + pat.len() <= s.len()
            && s.subrange(q, q + pat.len()) == pat,
{
    text::lemma_first_from_occurs(s, pat, 0);
}

/// A text is parted at the first place at which the pattern stands, and then
/// the rest of it is; where it stands nowhere, the text is one part.
pub proof fn law_parts(s: Seq<char>, pat: Seq<char>, p: int)
    requires
        pat.len() > 0,
    ensures
        (forall|i: int|
            0 <= i <= s.len() - pat.len() ==> #[trigger] s.subrange(i, i + pat.len()) != pat)
            ==> text::parts(s, pat) == seq![s],
        0 <= p <= s.len() - pat.len() && s.subrange(p, p + pat.len()) == pat && (forall|i: int|
            0 <= i < p ==> #[trigger] s.subrange(i, i + pat.len()) != pat) ==> text::parts(s, pat)
            == seq![s.take(p)] + text::parts(s.skip(p + pat.len()), pat),
{
    text::lemma_first_from_occurs(s, pat, 0);
    if let Some(q) = text::first_of(s, pat) {
        assert(s.subrange(q, q + pat.len()) == pat);
        if 0 <= p <= s.len() - pat.len() && s.subrange(p, p + pat.len()) == pat {
            assert(text::occurs_at(s, pat, p));
        }
    } else if 0 <= p <= s.len() - pat.len() && s.subrange(p, p + pat.len()) == pat {
        assert(text::occurs_at(s, pat, p));
    }
}

/// Each text that is not blank gives one, without the white space around it.
pub proof fn law_non_blank(a: Seq<Seq<char>>, b: Seq<Seq<char>>, t: Seq<char>)
    ensures
        text::non_blank(a + b) == text::non_blank(a) + text::non_blank(b),
        text::non_blank(Seq::empty()) == Seq::<Seq<char>>::empty(),
        text::trimmed(Class::WhiteSpace, t).len() == 0 ==> text::non_blank(seq![t]) == Seq::<
            Seq<char>,
        >::empty(),
        text::trimmed(Class::WhiteSpace, t).len() > 0 ==> text::non_blank(seq![t]) == seq![
            text::trimmed(Class::WhiteSpace, t),
        ],
    decreases b.len(),
{
    assert(seq![t].drop_last() =~= Seq::empty());
    assert(text::non_blank(seq![t]) == text::flushed(
        text::non_blank(Seq::empty()),
        text::trimmed(Class::WhiteSpace, t),
    ));
    assert(Seq::<Seq<char>>::empty().push(text::trimmed(Class::WhiteSpace, t)) =~= seq![
        text::trimmed(Class::WhiteSpace, t),
    ]);
    if b.len() == 0 {
        assert(a + b =~= a);
        assert(text::non_blank(a) + text::non_blank(b) =~= text::non_blank(a));
    } else {
        law_non_blank(a, b.drop_last(), t);
        assert((a + b).drop_last() =~= a + b.drop_last());
        assert((a + b).last() == b.last());
        let w = text::trimmed(Class::WhiteSpace, b.last());
        assert(text::flushed(text::non_blank(a) + text::non_blank(b.drop_last()), w)
            =~= text::non_blank(a) + text::flushed(text::non_blank(b.drop_last()), w));
    }
}

/// The number that digits spell.
pub open spec fn number(digits: Seq<char>) -> nat
    decreases digits.len(),
{
    if digits.len() == 0 {
        0
    } else {
        number(digits.drop_last()) * 10 + (digits.last() as u32 - 48) as nat
    }
}

/// A number in decimal spells itself, in digits, the first of which is zero
/// for zero alone.
pub proof fn law_decimal(n: nat)
    ensures
        number(text::decimal(n)) == n,
        text::decimal(n).len() > 0,
        forall|i: int|
            0 <= i < text::decimal(n).len() ==> 48 <= #[trigger] text::decimal(n)[i] as u32 <= 57,
        text::decimal(n)[0] == '0' ==> n == 0,
    decreases n,
{
    if n < 10 {
        let d = seq![text::digit(n as int)];
        assert(d.drop_last() =~= Seq::empty());
        assert(number(d.drop_last()) == 0);
    } else {
        law_decimal(n / 10);
        let d = text::decimal(n / 10).push(text::digit((n % 10) as int));
        assert(d.drop_last() =~= text::decimal(n / 10));
        assert forall|i: int| 0 <= i < d.len() implies 48 <= #[trigger] d[i] as u32 <= 57 by {
            if i < d.len() - 1 {
                assert(d[i] == text::decimal(n / 10)[i]);
            }
        }
    }
}

} // verus!
