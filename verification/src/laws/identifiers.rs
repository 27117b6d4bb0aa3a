//! Texts that become identifiers.
use vstd::prelude::*;
use crate::chars;
use crate::cleanup::postprocess;
use crate::cleanup::postprocess::{CodeCase, Mode};
use crate::laws;
use crate::text;
use crate::text::Class;

verus! {

/// The identifier that a text becomes.
pub open spec fn code(s: Seq<char>, case: CodeCase) -> Seq<char> {
    postprocess::postprocessed(s, Mode::Code, true, case)
}

/// Text without letters and digits becomes nothing.
pub proof fn law_nothing_to_name(s: Seq<char>, case: CodeCase)
    requires
        laws::text::all_of(Class::NonAlphanumeric, s),
    ensures
        code(s, case).len() == 0,
{
    laws::text::law_no_fields(Class::NonAlphanumeric, s);
    assert(postprocess::identifier_words(s) =~= Seq::empty());
}

/// The first word is written in lower case.
pub proof fn law_first_word(head: Seq<char>, word: Seq<char>, case: CodeCase)
    requires
        laws::text::all_of(Class::NonAlphanumeric, head),
        laws::text::none_of(Class::NonAlphanumeric, word),
        word.len() > 0,
    ensures
        code(head + word, case) == chars::lowercase(word),
{
    let none = Seq::<char>::empty();
    laws::text::law_fields_between(Class::NonAlphanumeric, head, word, none);
    assert(head + word + none =~= head + word);
    laws::text::law_one_field(Class::NonAlphanumeric, word);
    assert(postprocess::identifier_words(head + word) =~= seq![chars::lowercase(word)]);
}

/// What is neither letter nor digit at the end of a text adds nothing.
pub proof fn law_end_adds_nothing(s: Seq<char>, tail: Seq<char>, case: CodeCase)
    requires
        laws::text::all_of(Class::NonAlphanumeric, tail),
    ensures
        code(s + tail, case) == code(s, case),
{
    let none = Seq::<char>::empty();
    laws::text::law_fields_between(Class::NonAlphanumeric, none, s, tail);
    assert(none + s + tail =~= s + tail);
}

/// Every further word, whatever its length, goes behind the identifier of the
/// text before it: in snake case behind an underscore, in kebab case behind a
/// dash, in camel case with its first character in upper case.
pub proof fn law_next_word(
    s: Seq<char>,
    i: int,
    gap: Seq<char>,
    word: Seq<char>,
    case: CodeCase,
)
    requires
        0 <= i < s.len(),
        !Class::NonAlphanumeric.has(s[i]),
        laws::text::all_of(Class::NonAlphanumeric, gap),
        gap.len() > 0,
        laws::text::none_of(Class::NonAlphanumeric, word),
        word.len() > 0,
        chars::lowercase(word).len() > 0,
    ensures
        ({
            let low = chars::lowercase(word);
            code(s + gap + word, case) == code(s, case) + (match case {
                CodeCase::Snake => seq!['_'] + low,
                CodeCase::Kebab => seq!['-'] + low,
                CodeCase::Camel => chars::uppercase(seq![low[0]]) + low.skip(1),
            })
        }),
{
    let k = Class::NonAlphanumeric;
    let none = Seq::<char>::empty();
    let low = chars::lowercase(word);
    laws::text::law_fields_between(k, none, s, gap);
    assert(none + s + gap =~= s + gap);
    assert(k.has(gap[gap.len() - 1]));
    laws::text::law_field_inside(k, s + gap, word, none);
    assert(s + gap + word + none =~= s + gap + word);
    laws::text::law_one_field(k, none);
    text::lemma_no_fields(k, s);
    let ws = postprocess::identifier_words(s);
    let all = postprocess::identifier_words(s + gap + word);
    assert(all =~= ws.push(low));
    assert(all.drop_last() =~= ws);
    assert(ws.len() > 0);
    match case {
        CodeCase::Snake => {
            assert(text::joined(ws, seq!['_']) + seq!['_'] + low =~= text::joined(ws, seq!['_']) + (
            seq!['_'] + low));
        },
        CodeCase::Kebab => {
            assert(text::joined(ws, seq!['-']) + seq!['-'] + low =~= text::joined(ws, seq!['-']) + (
            seq!['-'] + low));
        },
        CodeCase::Camel => {},
    }
}

/// Whether a character is a letter or a digit of ASCII.
pub open spec fn plain(c: char) -> bool {
    ||| 48 <= c as u32 <= 57
    ||| 65 <= c as u32 <= 90
    ||| 97 <= c as u32 <= 122
}

/// The letters and digits among the first `j` characters of a text.
pub open spec fn plain_before(s: Seq<char>, j: int) -> nat
    decreases j,
{
    if j <= 0 {
        0
    } else if plain(s[j - 1]) {
        plain_before(s, j - 1) + 1
    } else {
        plain_before(s, j - 1)
    }
}

/// Whether a text in camel case is what another becomes: its letters and
/// digits, one for one, each in lower case but for the first of each word
/// other than the first, which is in upper case.
pub open spec fn camel_of(r: Seq<char>, s: Seq<char>) -> bool {
    &&& r.len() == plain_before(s, s.len() as int)
    &&& forall|j: int|
        0 <= j < s.len() && plain(#[trigger] s[j]) ==> {
            let i = plain_before(s, j) as int;
            let starts = i > 0 && !plain(s[j - 1]);
            &&& 0 <= i < r.len()
            &&& starts ==> r[i] == chars::ascii_upper(s[j])
            &&& !starts ==> r[i] == chars::ascii_lower(s[j])
        }
}

proof fn lemma_plain(c: char)
    requires
        chars::ascii(c),
    ensures
        plain(c) == !Class::NonAlphanumeric.has(c),
        chars::lowercase(seq![c]) == seq![chars::ascii_lower(c)],
        chars::uppercase(seq![chars::ascii_lower(c)]) == seq![chars::ascii_upper(c)],
{
    assert(chars::all_ascii(seq![c]));
    assert(chars::all_ascii(seq![chars::ascii_lower(c)]));
    assert(chars::lowercase(seq![c]) =~= seq![chars::ascii_lower(c)]);
    assert(chars::uppercase(seq![chars::ascii_lower(c)]) =~= seq![chars::ascii_upper(c)]);
}

proof fn lemma_plain_before(s: Seq<char>, c: char, j: int)
    requires
        0 <= j <= s.len(),
    ensures
        plain_before(s.push(c), j) == plain_before(s, j),
        plain_before(s, j) <= plain_before(s, s.len() as int),
        j < s.len() && plain(s[j]) ==> plain_before(s, j) < plain_before(s, s.len() as int),
{
    if j > 0 {
        lemma_plain_count(s, c, j - 1);
        assert(s.push(c)[j - 1] == s[j - 1]);
    }
    lemma_plain_grows(s, j, s.len() as int);
    if j < s.len() {
        lemma_plain_grows(s, j + 1, s.len() as int);
    }
}

proof fn lemma_plain_count(s: Seq<char>, c: char, j: int)
    requires
        0 <= j <= s.len(),
    ensures
        plain_before(s.push(c), j) == plain_before(s, j),
    decreases j,
{
    if j > 0 {
        lemma_plain_count(s, c, j - 1);
        assert(s.push(c)[j - 1] == s[j - 1]);
    }
}

proof fn lemma_plain_grows(s: Seq<char>, i: int, j: int)
    requires
        0 <= i <= j <= s.len(),
    ensures
        plain_before(s, i) <= plain_before(s, j),
    decreases j - i,
{
    if i < j {
        lemma_plain_grows(s, i, j - 1);
    }
}

/// How the fields of a text grow with it, and where its last one stands.
proof fn lemma_fields_grow(s: Seq<char>, c: char)
    requires
        chars::all_ascii(s.push(c)),
    ensures
        ({
            let k = Class::NonAlphanumeric;
            let before = text::fields(k, s);
            let after = text::fields(k, s.push(c));
            &&& !plain(c) ==> after == before
            &&& plain(c) && (s.len() == 0 || !plain(s.last())) ==> after == before.push(seq![c])
            &&& plain(c) && s.len() > 0 && plain(s.last()) ==> before.len() > 0 && after
                == before.drop_last().push(before.last().push(c))
            &&& before.len() > 0 <==> plain_before(s, s.len() as int) > 0
        }),
    decreases s.len(),
{
    let k = Class::NonAlphanumeric;
    assert(chars::ascii(s.push(c)[s.len() as int]));
    lemma_plain(c);
    assert(s.push(c).drop_last() =~= s);
    let (done, open) = text::field_scan(k, s);
    if s.len() > 0 {
        let t = s.drop_last();
        assert(chars::ascii(s.push(c)[s.len() - 1]));
        lemma_plain(s.last());
        assert(t.push(s.last()) =~= s);
        assert(chars::all_ascii(s)) by {
            assert forall|i: int| 0 <= i < s.len() implies chars::ascii(#[trigger] s[i]) by {
                assert(chars::ascii(s.push(c)[i]));
            }
        }
        lemma_fields_grow(t, s.last());
        lemma_plain_count(t, s.last(), t.len() as int);
    }
    if plain(c) {
        assert(text::fields(k, s.push(c)) =~= done.push(open.push(c)));
        if s.len() > 0 && plain(s.last()) {
            assert(open.len() > 0);
            assert(done.push(open).drop_last() =~= done);
        } else {
            assert(open =~= Seq::empty());
            assert(open.push(c) =~= seq![c]);
        }
    }
}

proof fn lemma_lower_push(w: Seq<char>, c: char)
    requires
        chars::all_ascii(w.push(c)),
    ensures
        chars::lowercase(w.push(c)) == chars::lowercase(w).push(chars::ascii_lower(c)),
        chars::lowercase(w).len() == w.len(),
{
    assert(chars::all_ascii(w)) by {
        assert forall|i: int| 0 <= i < w.len() implies chars::ascii(#[trigger] w[i]) by {
            assert(chars::ascii(w.push(c)[i]));
        }
    }
    assert(chars::lowercase(w.push(c)) =~= chars::lowercase(w).push(chars::ascii_lower(c)));
}

/// In the camel-case identifier of ASCII text the letters and digits of the
/// text stand one for one. A capital stands where a word other than the first
/// starts with a letter, whatever the length of the word, and nowhere else.
pub proof fn law_camel_of_ascii(s: Seq<char>)
    requires
        chars::all_ascii(s),
    ensures
        camel_of(code(s, CodeCase::Camel), s),
    decreases s.len(),
{
    let k = Class::NonAlphanumeric;
    let r = code(s, CodeCase::Camel);
    if s.len() == 0 {
        law_nothing_to_name(s, CodeCase::Camel);
    } else {
        let t = s.drop_last();
        let c = s.last();
        assert(t.push(c) =~= s);
        assert(chars::all_ascii(t)) by {
            assert forall|i: int| 0 <= i < t.len() implies chars::ascii(#[trigger] t[i]) by {
                assert(chars::ascii(s[i]));
            }
        }
        law_camel_of_ascii(t);
        lemma_fields_grow(t, c);
        assert(chars::ascii(s[s.len() - 1]));
        lemma_plain(c);
        let q = code(t, CodeCase::Camel);
        let ws = postprocess::identifier_words(t);
        let vs = postprocess::identifier_words(s);
        let fs = text::fields(k, t);
        if plain(c) {
            if t.len() == 0 || !plain(t.last()) {
                assert(vs =~= ws.push(seq![chars::ascii_lower(c)]));
                assert(vs.drop_last() =~= ws);
                let one = seq![chars::ascii_lower(c)];
                assert(one.skip(1) =~= Seq::empty());
                assert(postprocess::capitalised(one) =~= seq![chars::ascii_upper(c)]);
                if ws.len() > 0 {
                    assert(r =~= q.push(chars::ascii_upper(c)));
                } else {
                    assert(ws =~= Seq::empty());
                    assert(q =~= Seq::empty());
                    assert(r =~= q.push(chars::ascii_lower(c)));
                }
            } else {
                let w = fs.last();
                text::lemma_fields_ascii(k, s);
                assert(text::fields(k, s).last() == w.push(c));
                assert(chars::all_ascii(text::fields(k, s)[text::fields(k, s).len() - 1]));
                lemma_lower_push(w, c);
                text::lemma_fields(k, t);
                assert(fs[fs.len() - 1].len() > 0);
                let low = chars::lowercase(w);
                assert(ws.last() == low);
                assert(vs =~= ws.drop_last().push(low.push(chars::ascii_lower(c))));
                assert(vs.drop_last() =~= ws.drop_last());
                assert(low.push(chars::ascii_lower(c)).skip(1) =~= low.skip(1).push(
                    chars::ascii_lower(c),
                ));
                assert(r =~= q.push(chars::ascii_lower(c)));
            }
        } else {
            assert(vs =~= ws);
            assert(r == q);
        }
        assert(plain_before(s, s.len() as int) == plain_before(t, t.len() as int) + (if plain(c) {
            1nat
        } else {
            0nat
        })) by {
            lemma_plain_count(t, c, t.len() as int);
        }
        assert forall|j: int| 0 <= j < s.len() && plain(#[trigger] s[j]) implies ({
            let i = plain_before(s, j) as int;
            let starts = i > 0 && !plain(s[j - 1]);
            &&& 0 <= i < r.len()
            &&& starts ==> r[i] == chars::ascii_upper(s[j])
            &&& !starts ==> r[i] == chars::ascii_lower(s[j])
        }) by {
            lemma_plain_before(t, c, j);
            if j < t.len() {
                assert(t[j] == s[j]);
                assert(plain(t[j]));
                if j > 0 {
                    assert(t[j - 1] == s[j - 1]);
                }
            } else if j > 0 {
                assert(s[j - 1] == t.last());
            }
        }
    }
}

} // verus!
