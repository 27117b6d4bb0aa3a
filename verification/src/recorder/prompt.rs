//! The prompt that goes to the recogniser: the app's template, the user's own
//! prompt, and as many learned terms as fit.
use vstd::prelude::*;
use crate::text;
use crate::text::Class;

verus! {

/// How many characters a prompt may hold once learned terms are added. The
/// recogniser reads about 224 tokens, of about four characters each.
pub const PROMPT_BUDGET_CHARS: usize = 800;

/// How many terms learned in the app are looked up for a prompt.
pub const PROMPT_APP_TERMS: i64 = 20;

/// How many terms learned in any app are looked up for a prompt.
pub const PROMPT_COMMON_TERMS: i64 = 10;

/// How many corrections of the app are looked up for a prompt.
pub const PROMPT_CORRECTIONS: i64 = 10;

/// A template and a prompt, trimmed, the template first.
pub open spec fn merged(template: Option<Seq<char>>, global: Seq<char>) -> Seq<char> {
    let t = match template {
        Some(t) => text::trimmed(Class::WhiteSpace, t),
        None => Seq::empty(),
    };
    let g = text::trimmed(Class::WhiteSpace, global);
    if t.len() == 0 {
        g
    } else if g.len() == 0 {
        t
    } else {
        t + seq![' '] + g
    }
}

/// Combines the template of an app with the user's own prompt. The template
/// comes first, being the more specific.
pub fn merge_prompt(profile_template: Option<&str>, global: &str) -> (r: String)
    ensures
        r@ == merged(text::opt_str(profile_template), global@),
{
    let template = match profile_template {
        Some(t) => text::to_chars(t),
        None => Vec::new(),
    };
    assert(profile_template is None ==> text::trimmed(Class::WhiteSpace, template@)
        =~= Seq::empty());
    let whole = text::to_chars(global);
    let t = text::trim(Class::WhiteSpace, template.as_slice());
    let g = text::trim(Class::WhiteSpace, whole.as_slice());
    if t.len() == 0 {
        text::to_text(g)
    } else if g.len() == 0 {
        text::to_text(t)
    } else {
        let mut out = text::copied(t);
        out.push(' ');
        text::append(&mut out, g);
        assert(out@ == t@ + seq![' '] + g@);
        text::to_text(out.as_slice())
    }
}

/// The terms that are added to a prompt, and whether one did not fit.
#[verifier::ext_equal]
pub struct Added {
    pub terms: Seq<Seq<char>>,
    pub full: bool,
}

/// The prompt with terms behind it, one space between each two.
pub open spec fn prompt_with(base: Seq<char>, terms: Seq<Seq<char>>) -> Seq<char> {
    text::joined(text::flushed(Seq::empty(), base) + terms, seq![' '])
}

/// The terms of `extras` that are added to `base`: each that is not yet there,
/// up to the first that would go over the budget.
pub open spec fn added(base: Seq<char>, extras: Seq<Seq<char>>, budget: int) -> Added
    decreases extras.len(),
{
    if extras.len() == 0 {
        Added { terms: Seq::empty(), full: false }
    } else {
        let before = added(base, extras.drop_last(), budget);
        let term = text::trimmed(Class::WhiteSpace, extras.last());
        if before.full || term.len() == 0 || text::words(base).contains(term)
            || before.terms.contains(term) {
            before
        } else if prompt_with(base, before.terms.push(term)).len() > budget {
            Added { full: true, ..before }
        } else {
            Added { terms: before.terms.push(term), full: false }
        }
    }
}

fn holds(list: &Vec<Vec<char>>, item: &[char]) -> (r: bool)
    ensures
        r == text::rows(list@).contains(item@),
{
    let ghost all = text::rows(list@);
    let mut i: usize = 0;
    while i < list.len()
        invariant
            i <= list.len(),
            all == text::rows(list@),
            forall|j: int| 0 <= j < i ==> all[j] != item@,
        decreases list.len() - i,
    {
        assert(all[i as int] == list@[i as int]@);
        if text::same(list[i].as_slice(), item) {
            assert(all.contains(all[i as int]));
            return true;
        }
        i += 1;
    }
    assert(!all.contains(item@));
    false
}

/// Adds `extras` to `base`, set apart by spaces, as long as the whole stays
/// within `budget` characters. A term that is there already is not added
/// again.
pub fn budgeted_join(base: &str, extras: &[String], budget: usize) -> (r: String)
    ensures
        r@ == prompt_with(
            text::trimmed(Class::WhiteSpace, base@),
            added(
                text::trimmed(Class::WhiteSpace, base@),
                text::texts(extras@),
                budget as int,
            ).terms,
        ),
{
    let whole = text::to_chars(base);
    let b = text::trim(Class::WhiteSpace, whole.as_slice());
    let ghost all = text::texts(extras@);
    let words = text::split_words(b);
    let mut terms: Vec<Vec<char>> = Vec::new();
    let mut out = text::copied(b);
    proof {
        assert(text::rows(terms@) =~= Seq::empty());
        assert(all.take(0) =~= Seq::empty());
        lemma_prompt_with_none(b@);
    }
    let mut i: usize = 0;
    let mut full = false;
    while i < extras.len() && !full
        invariant
            i <= extras.len(),
            all == text::texts(extras@),
            text::rows(words@) == text::words(b@),
            text::rows(terms@) == added(b@, all.take(i as int), budget as int).terms,
            full == added(b@, all.take(i as int), budget as int).full,
            out@ == prompt_with(b@, text::rows(terms@)),
            out@.len() == 0 <==> b@.len() == 0 && terms@.len() == 0,
        decreases extras.len() - i,
    {
        assert(all.take(i + 1).drop_last() =~= all.take(i as int));
        assert(all.take(i + 1).last() == extras@[i as int]@);
        let term = text::to_chars(extras[i].as_str());
        let t = text::trim(Class::WhiteSpace, term.as_slice());
        if t.len() > 0 && !holds(&words, t) && !holds(&terms, t) {
            proof {
                lemma_prompt_with_one_more(b@, text::rows(terms@), t@);
            }
            let fits = if out.len() == 0 {
                t.len() <= budget
            } else {
                out.len() < budget && t.len() <= budget - out.len() - 1
            };
            if fits {
                if out.len() > 0 {
                    out.push(' ');
                }
                text::append(&mut out, t);
                let ghost before = terms@;
                let kept = text::copied(t);
                terms.push(kept);
                assert(text::rows(terms@) =~= text::rows(before).push(t@));
            } else {
                full = true;
            }
        }
        i += 1;
    }
    proof {
        lemma_full_is_final(b@, all, budget as int, i as int);
        assert(all.take(all.len() as int) =~= all);
    }
    text::to_text(out.as_slice())
}

proof fn lemma_prompt_with_none(base: Seq<char>)
    ensures
        prompt_with(base, Seq::empty()) == base,
{
    let parts = text::flushed(Seq::empty(), base) + Seq::<Seq<char>>::empty();
    if base.len() == 0 {
        assert(parts =~= Seq::empty());
        assert(prompt_with(base, Seq::empty()) =~= base);
    } else {
        assert(parts =~= seq![base]);
    }
}

proof fn lemma_prompt_with_one_more(base: Seq<char>, terms: Seq<Seq<char>>, term: Seq<char>)
    ensures
        prompt_with(base, terms.push(term)) == (if base.len() == 0 && terms.len() == 0 {
            term
        } else {
            prompt_with(base, terms).push(' ') + term
        }),
{
    let head = text::flushed(Seq::empty(), base);
    let parts = head + terms.push(term);
    assert(parts.drop_last() =~= head + terms);
    assert(parts.last() == term);
    if base.len() == 0 && terms.len() == 0 {
        assert(parts =~= seq![term]);
    } else {
        let p = prompt_with(base, terms);
        assert(p + seq![' '] + term =~= p.push(' ') + term);
    }
}

proof fn lemma_full_is_final(base: Seq<char>, extras: Seq<Seq<char>>, budget: int, n: int)
    requires
        0 <= n <= extras.len(),
        n < extras.len() ==> added(base, extras.take(n), budget).full,
    ensures
        added(base, extras, budget).terms == added(base, extras.take(n), budget).terms,
        n < extras.len() ==> added(base, extras, budget).full,
    decreases extras.len() - n,
{
    if n == extras.len() {
        assert(extras.take(n) =~= extras);
    } else {
        assert(extras.take(n + 1).drop_last() =~= extras.take(n));
        if n + 1 < extras.len() {
            lemma_full_is_final(base, extras, budget, n + 1);
        } else {
            assert(extras.take(n + 1) =~= extras);
        }
    }
}

/// The prompt starts with the base. It stays within the budget, unless the
/// base alone is over it.
pub proof fn law_prompt_within_budget(base: Seq<char>, extras: Seq<Seq<char>>, budget: int)
    ensures
        base.is_prefix_of(prompt_with(base, added(base, extras, budget).terms)),
        prompt_with(base, added(base, extras, budget).terms).len() <= budget || prompt_with(
            base,
            added(base, extras, budget).terms,
        ) == base,
    decreases extras.len(),
{
    lemma_prompt_with_none(base);
    if extras.len() > 0 {
        law_prompt_within_budget(base, extras.drop_last(), budget);
        let before = added(base, extras.drop_last(), budget);
        let term = text::trimmed(Class::WhiteSpace, extras.last());
        lemma_prompt_with_one_more(base, before.terms, term);
    }
}

/// No term is added twice, and none that is a word of the base.
pub proof fn law_added_terms_are_new(base: Seq<char>, extras: Seq<Seq<char>>, budget: int)
    ensures
        added(base, extras, budget).terms.no_duplicates(),
        forall|i: int|
            0 <= i < added(base, extras, budget).terms.len() ==> !text::words(base).contains(
                #[trigger] added(base, extras, budget).terms[i],
            ),
    decreases extras.len(),
{
    if extras.len() > 0 {
        law_added_terms_are_new(base, extras.drop_last(), budget);
    }
}

} // verus!
