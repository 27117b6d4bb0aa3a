//! A dictation: its prompt, what a profile changes, and what becomes of the
//! text.
use vstd::prelude::*;
use crate::cleanup::postprocess;
use crate::cleanup::postprocess::{CodeCase, Mode};
use crate::cleanup::scrub;
use crate::commands;
use crate::commands::{Draft, Snippet};
use crate::context::AppContext;
use crate::db::{AppProfileRow, CorrectionRow};
use crate::laws;
use crate::llm_cleanup;
use crate::llm_cleanup::{CleanupBackend, Reply};
use crate::recorder::pipeline;
use crate::recorder::pipeline::{Rewritten, TemplateVar};
use crate::recorder::prompt;
use crate::recorder::prompt::Added;
use crate::recorder::replacements;
use crate::text;
use crate::text::Class;

verus! {

/// A prompt is the template and then the user's own prompt, each without the
/// white space around it, with a space between them where neither is empty.
pub proof fn law_prompt_parts(template: Seq<char>, own: Seq<char>)
    ensures
        ({
            let t = text::trimmed(Class::WhiteSpace, template);
            let g = text::trimmed(Class::WhiteSpace, own);
            &&& prompt::merged(None, own) == g
            &&& t.len() == 0 ==> prompt::merged(Some(template), own) == g
            &&& g.len() == 0 ==> prompt::merged(Some(template), own) == t
            &&& t.len() > 0 && g.len() > 0 ==> prompt::merged(Some(template), own) == t + seq![' ']
                + g
        }),
{
    let t = text::trimmed(Class::WhiteSpace, template);
    let g = text::trimmed(Class::WhiteSpace, own);
    if t.len() == 0 && g.len() == 0 {
        assert(t =~= g);
    }
}

/// Terms go behind the base of a prompt one after the other, with a space
/// before each but where nothing stands before it.
pub proof fn law_terms_in_a_prompt(base: Seq<char>, terms: Seq<Seq<char>>, term: Seq<char>)
    ensures
        prompt::prompt_with(base, Seq::empty()) == base,
        base.len() == 0 && terms.len() == 0 ==> prompt::prompt_with(base, terms.push(term)) == term,
        base.len() > 0 || terms.len() > 0 ==> prompt::prompt_with(base, terms.push(term))
            == prompt::prompt_with(base, terms) + seq![' '] + term,
{
    let none = Seq::<Seq<char>>::empty();
    let all = text::flushed(none, base) + terms;
    assert(text::flushed(none, base) + terms.push(term) =~= all + seq![term]);
    assert(text::flushed(none, base) + none =~= text::flushed(none, base));
    laws::text::law_joined_few(base, seq![' ']);
    laws::text::law_joined_few(term, seq![' ']);
    if base.len() == 0 {
        assert(base =~= Seq::empty());
    } else {
        assert(none.push(base) =~= seq![base]);
    }
    if all.len() > 0 {
        laws::text::law_joined_of_parts(all, seq![term], seq![' ']);
    } else {
        assert(all + seq![term] =~= seq![term]);
    }
}

/// A term is added where it is not blank, is not yet there, and fits. The first
/// that does not fit ends the list, and nothing comes behind it.
pub proof fn law_terms_are_added(
    base: Seq<char>,
    extras: Seq<Seq<char>>,
    extra: Seq<char>,
    budget: int,
)
    ensures
        ({
            let before = prompt::added(base, extras, budget);
            let after = prompt::added(base, extras.push(extra), budget);
            let term = text::trimmed(Class::WhiteSpace, extra);
            let new = term.len() > 0 && !text::words(base).contains(term)
                && !before.terms.contains(term);
            let fits = prompt::prompt_with(base, before.terms.push(term)).len() <= budget;
            &&& before.full || !new ==> after == before
            &&& !before.full && new && fits ==> after == (Added {
                terms: before.terms.push(term),
                full: false,
            })
            &&& !before.full && new && !fits ==> after == (Added { full: true, ..before })
            &&& prompt::added(base, Seq::empty(), budget) == (Added {
                terms: Seq::empty(),
                full: false,
            })
        }),
{
    assert(extras.push(extra).drop_last() =~= extras);
}

/// Whether a profile is there and turned on.
pub open spec fn counts(profile: Option<AppProfileRow>) -> bool {
    profile is Some && profile->0.enabled
}

/// A profile that is turned off, or is not there, changes nothing.
pub proof fn law_without_a_profile(
    profile: Option<AppProfileRow>,
    model: Seq<char>,
    own: Seq<char>,
    app: AppContext,
    cleaned: Seq<char>,
)
    requires
        !counts(profile),
    ensures
        pipeline::model_for(profile, model) == model,
        pipeline::template_for(profile) is None,
        pipeline::mode_of(profile) == Mode::Default,
        pipeline::case_of(profile) == CodeCase::Snake,
        pipeline::prompt_for(profile, own, Seq::empty()) == text::trimmed(Class::WhiteSpace, own),
        cleaned.len() > 0 ==> pipeline::corrections_of(Some(app), profile, cleaned) == Some(
            app.bundle_id@,
        ),
        pipeline::disabled(profile) == (profile is Some),
{
    law_prompt_parts(Seq::empty(), own);
}

/// A profile that is turned on has its say: its model where it names one that
/// is not blank, its template, its mode and case, and whether corrections go
/// in.
pub proof fn law_with_a_profile(
    profile: Option<AppProfileRow>,
    model: Seq<char>,
    app: AppContext,
    cleaned: Seq<char>,
)
    requires
        counts(profile),
    ensures
        ({
            let p = profile->0;
            &&& p.preferred_model is None ==> pipeline::model_for(profile, model) == model
            &&& p.preferred_model matches Some(m) ==> pipeline::model_for(profile, model) == (
            if text::trimmed(Class::WhiteSpace, m@).len() > 0 {
                m@
            } else {
                model
            })
            &&& pipeline::template_for(profile) == text::opt_text(p.prompt_template)
            &&& pipeline::mode_of(profile) == postprocess::mode_named(p.postprocess_mode@)
            &&& pipeline::case_of(profile) == postprocess::case_named(p.code_case@)
            &&& p.auto_apply_replacements && cleaned.len() > 0 ==> pipeline::corrections_of(
                Some(app),
                profile,
                cleaned,
            ) == Some(app.bundle_id@)
            &&& !p.auto_apply_replacements ==> pipeline::corrections_of(
                Some(app),
                profile,
                cleaned,
            ) is None
            &&& !pipeline::disabled(profile)
        }),
{
}

/// No corrections go in where the app is not known or nothing was said.
pub proof fn law_no_corrections(
    app: Option<AppContext>,
    profile: Option<AppProfileRow>,
    cleaned: Seq<char>,
)
    requires
        app is None || cleaned.len() == 0,
    ensures
        pipeline::corrections_of(app, profile, cleaned) is None,
{
}

/// The terms that a prompt is offered: those of the app, those of all apps, and
/// the corrections that are not blank, in this order; none without an app.
pub proof fn law_offered_terms(
    app: AppContext,
    app_terms: Seq<Seq<char>>,
    common: Seq<Seq<char>>,
    corrections: Seq<Seq<char>>,
)
    ensures
        pipeline::terms_for(None, app_terms, common, corrections).len() == 0,
        pipeline::terms_for(Some(app), app_terms, common, corrections) == app_terms + common
            + text::non_blank(corrections),
        pipeline::offered_terms(app_terms, common, corrections) == app_terms + common
            + text::non_blank(corrections),
{
}

/// The prompt for a dictation: the template of the profile and the user's own
/// prompt, and behind them the terms that fit into eight hundred characters.
pub proof fn law_prompt_for(
    profile: Option<AppProfileRow>,
    own: Seq<char>,
    terms: Seq<Seq<char>>,
)
    ensures
        ({
            let base = prompt::merged(pipeline::template_for(profile), own);
            let bare = text::trimmed(Class::WhiteSpace, base);
            &&& terms.len() == 0 ==> pipeline::prompt_for(profile, own, terms) == base
            &&& terms.len() > 0 ==> pipeline::prompt_for(profile, own, terms)
                == prompt::prompt_with(bare, prompt::added(bare, terms, 800).terms)
        }),
{
}

/// The variables of templates, by their names, and none but them.
pub proof fn law_template_variables(key: Seq<char>)
    ensures
        pipeline::var_named("date"@) == Some(TemplateVar::Date),
        pipeline::var_named("time"@) == Some(TemplateVar::Time),
        pipeline::var_named("day"@) == Some(TemplateVar::Day),
        pipeline::var_named("clipboard"@) == Some(TemplateVar::Clipboard),
        pipeline::var_named("selection"@) == Some(TemplateVar::Selection),
        key != "date"@ && key != "time"@ && key != "day"@ && key != "clipboard"@ && key
            != "selection"@ ==> pipeline::var_named(key) is None,
{
    reveal_strlit("date");
    reveal_strlit("time");
    reveal_strlit("day");
    reveal_strlit("clipboard");
    reveal_strlit("selection");
    assert("date"@[0] != "time"@[0]);
    assert("clipboard"@[0] != "selection"@[0]);
    assert("day"@.len() == 3 && "date"@.len() == 4 && "time"@.len() == 4);
    assert("clipboard"@.len() == 9 && "selection"@.len() == 9);
}

/// A snippet needs the selection where it is dynamic and the variable stands
/// anywhere in it.
pub proof fn law_selection_is_needed(s: Snippet, p: int)
    ensures
        !s.is_dynamic ==> !pipeline::asks_for_selection(s),
        s.is_dynamic && 0 <= p && p + "{{selection}}"@.len() <= s.expansion@.len()
            && s.expansion@.subrange(p, p + "{{selection}}"@.len()) == "{{selection}}"@
            ==> pipeline::asks_for_selection(s),
        pipeline::asks_for_selection(s) ==> exists|q: int|
            0 <= q && q + "{{selection}}"@.len() <= s.expansion@.len()
                && #[trigger] s.expansion@.subrange(q, q + "{{selection}}"@.len())
                == "{{selection}}"@,
{
    let pat = "{{selection}}"@;
    text::lemma_first_from_occurs(s.expansion@, pat, 0);
    if 0 <= p && p + pat.len() <= s.expansion@.len() && s.expansion@.subrange(p, p + pat.len())
        == pat {
        assert(text::occurs_at(s.expansion@, pat, p));
    }
    if let Some(q) = text::first_of(s.expansion@, pat) {
        assert(s.expansion@.subrange(q, q + pat.len()) == pat);
    }
}

/// A text is stored where transcriptions are, something was said, and the app
/// is not turned off.
pub proof fn law_stored(text: Seq<char>)
    ensures
        text.len() > 0 ==> pipeline::stores(true, text, false),
        !pipeline::stores(false, text, false) && !pipeline::stores(false, text, true),
        !pipeline::stores(true, text, true),
        text.len() == 0 ==> !pipeline::stores(true, text, false),
{
}

/// What was written goes through the output mode, then loses the words said
/// twice, then the phrases heard in silence.
pub proof fn law_polish(d: Draft, mode: Mode, case: CodeCase, body: Seq<char>, tail: Seq<char>)
    requires
        d.out == body + tail,
        laws::text::all_of(Class::WhiteSpace, tail),
        body.len() > 0 ==> !Class::WhiteSpace.has(body.last()),
    ensures
        pipeline::polished(d, mode, case) == scrub::scrubbed(
            scrub::collapsed(postprocess::postprocessed(body, mode, d.code_mode, case)),
        ),
{
    laws::text::law_trimmed_end(Class::WhiteSpace, body, tail);
}

/// A transcript is corrected first; what is said in it is carried out on the
/// corrected text.
pub proof fn law_corrections_come_first<F: Fn(&str) -> Option<String>>(
    resolve: F,
    cleaned: Seq<char>,
    rows: Seq<CorrectionRow>,
    snippets: Seq<Snippet>,
    mode: Mode,
    case: CodeCase,
    r: Rewritten,
) -> (expansions: Seq<Seq<char>>)
    requires
        pipeline::rewritten(resolve, cleaned, rows, snippets, mode, case, r),
    ensures
        ({
            let c = replacements::corrected(cleaned, rows);
            let steps = commands::steps(c, snippets);
            let d = commands::walked(text::words(c), steps, expansions);
            &&& commands::expanded(resolve, snippets, steps, expansions)
            &&& r.text@ == pipeline::polished(d, mode, case)
            &&& r.clipboard_only == d.clipboard_only
            &&& r.code_mode == d.code_mode
        }),
{
    let c = replacements::corrected(cleaned, rows);
    let steps = commands::steps(c, snippets);
    choose|expansions: Seq<Seq<char>>| #[trigger]
        commands::expanded(resolve, snippets, steps, expansions) && {
            let d = commands::walked(text::words(c), steps, expansions);
            &&& r.text@ == pipeline::polished(d, mode, case)
            &&& r.clipboard_only == d.clipboard_only
            &&& r.code_mode == d.code_mode
        }
}

/// A language model is asked only where the service is on, there is a key, and
/// the text is not blank.
pub proof fn law_asking(key: Seq<char>, s: Seq<char>)
    ensures
        !llm_cleanup::asks(CleanupBackend::Off, key, s),
        key.len() == 0 ==> !llm_cleanup::asks(CleanupBackend::Groq, key, s),
        laws::text::all_of(Class::WhiteSpace, s) ==> !llm_cleanup::asks(
            CleanupBackend::Groq,
            key,
            s,
        ),
        key.len() > 0 && !laws::text::all_of(Class::WhiteSpace, s) ==> llm_cleanup::asks(
            CleanupBackend::Groq,
            key,
            s,
        ),
{
    laws::text::law_blank(Class::WhiteSpace, s);
}

/// Its answer takes the place of the text, without the white space around it,
/// whatever it says.
pub proof fn law_answer_is_taken(
    key: Seq<char>,
    s: Seq<char>,
    reply: Reply,
    head: Seq<char>,
    body: Seq<char>,
    tail: Seq<char>,
)
    requires
        llm_cleanup::asks(CleanupBackend::Groq, key, s),
        reply matches Reply::Content(c) && c@ == head + body + tail,
        laws::text::all_of(Class::WhiteSpace, head),
        laws::text::all_of(Class::WhiteSpace, tail),
        laws::text::bare(Class::WhiteSpace, body),
    ensures
        llm_cleanup::cleaned_up(CleanupBackend::Groq, key, s, reply) == body,
{
    laws::text::law_trimmed(Class::WhiteSpace, head, body, tail);
}

} // verus!
