//! Inline voice commands.
//!
//! A transcript is walked word by word. Phrases such as "new line" or "scratch
//! that" become edits of the text written so far, snippet triggers become
//! their expansions, and every other word is written as it was heard.
use vstd::prelude::*;
use vstd::slice::slice_subrange;
use crate::chars;
use crate::text;
use crate::text::Class;

verus! {

/// What a command phrase does.
#[derive(Debug, Clone, Copy, PartialEq, Eq, Structural)]
pub enum Action {
    /// Start this many new lines, dropping blanks at the end of the text.
    Newlines(u8),
    /// Put a punctuation mark right after the last word, unless the text
    /// already ends in it (or, for a full stop, in a sentence end).
    Punct(char),
    /// Drop the text after the last sentence end.
    ScratchPrevSentence,
    /// Capitalise the most recent word.
    CapPrevWord,
    /// Write the following words in capitals, or stop doing so.
    SetAllCaps(bool),
    /// Start a bullet list: from now on each new line opens with `- `.
    BulletList,
    /// Leave the text on the clipboard; do not paste it.
    ClipboardInstead,
    /// Mark the text as code.
    CodeMode,
}

/// The command phrases. A phrase stands before every shorter one that it
/// could be taken for.
pub open spec fn phrases() -> Seq<(Seq<Seq<char>>, Action)> {
    seq![
        (seq!["all"@, "caps"@, "on"@], Action::SetAllCaps(true)),
        (seq!["all"@, "caps"@, "off"@], Action::SetAllCaps(false)),
        (seq!["new"@, "paragraph"@], Action::Newlines(2)),
        (seq!["new"@, "line"@], Action::Newlines(1)),
        (seq!["question"@, "mark"@], Action::Punct('?')),
        (seq!["exclamation"@, "point"@], Action::Punct('!')),
        (seq!["exclamation"@, "mark"@], Action::Punct('!')),
        (seq!["scratch"@, "that"@], Action::ScratchPrevSentence),
        (seq!["delete"@, "that"@], Action::ScratchPrevSentence),
        (seq!["cap"@, "that"@], Action::CapPrevWord),
        (seq!["bullet"@, "list"@], Action::BulletList),
        (seq!["clipboard"@, "instead"@], Action::ClipboardInstead),
        (seq!["code"@, "mode"@], Action::CodeMode),
        (seq!["newline"@], Action::Newlines(1)),
        (seq!["period"@], Action::Punct('.')),
        (seq!["comma"@], Action::Punct(',')),
    ]
}

#[derive(Debug, Clone, Default, PartialEq)]
pub struct CommandResult {
    pub text: String,
    /// "clipboard instead" was said: set the clipboard, do not paste.
    pub clipboard_only: bool,
    /// "code mode" was said: the text is to become an identifier.
    pub code_mode: bool,
}

/// A phrase and the text that it stands for.
#[derive(Debug, Clone)]
pub struct Snippet {
    pub trigger: String,
    pub expansion: String,
    /// The expansion holds `{{variables}}`.
    pub is_dynamic: bool,
}

/// The text under construction, and what the commands so far have set.
#[verifier::ext_equal]
pub struct Draft {
    pub out: Seq<char>,
    pub all_caps: bool,
    pub bullet_list: bool,
    pub clipboard_only: bool,
    pub code_mode: bool,
}

pub open spec fn blank_draft() -> Draft {
    Draft {
        out: Seq::empty(),
        all_caps: false,
        bullet_list: false,
        clipboard_only: false,
        code_mode: false,
    }
}

/// `out` followed by `n` line feeds.
pub open spec fn with_newlines(out: Seq<char>, n: nat) -> Seq<char>
    decreases n,
{
    if n == 0 {
        out
    } else {
        with_newlines(out, (n - 1) as nat).push('\n')
    }
}

pub open spec fn sentence_end(c: char) -> bool {
    c == '.' || c == '!' || c == '?'
}

/// The text up to its last sentence end; all of it goes when there is none.
pub open spec fn up_to_sentence_end(out: Seq<char>) -> Seq<char>
    decreases out.len(),
{
    if out.len() == 0 || sentence_end(out.last()) {
        out
    } else {
        up_to_sentence_end(out.drop_last())
    }
}

/// The position behind the last letter, or 0.
pub open spec fn letters_end(out: Seq<char>) -> nat
    decreases out.len(),
{
    if out.len() == 0 || chars::alphabetic(out.last()) {
        out.len()
    } else {
        letters_end(out.drop_last())
    }
}

/// The position at which the run of letters at the end of the text starts.
pub open spec fn letters_start(out: Seq<char>) -> nat
    decreases out.len(),
{
    if out.len() > 0 && chars::alphabetic(out.last()) {
        letters_start(out.drop_last())
    } else {
        out.len()
    }
}

/// The text with the last run of letters capitalised.
pub open spec fn last_word_capitalised(out: Seq<char>) -> Seq<char> {
    let end = letters_end(out) as int;
    if end == 0 {
        out
    } else {
        let start = letters_start(out.take(end)) as int;
        out.take(start) + chars::uppercase(seq![out[start]]) + out.skip(start + 1)
    }
}

pub open spec fn bullet() -> Seq<char> {
    seq!['-', ' ']
}

/// The draft after an action.
pub open spec fn acted(a: Action, d: Draft) -> Draft {
    let line = text::trimmed_end(Class::Blank, d.out);
    match a {
        Action::Newlines(n) => Draft {
            out: with_newlines(line, n as nat) + (if d.bullet_list {
                bullet()
            } else {
                Seq::empty()
            }),
            ..d
        },
        Action::Punct(c) => Draft {
            out: if line.len() > 0 && (line.last() == c || (c == '.' && sentence_end(
                line.last(),
            ))) {
                line
            } else {
                line.push(c)
            },
            ..d
        },
        Action::ScratchPrevSentence => Draft { out: up_to_sentence_end(d.out), ..d },
        Action::CapPrevWord => Draft { out: last_word_capitalised(d.out), ..d },
        Action::SetAllCaps(on) => Draft { all_caps: on, ..d },
        Action::BulletList => Draft {
            out: (if line.len() > 0 && line.last() != '\n' {
                line.push('\n')
            } else {
                line
            }) + bullet(),
            bullet_list: true,
            ..d
        },
        Action::ClipboardInstead => Draft { clipboard_only: true, ..d },
        Action::CodeMode => Draft { code_mode: true, ..d },
    }
}

/// `out` with a word behind it, set apart by a space where `out` does not end
/// in white space.
pub open spec fn with_word(out: Seq<char>, word: Seq<char>) -> Seq<char> {
    if word.len() == 0 {
        out
    } else if out.len() > 0 && !chars::white_space(out.last()) {
        out.push(' ') + word
    } else {
        out + word
    }
}

/// `out` with an expansion behind it, set apart by a space where neither side
/// brings white space of its own.
pub open spec fn with_expansion(out: Seq<char>, expansion: Seq<char>) -> Seq<char> {
    if expansion.len() > 0 && chars::white_space(expansion[0]) {
        out + expansion
    } else {
        with_word(out, expansion)
    }
}

/// A word as it is compared with phrases and triggers.
pub open spec fn normalized(word: Seq<char>) -> Seq<char> {
    chars::lowercase(text::trimmed(Class::AsciiPunctuation, word))
}

pub open spec fn normalized_words(raw: Seq<Seq<char>>) -> Seq<Seq<char>> {
    raw.map_values(|w: Seq<char>| normalized(w))
}

/// The words of a trigger, in lower case.
pub open spec fn trigger_words(trigger: Seq<char>) -> Seq<Seq<char>> {
    text::words(trigger).map_values(|w: Seq<char>| chars::lowercase(w))
}

pub open spec fn triggers(snippets: Seq<Snippet>) -> Seq<Seq<Seq<char>>> {
    snippets.map_values(|s: Snippet| trigger_words(s.trigger@))
}

/// Whether a phrase of at least one word stands in `tokens` at `i`.
pub open spec fn spoken_at(phrase: Seq<Seq<char>>, tokens: Seq<Seq<char>>, i: int) -> bool {
    &&& 0 < phrase.len()
    &&& i + phrase.len() <= tokens.len()
    &&& tokens.subrange(i, i + phrase.len()) == phrase
}

/// The first command phrase from entry `k` on that stands at `i`.
pub open spec fn phrase_from(tokens: Seq<Seq<char>>, i: int, k: int) -> Option<int>
    decreases phrases().len() - k,
{
    if k < 0 || k >= phrases().len() {
        None
    } else if spoken_at(phrases()[k].0, tokens, i) {
        Some(k)
    } else {
        phrase_from(tokens, i, k + 1)
    }
}

/// Of the first `n` triggers, the longest that stands at `i`; of equally long
/// ones the first.
pub open spec fn snippet_at(
    trigs: Seq<Seq<Seq<char>>>,
    tokens: Seq<Seq<char>>,
    i: int,
    n: int,
) -> Option<int>
    decreases n,
{
    if n <= 0 {
        None
    } else {
        let best = snippet_at(trigs, tokens, i, n - 1);
        if spoken_at(trigs[n - 1], tokens, i) && (best matches Some(b) ==> trigs[n - 1].len()
            > trigs[b].len()) {
            Some(n - 1)
        } else {
            best
        }
    }
}

/// One step of the walk: a command, the expansion of a snippet (by its
/// position), or a word (by its position).
pub enum Step {
    Act(Action),
    Expand(int),
    Say(int),
}

/// The steps from word `i` on. Commands come before snippets, snippets before
/// plain words.
pub open spec fn steps_from(tokens: Seq<Seq<char>>, trigs: Seq<Seq<Seq<char>>>, i: int) -> Seq<Step>
    decreases tokens.len() - i,
{
    if i < 0 || i >= tokens.len() {
        Seq::empty()
    } else {
        proof {
            lemma_phrase_from(tokens, i, 0);
            law_longest_trigger_wins(trigs, tokens, i, trigs.len() as int);
        }
        match phrase_from(tokens, i, 0) {
            Some(k) => seq![Step::Act(phrases()[k].1)] + steps_from(
                tokens,
                trigs,
                i + phrases()[k].0.len(),
            ),
            None => match snippet_at(trigs, tokens, i, trigs.len() as int) {
                Some(k) => seq![Step::Expand(k)] + steps_from(tokens, trigs, i + trigs[k].len()),
                None => seq![Step::Say(i)] + steps_from(tokens, trigs, i + 1),
            },
        }
    }
}

/// The steps that an input takes.
pub open spec fn steps(input: Seq<char>, snippets: Seq<Snippet>) -> Seq<Step> {
    steps_from(normalized_words(text::words(input)), triggers(snippets), 0)
}

/// The draft after one step; `expansion` is what an `Expand` step writes.
pub open spec fn stepped(
    raw: Seq<Seq<char>>,
    step: Step,
    expansion: Seq<char>,
    d: Draft,
) -> Draft {
    match step {
        Step::Act(a) => acted(a, d),
        Step::Expand(_) => Draft { out: with_expansion(d.out, expansion), ..d },
        Step::Say(i) => Draft {
            out: with_word(
                d.out,
                if d.all_caps {
                    chars::uppercase(raw[i])
                } else {
                    raw[i]
                },
            ),
            ..d
        },
    }
}

/// The draft after a list of steps, with one expansion for each step.
pub open spec fn walked(raw: Seq<Seq<char>>, steps: Seq<Step>, expansions: Seq<Seq<char>>) -> Draft
    decreases steps.len(),
{
    if steps.len() == 0 {
        blank_draft()
    } else {
        stepped(
            raw,
            steps.last(),
            expansions.last(),
            walked(raw, steps.drop_last(), expansions.drop_last()),
        )
    }
}

/// What a template is made of: text, and variables between double braces.
pub enum Piece {
    Text(Seq<char>),
    Var(Seq<char>),
}

pub open spec fn opening() -> Seq<char> {
    seq!['{', '{']
}

pub open spec fn closing() -> Seq<char> {
    seq!['}', '}']
}

/// The pieces of a template. An opening that is never closed is text.
pub open spec fn pieces(template: Seq<char>) -> Seq<Piece>
    decreases template.len(),
{
    match text::first_of(template, opening()) {
        None => seq![Piece::Text(template)],
        Some(p) => {
            let after = template.skip(p + 2);
            match text::first_of(after, closing()) {
                None => seq![Piece::Text(template)],
                Some(q) => {
                    proof {
                        text::lemma_first_from_occurs(template, opening(), 0);
                        text::lemma_first_from_occurs(after, closing(), 0);
                    }
                    seq![Piece::Text(template.take(p)), Piece::Var(after.take(q))] + pieces(
                        after.skip(q + 2),
                    )
                },
            }
        },
    }
}

/// A piece as it is written, given the value of its variable. A variable
/// without a value is written as it stands in the template.
pub open spec fn shown(piece: Piece, value: Option<Seq<char>>) -> Seq<char> {
    match piece {
        Piece::Text(t) => t,
        Piece::Var(k) => match value {
            Some(v) => v,
            None => opening() + k + closing(),
        },
    }
}

/// The pieces written one after the other, with one value for each.
pub open spec fn filled(pieces: Seq<Piece>, values: Seq<Option<Seq<char>>>) -> Seq<char>
    decreases pieces.len(),
{
    if pieces.len() == 0 {
        Seq::empty()
    } else {
        filled(pieces.drop_last(), values.drop_last()) + shown(pieces.last(), values.last())
    }
}

/// The text of an answer.
pub open spec fn answer(r: Option<String>) -> Option<Seq<char>> {
    match r {
        Some(s) => Some(s@),
        None => None,
    }
}

/// Whether `resolve` can give `value` for the variable `key`.
pub open spec fn resolves<F: Fn(&str) -> Option<String>>(
    resolve: F,
    key: Seq<char>,
    value: Option<Seq<char>>,
) -> bool {
    exists|k: &str, r: Option<String>| #[trigger]
        call_ensures(resolve, (k,), r) && k@ == key && answer(r) == value
}

/// Whether `values` are answers of `resolve` for the variables among `pieces`.
pub open spec fn answered<F: Fn(&str) -> Option<String>>(
    resolve: F,
    pieces: Seq<Piece>,
    values: Seq<Option<Seq<char>>>,
) -> bool {
    &&& values.len() == pieces.len()
    &&& forall|i: int| #![trigger pieces[i]]
        0 <= i < pieces.len() ==> match pieces[i] {
            Piece::Var(k) => resolves(resolve, text::trimmed(Class::WhiteSpace, k), values[i]),
            Piece::Text(_) => true,
        }
}

/// Whether `out` is what `template` can become when `resolve` is asked for its
/// variables.
pub open spec fn expands<F: Fn(&str) -> Option<String>>(
    resolve: F,
    template: Seq<char>,
    out: Seq<char>,
) -> bool {
    exists|values: Seq<Option<Seq<char>>>| #[trigger]
        answered(resolve, pieces(template), values) && out == filled(pieces(template), values)
}

/// Whether `out` is what a snippet can become.
pub open spec fn snippet_expands<F: Fn(&str) -> Option<String>>(
    resolve: F,
    snippet: Snippet,
    out: Seq<char>,
) -> bool {
    if snippet.is_dynamic {
        expands(resolve, snippet.expansion@, out)
    } else {
        out == snippet.expansion@
    }
}

/// Whether `expansions` are what the snippets among `steps` can become.
pub open spec fn expanded<F: Fn(&str) -> Option<String>>(
    resolve: F,
    snippets: Seq<Snippet>,
    steps: Seq<Step>,
    expansions: Seq<Seq<char>>,
) -> bool {
    &&& expansions.len() == steps.len()
    &&& forall|i: int| #![trigger steps[i]]
        0 <= i < steps.len() ==> match steps[i] {
            Step::Expand(k) => snippet_expands(resolve, snippets[k], expansions[i]),
            _ => true,
        }
}

/// Whether `r` is the result of a walk that ends in the draft `d`.
pub open spec fn result_of(d: Draft, r: CommandResult) -> bool {
    &&& r.text@ == text::trimmed_end(Class::WhiteSpace, d.out)
    &&& r.clipboard_only == d.clipboard_only
    &&& r.code_mode == d.code_mode
}

pub proof fn lemma_phrase_from(tokens: Seq<Seq<char>>, i: int, k: int)
    requires
        0 <= k,
    ensures
        phrase_from(tokens, i, k) matches Some(p) ==> k <= p < phrases().len() && spoken_at(
            phrases()[p].0,
            tokens,
            i,
        ),
    decreases phrases().len() - k,
{
    if k < phrases().len() && !spoken_at(phrases()[k].0, tokens, i) {
        lemma_phrase_from(tokens, i, k + 1);
    }
}

/// The chosen trigger stands at `i`, no trigger that stands there is longer,
/// and none that comes before it is as long. One is chosen wherever one
/// stands.
pub proof fn law_longest_trigger_wins(
    trigs: Seq<Seq<Seq<char>>>,
    tokens: Seq<Seq<char>>,
    i: int,
    n: int,
)
    requires
        n <= trigs.len(),
    ensures
        match snippet_at(trigs, tokens, i, n) {
            Some(b) => {
                &&& 0 <= b < n
                &&& spoken_at(trigs[b], tokens, i)
                &&& forall|j: int|
                    0 <= j < n && #[trigger] spoken_at(trigs[j], tokens, i) ==> trigs[j].len()
                        < trigs[b].len() || (trigs[j].len() == trigs[b].len() && b <= j)
            },
            None => forall|j: int| 0 <= j < n ==> !#[trigger] spoken_at(trigs[j], tokens, i),
        },
    decreases n,
{
    if n > 0 {
        law_longest_trigger_wins(trigs, tokens, i, n - 1);
    }
}

/// The draft while it is being written.
struct Pad {
    out: Vec<char>,
    all_caps: bool,
    bullet_list: bool,
    clipboard_only: bool,
    code_mode: bool,
}

impl View for Pad {
    type V = Draft;

    closed spec fn view(&self) -> Draft {
        Draft {
            out: self.out@,
            all_caps: self.all_caps,
            bullet_list: self.bullet_list,
            clipboard_only: self.clipboard_only,
            code_mode: self.code_mode,
        }
    }
}

/// A command phrase and its action.
struct Phrase {
    words: Vec<Vec<char>>,
    action: Action,
}

spec fn is_entry(p: Phrase, entry: (Seq<Seq<char>>, Action)) -> bool {
    text::rows(p.words@) == entry.0 && p.action == entry.1
}

fn phrase1(a: &str, action: Action) -> (r: Phrase)
    ensures
        is_entry(r, (seq![a@], action)),
{
    let mut words: Vec<Vec<char>> = Vec::new();
    words.push(text::to_chars(a));
    let r = Phrase { words, action };
    assert(text::rows(r.words@) =~= seq![a@]);
    r
}

fn phrase2(a: &str, b: &str, action: Action) -> (r: Phrase)
    ensures
        is_entry(r, (seq![a@, b@], action)),
{
    let mut words: Vec<Vec<char>> = Vec::new();
    words.push(text::to_chars(a));
    words.push(text::to_chars(b));
    let r = Phrase { words, action };
    assert(text::rows(r.words@) =~= seq![a@, b@]);
    r
}

fn phrase3(a: &str, b: &str, c: &str, action: Action) -> (r: Phrase)
    ensures
        is_entry(r, (seq![a@, b@, c@], action)),
{
    let mut words: Vec<Vec<char>> = Vec::new();
    words.push(text::to_chars(a));
    words.push(text::to_chars(b));
    words.push(text::to_chars(c));
    let r = Phrase { words, action };
    assert(text::rows(r.words@) =~= seq![a@, b@, c@]);
    r
}

spec fn is_table(table: Seq<Phrase>) -> bool {
    &&& table.len() == phrases().len()
    &&& forall|k: int| 0 <= k < table.len() ==> is_entry(#[trigger] table[k], phrases()[k])
}

fn phrase_table() -> (r: Vec<Phrase>)
    ensures
        is_table(r@),
{
    let mut t: Vec<Phrase> = Vec::new();
    t.push(phrase3("all", "caps", "on", Action::SetAllCaps(true)));
    t.push(phrase3("all", "caps", "off", Action::SetAllCaps(false)));
    t.push(phrase2("new", "paragraph", Action::Newlines(2)));
    t.push(phrase2("new", "line", Action::Newlines(1)));
    t.push(phrase2("question", "mark", Action::Punct('?')));
    t.push(phrase2("exclamation", "point", Action::Punct('!')));
    t.push(phrase2("exclamation", "mark", Action::Punct('!')));
    t.push(phrase2("scratch", "that", Action::ScratchPrevSentence));
    t.push(phrase2("delete", "that", Action::ScratchPrevSentence));
    t.push(phrase2("cap", "that", Action::CapPrevWord));
    t.push(phrase2("bullet", "list", Action::BulletList));
    t.push(phrase2("clipboard", "instead", Action::ClipboardInstead));
    t.push(phrase2("code", "mode", Action::CodeMode));
    t.push(phrase1("newline", Action::Newlines(1)));
    t.push(phrase1("period", Action::Punct('.')));
    t.push(phrase1("comma", Action::Punct(',')));
    t
}

fn is_spoken_at(phrase: &Vec<Vec<char>>, tokens: &Vec<Vec<char>>, i: usize) -> (r: bool)
    requires
        i <= tokens.len(),
    ensures
        r == spoken_at(text::rows(phrase@), text::rows(tokens@), i as int),
{
    let n = phrase.len();
    if n == 0 || n > tokens.len() - i {
        return false;
    }
    let ghost p = text::rows(phrase@);
    let ghost t = text::rows(tokens@);
    let mut j: usize = 0;
    while j < n
        invariant
            j <= n,
            n == phrase.len(),
            i + n <= tokens.len(),
            p == text::rows(phrase@),
            t == text::rows(tokens@),
            t.subrange(i as int, i + j) == p.take(j as int),
        decreases n - j,
    {
        if !text::same(tokens[i + j].as_slice(), phrase[j].as_slice()) {
            assert(t.subrange(i as int, i + n)[j as int] == t[i + j]);
            return false;
        }
        assert(t.subrange(i as int, i + j + 1) == t.subrange(i as int, i + j).push(t[i + j]));
        assert(p.take(j + 1) == p.take(j as int).push(p[j as int]));
        j += 1;
    }
    assert(p.take(n as int) == p);
    true
}

fn match_phrase(table: &Vec<Phrase>, tokens: &Vec<Vec<char>>, i: usize) -> (r: Option<
    (usize, Action),
>)
    requires
        is_table(table@),
        i < tokens.len(),
    ensures
        match r {
            Some((n, a)) => phrase_from(text::rows(tokens@), i as int, 0) matches Some(k) && n
                == phrases()[k].0.len() && a == phrases()[k].1,
            None => phrase_from(text::rows(tokens@), i as int, 0) is None,
        },
{
    let mut k: usize = 0;
    while k < table.len()
        invariant
            k <= table.len(),
            is_table(table@),
            i < tokens.len(),
            phrase_from(text::rows(tokens@), i as int, 0) == phrase_from(
                text::rows(tokens@),
                i as int,
                k as int,
            ),
        decreases table.len() - k,
    {
        assert(is_entry(table@[k as int], phrases()[k as int]));
        if is_spoken_at(&table[k].words, tokens, i) {
            return Some((table[k].words.len(), table[k].action));
        }
        k += 1;
    }
    None
}

fn match_snippet(trigs: &Vec<Vec<Vec<char>>>, tokens: &Vec<Vec<char>>, i: usize) -> (r: Option<
    usize,
>)
    requires
        i < tokens.len(),
    ensures
        match r {
            Some(k) => snippet_at(
                word_lists(trigs@),
                text::rows(tokens@),
                i as int,
                trigs.len() as int,
            ) == Some(k as int),
            None => snippet_at(
                word_lists(trigs@),
                text::rows(tokens@),
                i as int,
                trigs.len() as int,
            ) is None,
        },
{
    let ghost ts = word_lists(trigs@);
    let ghost toks = text::rows(tokens@);
    let mut best: Option<usize> = None;
    let mut n: usize = 0;
    while n < trigs.len()
        invariant
            n <= trigs.len(),
            i < tokens.len(),
            ts == word_lists(trigs@),
            toks == text::rows(tokens@),
            best matches Some(b) ==> b < n,
            snippet_at(ts, toks, i as int, n as int) == match best {
                Some(b) => Some(b as int),
                None => None,
            },
        decreases trigs.len() - n,
    {
        assert(ts[n as int] == text::rows(trigs@[n as int]@));
        if is_spoken_at(&trigs[n], tokens, i) {
            let longer = match best {
                Some(b) => trigs[n].len() > trigs[b].len(),
                None => true,
            };
            assert(best matches Some(b) ==> ts[b as int].len() == trigs@[b as int].len());
            if longer {
                best = Some(n);
            }
        }
        n += 1;
    }
    best
}

fn put_word(out: &mut Vec<char>, word: &[char])
    ensures
        final(out)@ == with_word(old(out)@, word@),
{
    if word.len() == 0 {
        return ;
    }
    if out.len() > 0 && !out[out.len() - 1].is_whitespace() {
        out.push(' ');
    }
    text::append(out, word);
}

fn put_expansion(out: &mut Vec<char>, expansion: &[char])
    ensures
        final(out)@ == with_expansion(old(out)@, expansion@),
{
    if expansion.len() > 0 && expansion[0].is_whitespace() {
        text::append(out, expansion);
    } else {
        put_word(out, expansion);
    }
}

fn put_bullet(out: &mut Vec<char>)
    ensures
        final(out)@ == old(out)@ + bullet(),
{
    out.push('-');
    out.push(' ');
    assert(out@ == old(out)@ + bullet());
}

fn scratch_prev_sentence(out: &mut Vec<char>)
    ensures
        final(out)@ == up_to_sentence_end(old(out)@),
{
    let ghost start = out@;
    loop
        invariant
            up_to_sentence_end(start) == up_to_sentence_end(out@),
        ensures
            out@ == up_to_sentence_end(start),
        decreases out.len(),
    {
        if out.len() == 0 {
            break;
        }
        let c = out[out.len() - 1];
        if c == '.' || c == '!' || c == '?' {
            break;
        }
        let _ = out.pop();
    }
}

fn cap_prev_word(out: &mut Vec<char>)
    ensures
        final(out)@ == last_word_capitalised(old(out)@),
{
    let ghost s = out@;
    let mut end: usize = out.len();
    assert(s.take(end as int) == s);
    while end > 0 && !out[end - 1].is_alphabetic()
        invariant
            end <= out.len(),
            out@ == s,
            letters_end(s) == letters_end(s.take(end as int)),
        decreases end,
    {
        assert(s.take(end as int).drop_last() == s.take(end - 1));
        end -= 1;
    }
    if end == 0 {
        return ;
    }
    let mut start: usize = end;
    while start > 0 && out[start - 1].is_alphabetic()
        invariant
            start <= end <= out.len(),
            out@ == s,
            letters_start(s.take(end as int)) == letters_start(s.take(start as int)),
            start == end ==> end > 0 && chars::alphabetic(s[end - 1]),
        decreases start,
    {
        assert(s.take(start as int).drop_last() == s.take(start - 1));
        start -= 1;
    }
    let mut r = text::copied(slice_subrange(out.as_slice(), 0, start));
    let mut first: Vec<char> = Vec::new();
    first.push(out[start]);
    assert(first@ == seq![s[start as int]]);
    let up = text::upper(first.as_slice());
    text::append(&mut r, up.as_slice());
    text::append(&mut r, slice_subrange(out.as_slice(), start + 1, out.len()));
    assert(r@ == last_word_capitalised(s));
    *out = r;
}

fn apply_action(action: Action, pad: &mut Pad)
    ensures
        final(pad)@ == acted(action, old(pad)@),
{
    match action {
        Action::Newlines(n) => {
            text::drop_trailing(Class::Blank, &mut pad.out);
            let ghost line = pad.out@;
            let mut i: u8 = 0;
            while i < n
                invariant
                    i <= n,
                    pad.out@ == with_newlines(line, i as nat),
                    pad@ == (Draft { out: pad.out@, ..old(pad)@ }),
                decreases n - i,
            {
                pad.out.push('\n');
                i += 1;
            }
            if pad.bullet_list {
                put_bullet(&mut pad.out);
            }
            assert(pad@ =~= acted(action, old(pad)@));
        },
        Action::Punct(c) => {
            text::drop_trailing(Class::Blank, &mut pad.out);
            let mut skip = false;
            if pad.out.len() > 0 {
                let last = pad.out[pad.out.len() - 1];
                skip = last == c || (c == '.' && (last == '.' || last == '!' || last == '?'));
            }
            if !skip {
                pad.out.push(c);
            }
        },
        Action::ScratchPrevSentence => {
            scratch_prev_sentence(&mut pad.out);
        },
        Action::CapPrevWord => {
            cap_prev_word(&mut pad.out);
        },
        Action::SetAllCaps(on) => {
            pad.all_caps = on;
        },
        Action::BulletList => {
            pad.bullet_list = true;
            text::drop_trailing(Class::Blank, &mut pad.out);
            if pad.out.len() > 0 && pad.out[pad.out.len() - 1] != '\n' {
                pad.out.push('\n');
            }
            put_bullet(&mut pad.out);
        },
        Action::ClipboardInstead => {
            pad.clipboard_only = true;
        },
        Action::CodeMode => {
            pad.code_mode = true;
        },
    }
}

/// `template` with each variable replaced by what `resolve` says of it.
fn expand_template<F: Fn(&str) -> Option<String>>(template: &[char], resolve: &F) -> (r: Vec<char>)
    requires
        forall|k: &str| call_requires(*resolve, (k,)),
    ensures
        expands(*resolve, template@, r@),
{
    let mut open: Vec<char> = Vec::new();
    open.push('{');
    open.push('{');
    let mut close: Vec<char> = Vec::new();
    close.push('}');
    close.push('}');
    assert(open@ == opening());
    assert(close@ == closing());
    let ghost mut done: Seq<Piece> = Seq::empty();
    let ghost mut values: Seq<Option<Seq<char>>> = Seq::empty();
    let mut out: Vec<char> = Vec::new();
    let mut at: usize = 0;
    assert(template@.skip(0) == template@);
    loop
        invariant_except_break
            at <= template.len(),
            open@ == opening(),
            close@ == closing(),
            forall|k: &str| call_requires(*resolve, (k,)),
            pieces(template@) == done + pieces(template@.skip(at as int)),
            answered(*resolve, done, values),
            out@ == filled(done, values),
        ensures
            expands(*resolve, template@, out@),
        decreases template.len() - at,
    {
        let rest = slice_subrange(template, at, template.len());
        assert(rest@ == template@.skip(at as int));
        let mut hole: Option<(usize, usize)> = None;
        if let Some(p) = text::find(rest, open.as_slice()) {
            let after = slice_subrange(rest, p + 2, rest.len());
            assert(after@ == rest@.skip(p + 2));
            if let Some(q) = text::find(after, close.as_slice()) {
                hole = Some((p, q));
            }
        }
        match hole {
            None => {
                text::append(&mut out, rest);
                proof {
                    let old_done = done;
                    let old_values = values;
                    done = done.push(Piece::Text(rest@));
                    values = values.push(None);
                    assert(done.drop_last() == old_done);
                    assert(values.drop_last() == old_values);
                    assert(filled(done, values) == filled(old_done, old_values) + rest@);
                    assert(done == pieces(template@));
                    assert(answered(*resolve, pieces(template@), values));
                }
                break;
            },
            Some((p, q)) => {
                let after = slice_subrange(rest, p + 2, rest.len());
                let inner = slice_subrange(after, 0, q);
                let key = text::to_text(text::trim(Class::WhiteSpace, inner));
                text::append(&mut out, slice_subrange(rest, 0, p));
                let got = resolve(key.as_str());
                let ghost value = answer(got);
                match got {
                    Some(v) => {
                        let chars_of = text::to_chars(v.as_str());
                        text::append(&mut out, chars_of.as_slice());
                    },
                    None => {
                        text::append(&mut out, open.as_slice());
                        text::append(&mut out, inner);
                        text::append(&mut out, close.as_slice());
                    },
                }
                proof {
                    assert(after@ == rest@.skip(p + 2));
                    assert(inner@ == after@.take(q as int));
                    assert(resolves(*resolve, text::trimmed(Class::WhiteSpace, inner@), value));
                    let head = Piece::Text(rest@.take(p as int));
                    let hole = Piece::Var(inner@);
                    let d0 = done;
                    let v0 = values;
                    let d1 = d0.push(head);
                    let v1 = v0.push(None);
                    assert(d1.drop_last() == d0);
                    assert(v1.drop_last() == v0);
                    done = d1.push(hole);
                    values = v1.push(value);
                    assert(done.drop_last() == d1);
                    assert(values.drop_last() == v1);
                    let tail = after@.skip(q + 2);
                    assert(tail == template@.skip(at + p + q + 4));
                    assert(done + pieces(tail) == d0 + (seq![head, hole] + pieces(tail)));
                    assert(filled(d1, v1) == filled(d0, v0) + rest@.take(p as int));
                    assert(filled(done, values) == filled(d1, v1) + shown(hole, value));
                    assert(out@ == filled(done, values));
                }
                at = at + p + q + 4;
            },
        }
    }
    out
}

fn trigger_tokens(trigger: &str) -> (r: Vec<Vec<char>>)
    ensures
        text::rows(r@) == trigger_words(trigger@),
{
    let cs = text::to_chars(trigger);
    let ws = text::split_words(cs.as_slice());
    let mut out: Vec<Vec<char>> = Vec::new();
    let mut i: usize = 0;
    while i < ws.len()
        invariant
            i <= ws.len(),
            text::rows(ws@) == text::words(trigger@),
            text::rows(out@) == trigger_words(trigger@).take(i as int),
        decreases ws.len() - i,
    {
        let w = text::lower(ws[i].as_slice());
        let ghost before = out@;
        assert(text::words(trigger@)[i as int] == ws@[i as int]@);
        out.push(w);
        assert(text::rows(out@) == text::rows(before).push(w@));
        i += 1;
    }
    assert(trigger_words(trigger@).take(i as int) == trigger_words(trigger@));
    out
}

fn normalized_tokens(raw: &Vec<Vec<char>>) -> (r: Vec<Vec<char>>)
    ensures
        text::rows(r@) == normalized_words(text::rows(raw@)),
{
    let ghost all = normalized_words(text::rows(raw@));
    let mut out: Vec<Vec<char>> = Vec::new();
    let mut i: usize = 0;
    while i < raw.len()
        invariant
            i <= raw.len(),
            all == normalized_words(text::rows(raw@)),
            text::rows(out@) == all.take(i as int),
        decreases raw.len() - i,
    {
        let w = text::lower(text::trim(Class::AsciiPunctuation, raw[i].as_slice()));
        let ghost before = out@;
        assert(text::rows(raw@)[i as int] == raw@[i as int]@);
        out.push(w);
        assert(text::rows(out@) == text::rows(before).push(w@));
        i += 1;
    }
    assert(all.take(i as int) == all);
    out
}

fn all_triggers(snippets: &[Snippet]) -> (r: Vec<Vec<Vec<char>>>)
    ensures
        word_lists(r@) == triggers(snippets@),
{
    let mut out: Vec<Vec<Vec<char>>> = Vec::new();
    let mut i: usize = 0;
    while i < snippets.len()
        invariant
            i <= snippets.len(),
            word_lists(out@) == triggers(snippets@).take(i as int),
        decreases snippets.len() - i,
    {
        let w = trigger_tokens(snippets[i].trigger.as_str());
        let ghost before = out@;
        out.push(w);
        assert(word_lists(out@) =~= word_lists(before).push(text::rows(w@)));
        i += 1;
    }
    assert(triggers(snippets@).take(i as int) == triggers(snippets@));
    out
}

/// The triggers that a list of word lists holds.
pub open spec fn word_lists(v: Seq<Vec<Vec<char>>>) -> Seq<Seq<Seq<char>>> {
    v.map_values(|ws: Vec<Vec<char>>| text::rows(ws@))
}

/// Carries out the commands among words and expands the snippets whose
/// triggers stand there. `tokens` are the words as they are compared with
/// phrases, `trigs` the words of each snippet's trigger.
pub fn walk_words<F: Fn(&str) -> Option<String>>(
    raw: &Vec<Vec<char>>,
    tokens: &Vec<Vec<char>>,
    trigs: &Vec<Vec<Vec<char>>>,
    snippets: &[Snippet],
    resolve_var: &F,
) -> (r: CommandResult)
    requires
        raw.len() == tokens.len(),
        trigs.len() == snippets@.len(),
        forall|k: &str| call_requires(*resolve_var, (k,)),
    ensures
        exists|expansions: Seq<Seq<char>>| #[trigger]
            expanded(
                *resolve_var,
                snippets@,
                steps_from(text::rows(tokens@), word_lists(trigs@), 0),
                expansions,
            ) && result_of(
                walked(
                    text::rows(raw@),
                    steps_from(text::rows(tokens@), word_lists(trigs@), 0),
                    expansions,
                ),
                r,
            ),
{
    let table = phrase_table();
    let ghost toks = text::rows(tokens@);
    let ghost ts = word_lists(trigs@);
    let ghost all = steps_from(toks, ts, 0);
    let ghost mut done: Seq<Step> = Seq::empty();
    let ghost mut exps: Seq<Seq<char>> = Seq::empty();
    let mut pad = Pad {
        out: Vec::new(),
        all_caps: false,
        bullet_list: false,
        clipboard_only: false,
        code_mode: false,
    };
    assert(pad@ =~= blank_draft());
    let mut i: usize = 0;
    while i < tokens.len()
        invariant
            i <= tokens.len(),
            raw.len() == tokens.len(),
            trigs.len() == snippets@.len(),
            is_table(table@),
            forall|k: &str| call_requires(*resolve_var, (k,)),
            toks == text::rows(tokens@),
            ts == word_lists(trigs@),
            all == steps_from(toks, ts, 0),
            all == done + steps_from(toks, ts, i as int),
            expanded(*resolve_var, snippets@, done, exps),
            pad@ == walked(text::rows(raw@), done, exps),
        decreases tokens.len() - i,
    {
        let ghost d0 = done;
        let ghost e0 = exps;
        let ghost tail: Seq<Step>;
        match match_phrase(&table, tokens, i) {
            Some((n, action)) => {
                apply_action(action, &mut pad);
                proof {
                    lemma_phrase_from(toks, i as int, 0);
                    tail = steps_from(toks, ts, i + n);
                    done = d0.push(Step::Act(action));
                    exps = e0.push(Seq::empty());
                }
                i += n;
            },
            None => {
                match match_snippet(trigs, tokens, i) {
                    Some(k) => {
                        proof {
                            law_longest_trigger_wins(ts, toks, i as int, ts.len() as int);
                        }
                        let template = text::to_chars(snippets[k].expansion.as_str());
                        let expansion = if snippets[k].is_dynamic {
                            expand_template(template.as_slice(), resolve_var)
                        } else {
                            template
                        };
                        put_expansion(&mut pad.out, expansion.as_slice());
                        assert(ts[k as int] == text::rows(trigs@[k as int]@));
                        proof {
                            tail = steps_from(toks, ts, i + trigs@[k as int].len());
                            done = d0.push(Step::Expand(k as int));
                            exps = e0.push(expansion@);
                        }
                        i += trigs[k].len();
                    },
                    None => {
                        assert(text::rows(raw@)[i as int] == raw@[i as int]@);
                        if pad.all_caps {
                            let w = text::upper(raw[i].as_slice());
                            put_word(&mut pad.out, w.as_slice());
                        } else {
                            put_word(&mut pad.out, raw[i].as_slice());
                        }
                        proof {
                            tail = steps_from(toks, ts, i + 1);
                            done = d0.push(Step::Say(i as int));
                            exps = e0.push(Seq::empty());
                        }
                        i += 1;
                    },
                }
            },
        }
        proof {
            assert(done.drop_last() == d0);
            assert(exps.drop_last() == e0);
            assert(tail == steps_from(toks, ts, i as int));
            assert(all == d0 + (seq![done.last()] + tail));
            assert(all == done + tail);
            assert(pad@ =~= walked(text::rows(raw@), done, exps));
        }
    }
    assert(all == done);
    let kept = text::to_text(text::trim_end(Class::WhiteSpace, pad.out.as_slice()));
    let r = CommandResult {
        text: kept,
        clipboard_only: pad.clipboard_only,
        code_mode: pad.code_mode,
    };
    assert(result_of(walked(text::rows(raw@), all, exps), r));
    r
}

/// Walks `input` word by word, carries out the commands in it and expands the
/// snippets whose triggers it holds.
///
/// `resolve_var` gives the values of the variables in dynamic snippets; a
/// variable it has no value for stays as it is written.
pub fn apply_voice_commands_with_snippets<F: Fn(&str) -> Option<String>>(
    input: &str,
    snippets: &[Snippet],
    resolve_var: &F,
) -> (r: CommandResult)
    requires
        forall|k: &str| call_requires(*resolve_var, (k,)),
    ensures
        exists|expansions: Seq<Seq<char>>| #[trigger]
            expanded(*resolve_var, snippets@, steps(input@, snippets@), expansions) && result_of(
                walked(text::words(input@), steps(input@, snippets@), expansions),
                r,
            ),
{
    let cs = text::to_chars(input);
    let raw = text::split_words(cs.as_slice());
    let tokens = normalized_tokens(&raw);
    let trigs = all_triggers(snippets);
    assert(text::rows(raw@).len() == text::rows(tokens@).len());
    assert(triggers(snippets@).len() == trigs@.len());
    assert(steps(input@, snippets@) == steps_from(text::rows(tokens@), word_lists(trigs@), 0));
    let r = walk_words(&raw, &tokens, &trigs, snippets, resolve_var);
    proof {
        let all = steps(input@, snippets@);
        let e = choose|e: Seq<Seq<char>>| #[trigger]
            expanded(*resolve_var, snippets@, all, e) && result_of(
                walked(text::rows(raw@), all, e),
                r,
            );
        assert(expanded(*resolve_var, snippets@, all, e));
    }
    r
}

/// Whether a list of steps holds no snippet.
pub open spec fn without_snippets(steps: Seq<Step>) -> bool {
    forall|i: int| 0 <= i < steps.len() ==> !(#[trigger] steps[i] is Expand)
}

proof fn lemma_no_triggers_no_expansions(tokens: Seq<Seq<char>>, i: int)
    ensures
        without_snippets(steps_from(tokens, Seq::empty(), i)),
    decreases tokens.len() - i,
{
    if 0 <= i < tokens.len() {
        lemma_phrase_from(tokens, i, 0);
        match phrase_from(tokens, i, 0) {
            Some(k) => {
                lemma_no_triggers_no_expansions(tokens, i + phrases()[k].0.len());
            },
            None => {
                lemma_no_triggers_no_expansions(tokens, i + 1);
            },
        }
    }
}

/// Without snippets the outcome does not depend on any expansion.
pub proof fn law_expansions_matter_to_snippets_only(
    raw: Seq<Seq<char>>,
    steps: Seq<Step>,
    e1: Seq<Seq<char>>,
    e2: Seq<Seq<char>>,
)
    requires
        without_snippets(steps),
        e1.len() == steps.len(),
        e2.len() == steps.len(),
    ensures
        walked(raw, steps, e1) == walked(raw, steps, e2),
    decreases steps.len(),
{
    if steps.len() > 0 {
        assert(!(steps[steps.len() - 1] is Expand));
        assert forall|i: int| 0 <= i < steps.drop_last().len() implies !(
        #[trigger] steps.drop_last()[i] is Expand) by {
            assert(!(steps[i] is Expand));
        }
        law_expansions_matter_to_snippets_only(
            raw,
            steps.drop_last(),
            e1.drop_last(),
            e2.drop_last(),
        );
    }
}

/// One empty text for each step.
pub open spec fn no_expansions(steps: Seq<Step>) -> Seq<Seq<char>> {
    Seq::new(steps.len(), |i: int| Seq::empty())
}

/// Walks `input` word by word and carries out the commands in it.
pub fn apply_voice_commands(input: &str) -> (r: CommandResult)
    ensures
        result_of(
            walked(
                text::words(input@),
                steps(input@, Seq::empty()),
                no_expansions(steps(input@, Seq::empty())),
            ),
            r,
        ),
{
    let none = |k: &str| -> (r: Option<String>)
        ensures
            r is None,
        { None };
    let empty: Vec<Snippet> = Vec::new();
    let r = apply_voice_commands_with_snippets(input, empty.as_slice(), &none);
    proof {
        let all = steps(input@, Seq::empty());
        assert(empty@ == Seq::<Snippet>::empty());
        assert(triggers(Seq::empty()) == Seq::<Seq<Seq<char>>>::empty());
        lemma_no_triggers_no_expansions(normalized_words(text::words(input@)), 0);
        let e = choose|e: Seq<Seq<char>>| #[trigger]
            expanded(none, empty@, steps(input@, empty@), e) && result_of(
                walked(text::words(input@), steps(input@, empty@), e),
                r,
            );
        law_expansions_matter_to_snippets_only(text::words(input@), all, e, no_expansions(all));
    }
    r
}

proof fn lemma_filled_by_variables(
    pieces: Seq<Piece>,
    v1: Seq<Option<Seq<char>>>,
    v2: Seq<Option<Seq<char>>>,
)
    requires
        v1.len() == pieces.len(),
        v2.len() == pieces.len(),
        forall|i: int| 0 <= i < pieces.len() && #[trigger] pieces[i] is Var ==> v1[i] == v2[i],
    ensures
        filled(pieces, v1) == filled(pieces, v2),
    decreases pieces.len(),
{
    if pieces.len() > 0 {
        let n = pieces.len() - 1;
        assert(pieces[n] == pieces.last());
        assert forall|i: int| 0 <= i < n && #[trigger] pieces.drop_last()[i] is Var implies
            v1.drop_last()[i] == v2.drop_last()[i] by {
            assert(pieces[i] is Var);
        }
        lemma_filled_by_variables(pieces.drop_last(), v1.drop_last(), v2.drop_last());
    }
}

/// Whether every answer of `resolve` is the one that `g` gives.
pub open spec fn determined<F: Fn(&str) -> Option<String>>(
    resolve: F,
    g: spec_fn(Seq<char>) -> Option<Seq<char>>,
) -> bool {
    forall|k: &str, r: Option<String>| #[trigger]
        call_ensures(resolve, (k,), r) ==> answer(r) == g(k@)
}

/// The values that `g` gives the variables among the pieces.
pub open spec fn values_by(
    pieces: Seq<Piece>,
    g: spec_fn(Seq<char>) -> Option<Seq<char>>,
) -> Seq<Option<Seq<char>>> {
    pieces.map_values(
        |p: Piece|
            match p {
                Piece::Text(_) => None,
                Piece::Var(k) => g(text::trimmed(Class::WhiteSpace, k)),
            },
    )
}

/// A resolver whose answers are determined determines what a template becomes.
pub proof fn law_template_determined<F: Fn(&str) -> Option<String>>(
    resolve: F,
    g: spec_fn(Seq<char>) -> Option<Seq<char>>,
    template: Seq<char>,
    out: Seq<char>,
)
    requires
        determined(resolve, g),
        expands(resolve, template, out),
    ensures
        out == filled(pieces(template), values_by(pieces(template), g)),
{
    let ps = pieces(template);
    let vs = choose|values: Seq<Option<Seq<char>>>| #[trigger]
        answered(resolve, ps, values) && out == filled(ps, values);
    assert forall|i: int| 0 <= i < ps.len() && #[trigger] ps[i] is Var implies vs[i] == values_by(
        ps,
        g,
    )[i] by {
        assert(resolves(resolve, text::trimmed(Class::WhiteSpace, ps[i]->Var_0), vs[i]));
    }
    lemma_filled_by_variables(ps, vs, values_by(ps, g));
}

/// What each step writes when the variables have the values that `g` gives.
pub open spec fn expansions_by(
    snippets: Seq<Snippet>,
    steps: Seq<Step>,
    g: spec_fn(Seq<char>) -> Option<Seq<char>>,
) -> Seq<Seq<char>> {
    steps.map_values(
        |s: Step|
            match s {
                Step::Expand(k) => if snippets[k].is_dynamic {
                    filled(
                        pieces(snippets[k].expansion@),
                        values_by(pieces(snippets[k].expansion@), g),
                    )
                } else {
                    snippets[k].expansion@
                },
                _ => Seq::empty(),
            },
    )
}

proof fn lemma_walk_by_expansions(
    raw: Seq<Seq<char>>,
    steps: Seq<Step>,
    e1: Seq<Seq<char>>,
    e2: Seq<Seq<char>>,
)
    requires
        e1.len() == steps.len(),
        e2.len() == steps.len(),
        forall|i: int| 0 <= i < steps.len() && #[trigger] steps[i] is Expand ==> e1[i] == e2[i],
    ensures
        walked(raw, steps, e1) == walked(raw, steps, e2),
    decreases steps.len(),
{
    if steps.len() > 0 {
        assert(steps[steps.len() - 1] == steps.last());
        assert forall|i: int|
            0 <= i < steps.drop_last().len() && #[trigger] steps.drop_last()[i] is Expand implies
            e1.drop_last()[i] == e2.drop_last()[i] by {
            assert(steps[i] is Expand);
        }
        lemma_walk_by_expansions(raw, steps.drop_last(), e1.drop_last(), e2.drop_last());
    }
}

/// A resolver whose answers are determined determines the whole walk.
pub proof fn law_walk_determined<F: Fn(&str) -> Option<String>>(
    resolve: F,
    g: spec_fn(Seq<char>) -> Option<Seq<char>>,
    input: Seq<char>,
    snippets: Seq<Snippet>,
    expansions: Seq<Seq<char>>,
)
    requires
        determined(resolve, g),
        expanded(resolve, snippets, steps(input, snippets), expansions),
    ensures
        walked(text::words(input), steps(input, snippets), expansions) == walked(
            text::words(input),
            steps(input, snippets),
            expansions_by(snippets, steps(input, snippets), g),
        ),
{
    let all = steps(input, snippets);
    let by = expansions_by(snippets, all, g);
    assert forall|i: int| 0 <= i < all.len() && #[trigger] all[i] is Expand implies expansions[i]
        == by[i] by {
        let s = snippets[all[i]->Expand_0];
        assert(snippet_expands(resolve, s, expansions[i]));
        if s.is_dynamic {
            law_template_determined(resolve, g, s.expansion@, expansions[i]);
        }
    }
    lemma_walk_by_expansions(text::words(input), all, expansions, by);
}

/// Whether two snippets are spoken alike and stand for the same text.
pub open spec fn same_snippet(a: Snippet, b: Snippet) -> bool {
    &&& trigger_words(a.trigger@) == trigger_words(b.trigger@)
    &&& a.expansion@ == b.expansion@
    &&& a.is_dynamic == b.is_dynamic
}

/// Whether a snippet is among others.
pub open spec fn is_among(a: Snippet, snippets: Seq<Snippet>) -> bool {
    exists|k: int| 0 <= k < snippets.len() && same_snippet(a, #[trigger] snippets[k])
}

/// Whether no two snippets are spoken alike.
pub open spec fn told_apart(snippets: Seq<Snippet>) -> bool {
    forall|j: int, k: int|
        0 <= j < k < snippets.len() && trigger_words((#[trigger] snippets[j]).trigger@).len() > 0
            ==> trigger_words(snippets[j].trigger@) != trigger_words(
            (#[trigger] snippets[k]).trigger@,
        )
}

/// Whether two steps over two lists of snippets write the same.
spec fn steps_agree(s: Seq<Snippet>, t: Seq<Snippet>, x: Step, y: Step) -> bool {
    match x {
        Step::Expand(a) => match y {
            Step::Expand(b) => 0 <= a < s.len() && 0 <= b < t.len() && same_snippet(s[a], t[b]),
            _ => false,
        },
        _ => x == y,
    }
}

/// Two lists of the same snippets choose the same snippet.
proof fn lemma_same_choice(s: Seq<Snippet>, t: Seq<Snippet>, tokens: Seq<Seq<char>>, i: int)
    requires
        told_apart(t),
        forall|k: int| 0 <= k < s.len() ==> is_among(#[trigger] s[k], t),
        forall|k: int| 0 <= k < t.len() ==> is_among(#[trigger] t[k], s),
    ensures
        match (
            snippet_at(triggers(s), tokens, i, s.len() as int),
            snippet_at(triggers(t), tokens, i, t.len() as int),
        ) {
            (Some(a), Some(b)) => 0 <= a < s.len() && 0 <= b < t.len() && same_snippet(s[a], t[b]),
            (None, None) => true,
            _ => false,
        },
{
    let ts = triggers(s);
    let tt = triggers(t);
    law_longest_trigger_wins(ts, tokens, i, s.len() as int);
    law_longest_trigger_wins(tt, tokens, i, t.len() as int);
    let x = snippet_at(ts, tokens, i, s.len() as int);
    let y = snippet_at(tt, tokens, i, t.len() as int);
    if let Some(a) = x {
        assert(is_among(s[a], t));
        let k = choose|k: int| 0 <= k < t.len() && same_snippet(s[a], #[trigger] t[k]);
        assert(tt[k] == ts[a]);
        assert(spoken_at(tt[k], tokens, i));
        assert(y is Some);
        let b = y->Some_0;
        assert(is_among(t[b], s));
        let j = choose|j: int| 0 <= j < s.len() && same_snippet(t[b], #[trigger] s[j]);
        assert(ts[j] == tt[b]);
        assert(spoken_at(ts[j], tokens, i));
        assert(ts[a].len() == tt[b].len());
        assert(ts[a] == tt[b]);
        assert(k == b) by {
            assert(trigger_words(t[k].trigger@) == trigger_words(t[b].trigger@));
        }
    } else if let Some(b) = y {
        assert(is_among(t[b], s));
        let j = choose|j: int| 0 <= j < s.len() && same_snippet(t[b], #[trigger] s[j]);
        assert(ts[j] == tt[b]);
        assert(spoken_at(ts[j], tokens, i));
    }
}

proof fn lemma_same_steps(s: Seq<Snippet>, t: Seq<Snippet>, tokens: Seq<Seq<char>>, i: int)
    requires
        told_apart(t),
        forall|k: int| 0 <= k < s.len() ==> is_among(#[trigger] s[k], t),
        forall|k: int| 0 <= k < t.len() ==> is_among(#[trigger] t[k], s),
    ensures
        steps_from(tokens, triggers(s), i).len() == steps_from(tokens, triggers(t), i).len(),
        forall|j: int|
            0 <= j < steps_from(tokens, triggers(s), i).len() ==> steps_agree(
                s,
                t,
                #[trigger] steps_from(tokens, triggers(s), i)[j],
                steps_from(tokens, triggers(t), i)[j],
            ),
    decreases tokens.len() - i,
{
    let ts = triggers(s);
    let tt = triggers(t);
    if 0 <= i < tokens.len() {
        lemma_phrase_from(tokens, i, 0);
        lemma_same_choice(s, t, tokens, i);
        law_longest_trigger_wins(ts, tokens, i, s.len() as int);
        let next = match phrase_from(tokens, i, 0) {
            Some(k) => i + phrases()[k].0.len(),
            None => match snippet_at(ts, tokens, i, ts.len() as int) {
                Some(k) => i + ts[k].len(),
                None => i + 1,
            },
        };
        lemma_same_steps(s, t, tokens, next);
        let x = steps_from(tokens, ts, i);
        let y = steps_from(tokens, tt, i);
        let xs = steps_from(tokens, ts, next);
        let ys = steps_from(tokens, tt, next);
        assert(x == seq![x[0]] + xs);
        assert(y == seq![y[0]] + ys);
        assert forall|j: int| 0 <= j < x.len() implies steps_agree(s, t, #[trigger] x[j], y[j]) by {
            if j > 0 {
                assert(x[j] == xs[j - 1]);
                assert(y[j] == ys[j - 1]);
            }
        }
    }
}

proof fn lemma_same_walk(
    raw: Seq<Seq<char>>,
    s: Seq<Snippet>,
    t: Seq<Snippet>,
    x: Seq<Step>,
    y: Seq<Step>,
    e: Seq<Seq<char>>,
    f: Seq<Seq<char>>,
)
    requires
        x.len() == y.len(),
        e.len() == x.len(),
        f.len() == x.len(),
        forall|j: int| 0 <= j < x.len() ==> steps_agree(s, t, #[trigger] x[j], y[j]),
        forall|j: int| 0 <= j < x.len() && #[trigger] x[j] is Expand ==> e[j] == f[j],
    ensures
        walked(raw, x, e) == walked(raw, y, f),
    decreases x.len(),
{
    if x.len() > 0 {
        let n = x.len() - 1;
        assert(steps_agree(s, t, x[n], y[n]));
        assert forall|j: int| 0 <= j < n implies steps_agree(
            s,
            t,
            #[trigger] x.drop_last()[j],
            y.drop_last()[j],
        ) && (x.drop_last()[j] is Expand ==> e.drop_last()[j] == f.drop_last()[j]) by {
            assert(steps_agree(s, t, x[j], y[j]));
        }
        lemma_same_walk(
            raw,
            s,
            t,
            x.drop_last(),
            y.drop_last(),
            e.drop_last(),
            f.drop_last(),
        );
    }
}

/// The order of the snippets does not matter where no two are spoken alike:
/// lists of the same snippets walk an input to the same draft.
pub proof fn law_snippet_order_does_not_matter<F: Fn(&str) -> Option<String>>(
    resolve: F,
    g: spec_fn(Seq<char>) -> Option<Seq<char>>,
    input: Seq<char>,
    s: Seq<Snippet>,
    t: Seq<Snippet>,
    e: Seq<Seq<char>>,
    f: Seq<Seq<char>>,
)
    requires
        told_apart(t),
        forall|k: int| 0 <= k < s.len() ==> is_among(#[trigger] s[k], t),
        forall|k: int| 0 <= k < t.len() ==> is_among(#[trigger] t[k], s),
        determined(resolve, g),
        expanded(resolve, s, steps(input, s), e),
        expanded(resolve, t, steps(input, t), f),
    ensures
        walked(text::words(input), steps(input, s), e) == walked(
            text::words(input),
            steps(input, t),
            f,
        ),
{
    let x = steps(input, s);
    let y = steps(input, t);
    let by_s = expansions_by(s, x, g);
    let by_t = expansions_by(t, y, g);
    law_walk_determined(resolve, g, input, s, e);
    law_walk_determined(resolve, g, input, t, f);
    lemma_same_steps(s, t, normalized_words(text::words(input)), 0);
    assert forall|j: int| 0 <= j < x.len() && #[trigger] x[j] is Expand implies by_s[j]
        == by_t[j] by {
        assert(steps_agree(s, t, x[j], y[j]));
    }
    lemma_same_walk(text::words(input), s, t, x, y, by_s, by_t);
}

/// A template none of whose variables has a value is written as it stands.
pub proof fn law_unresolved_template_unchanged(template: Seq<char>)
    ensures
        filled(pieces(template), values_by(pieces(template), |k: Seq<char>| None)) == template,
    decreases template.len(),
{
    let g = |k: Seq<char>| None::<Seq<char>>;
    match text::first_of(template, opening()) {
        None => {
            lemma_one_text(template, g);
        },
        Some(p) => {
            let after = template.skip(p + 2);
            match text::first_of(after, closing()) {
                None => {
                    lemma_one_text(template, g);
                },
                Some(q) => {
                    text::lemma_first_from_occurs(template, opening(), 0);
                    text::lemma_first_from_occurs(after, closing(), 0);
                    let rest = after.skip(q + 2);
                    let head = seq![Piece::Text(template.take(p)), Piece::Var(after.take(q))];
                    law_unresolved_template_unchanged(rest);
                    lemma_filled_append(head, pieces(rest), g);
                    lemma_one_hole(template.take(p), after.take(q), g);
                    lemma_around_hole(template, p, q);
                },
            }
        },
    }
}

proof fn lemma_around_hole(template: Seq<char>, p: int, q: int)
    requires
        text::occurs_at(template, opening(), p),
        text::occurs_at(template.skip(p + 2), closing(), q),
    ensures
        template == template.take(p) + (opening() + template.skip(p + 2).take(q) + closing())
            + template.skip(p + 2).skip(q + 2),
{
    let after = template.skip(p + 2);
    assert(template =~= template.take(p) + template.subrange(p, p + 2) + after);
    assert(after =~= after.take(q) + after.subrange(q, q + 2) + after.skip(q + 2));
    assert(template.subrange(p, p + 2) == opening());
    assert(after.subrange(q, q + 2) == closing());
    let x = template.take(p);
    let y = after.take(q);
    let z = after.skip(q + 2);
    assert(x + opening() + (y + closing() + z) =~= x + (opening() + y + closing()) + z);
}

proof fn lemma_one_hole(head: Seq<char>, key: Seq<char>, g: spec_fn(Seq<char>) -> Option<Seq<char>>)
    requires
        forall|k: Seq<char>| #[trigger] g(k) is None,
    ensures
        filled(
            seq![Piece::Text(head), Piece::Var(key)],
            values_by(seq![Piece::Text(head), Piece::Var(key)], g),
        ) == head + (opening() + key + closing()),
{
    let ps = seq![Piece::Text(head), Piece::Var(key)];
    let vs = values_by(ps, g);
    lemma_one_text(head, g);
    assert(ps.drop_last() =~= seq![Piece::Text(head)]);
    assert(vs.drop_last() =~= values_by(seq![Piece::Text(head)], g));
    assert(vs.last() is None);
}

proof fn lemma_one_text(template: Seq<char>, g: spec_fn(Seq<char>) -> Option<Seq<char>>)
    ensures
        filled(seq![Piece::Text(template)], values_by(seq![Piece::Text(template)], g)) == template,
{
    reveal_with_fuel(filled, 2);
    assert(filled(seq![Piece::Text(template)], values_by(seq![Piece::Text(template)], g))
        =~= template);
}

proof fn lemma_filled_append(
    a: Seq<Piece>,
    b: Seq<Piece>,
    g: spec_fn(Seq<char>) -> Option<Seq<char>>,
)
    ensures
        filled(a + b, values_by(a + b, g)) == filled(a, values_by(a, g)) + filled(
            b,
            values_by(b, g),
        ),
    decreases b.len(),
{
    if b.len() == 0 {
        assert(a + b == a);
        assert(values_by(a + b, g) == values_by(a, g));
        assert(filled(a, values_by(a, g)) + Seq::<char>::empty() == filled(a, values_by(a, g)));
    } else {
        lemma_filled_append(a, b.drop_last(), g);
        assert((a + b).drop_last() == a + b.drop_last());
        assert(values_by(a + b, g).drop_last() == values_by(a + b.drop_last(), g));
        assert(values_by(b, g).drop_last() == values_by(b.drop_last(), g));
        assert(values_by(a + b, g).last() == values_by(b, g).last());
        assert((a + b).last() == b.last());
        let x = filled(a, values_by(a, g));
        let y = filled(b.drop_last(), values_by(b.drop_last(), g));
        let z = shown(b.last(), values_by(b, g).last());
        assert(x + y + z == x + (y + z));
    }
}

/// A punctuation command said twice in a row writes its mark once.
pub proof fn law_punctuation_does_not_double(c: char, d: Draft)
    requires
        !Class::Blank.has(c),
    ensures
        acted(Action::Punct(c), acted(Action::Punct(c), d)) == acted(Action::Punct(c), d),
{
    text::lemma_trimmed_end(Class::Blank, d.out);
    let once = acted(Action::Punct(c), d);
    assert(once.out.len() > 0 && !Class::Blank.has(once.out.last()));
    assert(acted(Action::Punct(c), once) =~= once);
}

/// "Scratch that" leaves a start of the text: the shortest one behind which no
/// sentence ends. It is empty or ends a sentence.
pub proof fn law_scratch_keeps_finished_sentences(out: Seq<char>)
    ensures
        up_to_sentence_end(out).is_prefix_of(out),
        up_to_sentence_end(out).len() == 0 || sentence_end(up_to_sentence_end(out).last()),
        forall|i: int|
            up_to_sentence_end(out).len() <= i < out.len() ==> !sentence_end(#[trigger] out[i]),
    decreases out.len(),
{
    if out.len() > 0 && !sentence_end(out.last()) {
        law_scratch_keeps_finished_sentences(out.drop_last());
        let kept = up_to_sentence_end(out.drop_last());
        assert(kept.is_prefix_of(out));
        assert forall|i: int| kept.len() <= i < out.len() implies !sentence_end(
            #[trigger] out[i],
        ) by {
            if i < out.len() - 1 {
                assert(out.drop_last()[i] == out[i]);
            }
        }
    }
}

/// The steps that say the words from `i` on.
pub open spec fn says(n: int, i: int) -> Seq<Step> {
    Seq::new((n - i) as nat, |j: int| Step::Say(i + j))
}

proof fn lemma_says(tokens: Seq<Seq<char>>, trigs: Seq<Seq<Seq<char>>>, i: int)
    requires
        0 <= i <= tokens.len(),
        forall|j: int|
            0 <= j < tokens.len() ==> #[trigger] phrase_from(tokens, j, 0) is None && snippet_at(
                trigs,
                tokens,
                j,
                trigs.len() as int,
            ) is None,
    ensures
        steps_from(tokens, trigs, i) == says(tokens.len() as int, i),
    decreases tokens.len() - i,
{
    if i < tokens.len() {
        assert(phrase_from(tokens, i, 0) is None);
        lemma_says(tokens, trigs, i + 1);
        assert(seq![Step::Say(i)] + says(tokens.len() as int, i + 1) =~= says(
            tokens.len() as int,
            i,
        ));
    } else {
        assert(says(tokens.len() as int, i) =~= Seq::empty());
    }
}

proof fn lemma_saying(raw: Seq<Seq<char>>, n: int, expansions: Seq<Seq<char>>)
    requires
        0 <= n <= raw.len(),
        expansions.len() == n,
        forall|j: int|
            0 <= j < raw.len() ==> (#[trigger] raw[j]).len() > 0 && !chars::white_space(
                raw[j].last(),
            ),
    ensures
        walked(raw, says(n, 0), expansions) == (Draft {
            out: text::joined(raw.take(n), seq![' ']),
            ..blank_draft()
        }),
        n > 0 ==> text::joined(raw.take(n), seq![' ']).len() > 0 && text::joined(
            raw.take(n),
            seq![' '],
        ).last() == raw[n - 1].last(),
    decreases n,
{
    let all = says(n, 0);
    if n == 0 {
        assert(walked(raw, all, expansions) =~= blank_draft());
        assert(raw.take(0) =~= Seq::empty());
    } else {
        lemma_saying(raw, n - 1, expansions.drop_last());
        assert(all.drop_last() =~= says(n - 1, 0));
        assert(all.last() == Step::Say(n - 1));
        assert(raw.take(n).drop_last() =~= raw.take(n - 1));
        let before = text::joined(raw.take(n - 1), seq![' ']);
        let out = walked(raw, all, expansions).out;
        assert(raw[n - 1].len() > 0);
        if n > 1 {
            assert(raw[n - 2].len() > 0);
            assert(before.push(' ') + raw[n - 1] =~= before + seq![' '] + raw[n - 1]);
        } else {
            assert(before + raw[0] =~= raw[0]);
        }
        assert(out =~= text::joined(raw.take(n), seq![' ']));
    }
}

/// Whether an input holds no command and no trigger.
pub open spec fn plain_speech(input: Seq<char>, snippets: Seq<Snippet>) -> bool {
    let tokens = normalized_words(text::words(input));
    &&& forall|i: int, k: int|
        0 <= k < phrases().len() && 0 <= i < tokens.len() ==> !#[trigger] spoken_at(
            phrases()[k].0,
            tokens,
            i,
        )
    &&& forall|i: int, k: int|
        0 <= k < snippets.len() && 0 <= i < tokens.len() ==> !#[trigger] spoken_at(
            triggers(snippets)[k],
            tokens,
            i,
        )
}

/// The draft of an input that holds no command and no trigger: its words, with
/// one space between each two.
pub proof fn lemma_plain_draft(
    input: Seq<char>,
    snippets: Seq<Snippet>,
    expansions: Seq<Seq<char>>,
)
    requires
        plain_speech(input, snippets),
        expansions.len() == steps(input, snippets).len(),
    ensures
        walked(text::words(input), steps(input, snippets), expansions) == (Draft {
            out: text::joined(text::words(input), seq![' ']),
            ..blank_draft()
        }),
        text::trimmed_end(Class::WhiteSpace, text::joined(text::words(input), seq![' ']))
            == text::joined(text::words(input), seq![' ']),
{
    let raw = text::words(input);
    let tokens = normalized_words(raw);
    let trigs = triggers(snippets);
    assert forall|j: int| 0 <= j < tokens.len() implies #[trigger] phrase_from(tokens, j, 0) is None
        && snippet_at(trigs, tokens, j, trigs.len() as int) is None by {
        lemma_phrase_from(tokens, j, 0);
        law_longest_trigger_wins(trigs, tokens, j, trigs.len() as int);
    }
    lemma_says(tokens, trigs, 0);
    text::lemma_fields(Class::WhiteSpace, input);
    assert forall|j: int| 0 <= j < raw.len() implies (#[trigger] raw[j]).len() > 0
        && !chars::white_space(raw[j].last()) by {
        assert(!Class::WhiteSpace.has(raw[j][raw[j].len() - 1]));
    }
    lemma_saying(raw, raw.len() as int, expansions);
    assert(raw.take(raw.len() as int) =~= raw);
    if raw.len() > 0 {
        assert(raw[raw.len() - 1].len() > 0);
    }
}

/// Text that holds no command and no trigger passes through: its words come
/// out with one space between each two.
pub proof fn law_plain_words_pass_through(
    input: Seq<char>,
    snippets: Seq<Snippet>,
    expansions: Seq<Seq<char>>,
    r: CommandResult,
)
    requires
        plain_speech(input, snippets),
        expansions.len() == steps(input, snippets).len(),
        result_of(walked(text::words(input), steps(input, snippets), expansions), r),
    ensures
        r.text@ == text::joined(text::words(input), seq![' ']),
        !r.clipboard_only,
        !r.code_mode,
{
    lemma_plain_draft(input, snippets, expansions);
}

/// The text of a result does not end in white space.
pub proof fn law_result_is_trimmed(d: Draft, r: CommandResult)
    requires
        result_of(d, r),
    ensures
        r.text@.len() > 0 ==> !chars::white_space(r.text@.last()),
{
    text::lemma_trimmed_end(Class::WhiteSpace, d.out);
}

} // verus!
