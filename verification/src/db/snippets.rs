//! What is written when a snippet is saved.
use vstd::prelude::*;
use crate::chars;
use crate::db::SnippetRow;
use crate::text;
use crate::text::Class;

verus! {

/// A trigger as it is stored: trimmed and in lower case.
pub open spec fn stored_trigger(trigger: Seq<char>) -> Seq<char> {
    chars::lowercase(text::trimmed(Class::WhiteSpace, trigger))
}

/// What is written for a snippet.
#[derive(Debug, Clone)]
pub enum SnippetWrite {
    Insert { trigger: String },
    Update { id: i64, trigger: String },
}

/// What is wrong with a snippet, if anything. A snippet that is stored already
/// must not take the trigger of another.
pub open spec fn snippet_error(s: SnippetRow, trigger_taken: bool) -> Option<Seq<char>> {
    if stored_trigger(s.trigger@).len() == 0 {
        Some("Snippet trigger cannot be empty"@)
    } else if s.expansion@.len() == 0 {
        Some("Snippet expansion cannot be empty"@)
    } else if s.id > 0 && trigger_taken {
        Some("Another snippet already uses the trigger '"@ + stored_trigger(s.trigger@) + "'"@)
    } else {
        None
    }
}

/// The trigger under which a snippet is stored.
pub fn normalized_trigger(trigger: &str) -> (r: String)
    ensures
        r@ == stored_trigger(trigger@),
{
    let cs = text::to_chars(trigger);
    let low = text::lower(text::trim(Class::WhiteSpace, cs.as_slice()));
    text::to_text(low.as_slice())
}

/// What is written for a snippet: a new row, or the one that has its id.
/// `trigger_taken` says that another row has its trigger.
pub fn snippet_write(s: &SnippetRow, trigger_taken: bool) -> (r: Result<SnippetWrite, String>)
    ensures
        match r {
            Ok(w) => snippet_error(*s, trigger_taken) is None && match w {
                SnippetWrite::Insert { trigger } => s.id <= 0 && trigger@ == stored_trigger(
                    s.trigger@,
                ),
                SnippetWrite::Update { id, trigger } => s.id > 0 && id == s.id && trigger@
                    == stored_trigger(s.trigger@),
            },
            Err(e) => snippet_error(*s, trigger_taken) == Some(e@),
        },
{
    let trigger = normalized_trigger(s.trigger.as_str());
    if trigger.as_str().is_empty() {
        return Err("Snippet trigger cannot be empty".to_owned());
    }
    if s.expansion.as_str().is_empty() {
        return Err("Snippet expansion cannot be empty".to_owned());
    }
    if s.id > 0 {
        if trigger_taken {
            let head = text::concat(
                "Another snippet already uses the trigger '",
                trigger.as_str(),
            );
            return Err(text::concat(head.as_str(), "'"));
        }
        return Ok(SnippetWrite::Update { id: s.id, trigger });
    }
    Ok(SnippetWrite::Insert { trigger })
}

/// The message where a new snippet could not be written. The store says that a
/// trigger is taken in a way that the user is spared.
pub fn insert_error(trigger: &str, store_message: &str) -> (r: String)
    ensures
        r@ == (if text::first_of(store_message@, "UNIQUE"@) is Some {
            "A snippet with trigger '"@ + trigger@ + "' already exists"@
        } else {
            store_message@
        }),
{
    let m = text::to_chars(store_message);
    let mark = text::to_chars("UNIQUE");
    if text::find(m.as_slice(), mark.as_slice()).is_some() {
        let head = text::concat("A snippet with trigger '", trigger);
        text::concat(head.as_str(), "' already exists")
    } else {
        store_message.to_owned()
    }
}

} // verus!
