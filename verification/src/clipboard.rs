//! The clipboard, which a paste or a copy borrows and gives back.
use vstd::prelude::*;
use crate::text;

verus! {

/// How long a copy may take before the selection is taken for empty.
pub const COPY_TIMEOUT_MS: u64 = 400;

/// The time between two looks at the clipboard.
pub const POLL_INTERVAL_MS: u64 = 20;

/// How long after a paste the clipboard is given back.
pub const RESTORE_DELAY_MS: u64 = 120;

/// What is put on the clipboard before a copy, to tell whether it changed.
pub open spec fn sentinel_of(nanos: nat) -> Seq<char> {
    "__typwrtr_fixup_sentinel_"@ + text::decimal(nanos) + "__"@
}

/// What is put on the clipboard before a copy, to tell whether it changed.
pub fn sentinel(nanos: u64) -> (r: String)
    ensures
        r@ == sentinel_of(nanos as nat),
{
    let head = text::concat("__typwrtr_fixup_sentinel_", text::decimal_text(nanos).as_str());
    text::concat(head.as_str(), "__")
}

/// What a look at the clipboard found.
pub enum Clipboard {
    /// It could not be opened.
    Closed,
    /// It holds no text.
    NoText,
    Text(String),
}

/// What to do after a look at the clipboard.
#[derive(Debug, Clone)]
pub enum Poll {
    /// The selection was copied.
    Captured(String),
    /// Look again.
    Again,
    /// Nothing was selected.
    GiveUp,
}

/// What to do after a look at the clipboard: a text other than the sentinel is
/// the selection. A clipboard that could not be opened is looked at again,
/// whatever the time.
pub fn poll(found: &Clipboard, sentinel: &str, elapsed_ms: u64) -> (r: Poll)
    ensures
        match *found {
            Clipboard::Closed => r is Again,
            Clipboard::Text(t) if t@ != sentinel@ => r matches Poll::Captured(c) && c@ == t@,
            _ => if elapsed_ms >= COPY_TIMEOUT_MS {
                r is GiveUp
            } else {
                r is Again
            },
        },
{
    match found {
        Clipboard::Closed => {
            return Poll::Again;
        },
        Clipboard::Text(t) => {
            if !text::same_text(t.as_str(), sentinel) {
                return Poll::Captured(t.clone());
            }
        },
        Clipboard::NoText => {},
    }
    if elapsed_ms >= COPY_TIMEOUT_MS {
        Poll::GiveUp
    } else {
        Poll::Again
    }
}

/// How the clipboard is given back.
#[derive(Debug, Clone)]
pub enum Restore {
    PutBack(String),
    Clear,
}

/// How the clipboard is given back: with the text it held, or empty.
pub fn restore(prior: Option<String>) -> (r: Restore)
    ensures
        match prior {
            Some(p) => r == Restore::PutBack(p),
            None => r is Clear,
        },
{
    match prior {
        Some(p) => Restore::PutBack(p),
        None => Restore::Clear,
    }
}

} // verus!
