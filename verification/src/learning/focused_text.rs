//! The text of the field that has the focus.
use vstd::prelude::*;
use crate::text;
use crate::text::Class;

verus! {

#[derive(Debug, Clone)]
pub struct FocusedText {
    pub text: String,
}

/// The text of the field that has the focus, on systems that have no way to
/// ask for it: none.
pub fn capture_focused_text() -> (r: Result<Option<FocusedText>, String>)
    ensures
        r == Ok::<Option<FocusedText>, String>(None),
{
    Ok(None)
}

/// Whether an answer holds a text that is not blank.
pub open spec fn telling(answer: Option<String>) -> bool {
    answer matches Some(s) && text::trimmed(Class::WhiteSpace, s@).len() > 0
}

/// The first answer from `i` on that is not blank.
pub open spec fn first_telling(answers: Seq<Option<String>>, i: int) -> Option<int>
    decreases answers.len() - i,
{
    if i < 0 || i >= answers.len() {
        None
    } else if telling(answers[i]) {
        Some(i)
    } else {
        first_telling(answers, i + 1)
    }
}

/// The text of a field, from the answers that the ways of asking for it gave,
/// the best way first: the first that is not blank.
pub fn first_text(answers: &[Option<String>]) -> (r: Option<FocusedText>)
    ensures
        match r {
            Some(t) => first_telling(answers@, 0) matches Some(i) && t.text@ == (
            answers@[i]->Some_0)@,
            None => first_telling(answers@, 0) is None,
        },
{
    let mut i: usize = 0;
    while i < answers.len()
        invariant
            i <= answers@.len(),
            first_telling(answers@, 0) == first_telling(answers@, i as int),
        decreases answers@.len() - i,
    {
        if let Some(s) = &answers[i] {
            let cs = text::to_chars(s.as_str());
            let bare = text::trim(Class::WhiteSpace, cs.as_slice());
            if bare.len() > 0 {
                return Some(FocusedText { text: s.clone() });
            }
        }
        i += 1;
    }
    None
}

} // verus!
