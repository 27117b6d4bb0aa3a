//! The watcher over a field into which a text was pasted.
//!
//! On each tick it is told which app has the focus and, if that is the right
//! one, what the field holds. It answers with what is to be done next: look
//! again, take what it saw for the result of the user's editing, or give up.
use vstd::prelude::*;
use crate::recorder::autolearn;
use crate::text;
use crate::text::Class;

verus! {

/// The time between two ticks.
pub const AUTO_LEARN_TICK_MS: u64 = 1_500;

/// How long a text is watched.
pub const AUTO_LEARN_MAX_LIFETIME_MS: u64 = 60_000;

/// After how many ticks without a change the user has stopped editing.
pub const AUTO_LEARN_IDLE_TICKS: u32 = 2;

/// After how many captures in a row that are not the pasted text the app is
/// taken for one that does not show its text.
pub const AUTO_LEARN_MAX_ANCHOR_REJECTS: u32 = 5;

/// What the watcher knows.
#[verifier::ext_equal]
pub struct Watch {
    /// The pasted text.
    pub cleaned: Seq<char>,
    /// The app it went into.
    pub target: Seq<char>,
    /// What the field held when it was last seen.
    pub last: Option<Seq<char>>,
    /// For how many ticks it has held that.
    pub idle: int,
    /// How many captures in a row were not the pasted text.
    pub rejects: int,
}

/// What is to be done when the focus is known.
pub enum Glance {
    /// Look into the field.
    Capture,
    /// Look again on the next tick.
    Wait,
    /// The user has left: this is what became of the text.
    Finalize(Seq<char>),
}

/// What is to be done when the field is known.
pub enum Look {
    /// Look again on the next tick.
    Wait,
    /// The app does not show its text: tell the user, and stop.
    GiveUp,
    /// The user has stopped editing. With a text, that is what became of the
    /// pasted one; without, nothing was changed.
    Finish(Option<Seq<char>>),
}

/// Whether a text is another than the pasted one, spaces aside.
pub open spec fn changed(w: Watch, s: Seq<char>) -> bool {
    autolearn::normal_form(s) != autolearn::normal_form(w.cleaned)
}

/// What to do, given the app that has the focus.
pub open spec fn glanced(w: Watch, focus: Option<Seq<char>>) -> Glance {
    if focus == Some(w.target) {
        Glance::Capture
    } else {
        match w.last {
            Some(s) if changed(w, s) => Glance::Finalize(s),
            _ => Glance::Wait,
        }
    }
}

/// What the watcher knows after a capture, and what to do. A field that could
/// not be read tells it nothing.
pub open spec fn looked(w: Watch, capture: Option<Seq<char>>) -> (Watch, Look) {
    match capture {
        None => (w, Look::Wait),
        Some(s) => if !autolearn::shares_anchor(w.cleaned, s) {
            let next = Watch { rejects: w.rejects + 1, ..w };
            (
                next,
                if next.rejects >= AUTO_LEARN_MAX_ANCHOR_REJECTS {
                    Look::GiveUp
                } else {
                    Look::Wait
                },
            )
        } else {
            let next = Watch {
                rejects: 0,
                idle: if w.last == Some(s) {
                    w.idle + 1
                } else {
                    0
                },
                last: Some(s),
                ..w
            };
            (
                next,
                if next.idle >= AUTO_LEARN_IDLE_TICKS {
                    Look::Finish(
                        if changed(w, s) {
                            Some(s)
                        } else {
                            None
                        },
                    )
                } else {
                    Look::Wait
                },
            )
        },
    }
}

/// Whether a watch is still on: neither counter has run out.
pub open spec fn watching(w: Watch) -> bool {
    &&& 0 <= w.idle < AUTO_LEARN_IDLE_TICKS
    &&& 0 <= w.rejects < AUTO_LEARN_MAX_ANCHOR_REJECTS
}

pub enum FocusStep {
    Capture,
    Wait,
    Finalize(String),
}

pub enum CaptureStep {
    Wait,
    GiveUp,
    Finish(Option<String>),
}

pub open spec fn same_glance(a: FocusStep, b: Glance) -> bool {
    match (a, b) {
        (FocusStep::Capture, Glance::Capture) => true,
        (FocusStep::Wait, Glance::Wait) => true,
        (FocusStep::Finalize(s), Glance::Finalize(t)) => s@ == t,
        _ => false,
    }
}

pub open spec fn same_look(a: CaptureStep, b: Look) -> bool {
    match (a, b) {
        (CaptureStep::Wait, Look::Wait) => true,
        (CaptureStep::GiveUp, Look::GiveUp) => true,
        (CaptureStep::Finish(Some(s)), Look::Finish(Some(t))) => s@ == t,
        (CaptureStep::Finish(None), Look::Finish(None)) => true,
        _ => false,
    }
}

pub struct Watcher {
    cleaned: String,
    target: String,
    last: Option<String>,
    idle: u32,
    rejects: u32,
}

impl View for Watcher {
    type V = Watch;

    closed spec fn view(&self) -> Watch {
        Watch {
            cleaned: self.cleaned@,
            target: self.target@,
            last: match self.last {
                Some(s) => Some(s@),
                None => None,
            },
            idle: self.idle as int,
            rejects: self.rejects as int,
        }
    }
}

fn differs(a: &str, b: &str) -> (r: bool)
    ensures
        r == (autolearn::normal_form(a@) != autolearn::normal_form(b@)),
{
    autolearn::normalize_for_match(a) != autolearn::normalize_for_match(b)
}

impl Watcher {
    /// Starts to watch a text that went into an app: not one of fewer than
    /// four bytes, and not where the user has turned learning off for the app.
    pub fn start(cleaned: &str, target: &str, profile_enabled: Option<bool>) -> (r: Option<Self>)
        ensures
            match r {
                None => text::byte_len(text::trimmed(Class::WhiteSpace, cleaned@)) < 4
                    || profile_enabled == Some(false),
                Some(w) => {
                    &&& text::byte_len(text::trimmed(Class::WhiteSpace, cleaned@)) >= 4
                    &&& profile_enabled != Some(false)
                    &&& w@ == (Watch {
                        cleaned: cleaned@,
                        target: target@,
                        last: None,
                        idle: 0,
                        rejects: 0,
                    })
                    &&& watching(w@)
                },
            },
    {
        let cs = text::to_chars(cleaned);
        let bare = text::to_text(text::trim(Class::WhiteSpace, cs.as_slice()));
        if bare.as_str().as_bytes().len() < 4 {
            return None;
        }
        if let Some(enabled) = profile_enabled {
            if !enabled {
                return None;
            }
        }
        Some(
            Watcher {
                cleaned: cleaned.to_owned(),
                target: target.to_owned(),
                last: None,
                idle: 0,
                rejects: 0,
            },
        )
    }

    /// Whether the watch is over.
    pub fn expired(elapsed_ms: u64) -> (r: bool)
        ensures
            r == (elapsed_ms >= AUTO_LEARN_MAX_LIFETIME_MS),
    {
        elapsed_ms >= AUTO_LEARN_MAX_LIFETIME_MS
    }

    /// What to do, given the app that has the focus.
    pub fn focus(&self, current: Option<&str>) -> (r: FocusStep)
        ensures
            same_glance(r, glanced(self@, text::opt_str(current))),
    {
        let there = match current {
            Some(c) => text::same_text(c, self.target.as_str()),
            None => false,
        };
        if there {
            return FocusStep::Capture;
        }
        match &self.last {
            Some(s) => {
                if differs(s.as_str(), self.cleaned.as_str()) {
                    FocusStep::Finalize(s.clone())
                } else {
                    FocusStep::Wait
                }
            },
            None => FocusStep::Wait,
        }
    }

    /// What to do, given what the field holds.
    pub fn capture(&mut self, text: Option<&str>) -> (r: CaptureStep)
        requires
            watching(old(self)@),
        ensures
            final(self)@ == looked(old(self)@, text::opt_str(text)).0,
            same_look(r, looked(old(self)@, text::opt_str(text)).1),
            r is Wait ==> watching(final(self)@),
    {
        let s = match text {
            Some(s) => s,
            None => {
                return CaptureStep::Wait;
            },
        };
        if !autolearn::has_shared_anchor(self.cleaned.as_str(), s) {
            self.rejects = self.rejects + 1;
            if self.rejects >= AUTO_LEARN_MAX_ANCHOR_REJECTS {
                return CaptureStep::GiveUp;
            }
            return CaptureStep::Wait;
        }
        self.rejects = 0;
        let unchanged = match &self.last {
            Some(p) => text::same_text(p.as_str(), s),
            None => false,
        };
        if unchanged {
            self.idle = self.idle + 1;
        } else {
            self.idle = 0;
        }
        self.last = Some(s.to_owned());
        if self.idle >= AUTO_LEARN_IDLE_TICKS {
            if differs(s, self.cleaned.as_str()) {
                return CaptureStep::Finish(Some(s.to_owned()));
            }
            return CaptureStep::Finish(None);
        }
        CaptureStep::Wait
    }

    /// What the field held when it was last seen; what the text became when
    /// the watch runs out.
    pub fn last_seen(&self) -> (r: Option<String>)
        ensures
            match r {
                Some(s) => self@.last == Some(s@),
                None => self@.last is None,
            },
    {
        match &self.last {
            Some(s) => Some(s.clone()),
            None => None,
        }
    }
}

/// A text that the watcher hands out is another than the pasted one, spaces
/// aside, and shares an anchor with it.
pub proof fn law_finish_has_an_edit(w: Watch, capture: Option<Seq<char>>)
    ensures
        looked(w, capture).1 matches Look::Finish(Some(s)) ==> changed(w, s)
            && autolearn::shares_anchor(w.cleaned, s) && capture == Some(s),
{
}

/// What the watcher holds as last seen shares an anchor with the pasted text.
pub proof fn law_last_seen_shares_anchor(w: Watch, capture: Option<Seq<char>>)
    requires
        w.last matches Some(s) ==> autolearn::shares_anchor(w.cleaned, s),
    ensures
        looked(w, capture).0.last matches Some(s) ==> autolearn::shares_anchor(w.cleaned, s),
        looked(w, capture).0.cleaned == w.cleaned,
        looked(w, capture).0.target == w.target,
{
}

/// The watch after captures that all came to nothing.
pub open spec fn after(w: Watch, captures: Seq<Option<Seq<char>>>) -> Watch
    decreases captures.len(),
{
    if captures.len() == 0 {
        w
    } else {
        looked(after(w, captures.drop_last()), captures.last()).0
    }
}

/// Five captures in a row that are not the pasted text, and no fewer, make the
/// watcher give up.
pub proof fn law_gives_up_after_five_rejects(w: Watch, captures: Seq<Option<Seq<char>>>)
    requires
        w.rejects == 0,
        captures.len() <= 5,
        forall|i: int|
            0 <= i < captures.len() ==> (#[trigger] captures[i] matches Some(s)
                && !autolearn::shares_anchor(w.cleaned, s)),
    ensures
        after(w, captures).rejects == captures.len(),
        after(w, captures).cleaned == w.cleaned,
        captures.len() > 0 ==> looked(after(w, captures.drop_last()), captures.last()).1 == (if captures.len()
            == 5 {
            Look::GiveUp
        } else {
            Look::Wait
        }),
    decreases captures.len(),
{
    if captures.len() > 0 {
        let d = captures.drop_last();
        assert forall|i: int| 0 <= i < d.len() implies (#[trigger] d[i] matches Some(s)
            && !autolearn::shares_anchor(w.cleaned, s)) by {
            assert(captures[i] == d[i]);
        }
        law_gives_up_after_five_rejects(w, d);
        assert(captures[captures.len() - 1] is Some);
    }
}

/// A field that holds the same for three captures in a row ends the watch at
/// the third, if not before.
pub proof fn law_finishes_when_idle(w: Watch, s: Seq<char>)
    requires
        watching(w),
        autolearn::shares_anchor(w.cleaned, s),
    ensures
        looked(after(w, seq![Some(s), Some(s)]), Some(s)).1 is Finish,
{
    reveal_with_fuel(after, 3);
    assert(seq![Some(s), Some(s)].drop_last() =~= seq![Some(s)]);
    assert(seq![Some(s)].drop_last() =~= Seq::empty());
}

} // verus!
