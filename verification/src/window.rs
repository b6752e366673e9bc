//! The window-close cascade: when the window labelled "main" receives a close
//! request, the detached companion window is to be closed too, exactly when it
//! currently exists; any other event leaves every window alone.
use vstd::prelude::*;

verus! {

/// The label of the application's main window.
pub open spec fn spec_main_label() -> Seq<char> {
    "main"@
}

/// The label of the detached companion window.
pub open spec fn spec_detached_label() -> Seq<char> {
    "session-tracker-detached"@
}

pub fn main_window_label() -> (r: &'static str)
    ensures
        r@ == spec_main_label(),
{
    "main"
}

pub fn detached_window_label() -> (r: &'static str)
    ensures
        r@ == spec_detached_label(),
{
    "session-tracker-detached"
}

/// The window events that the cascade rule distinguishes: a close request on
/// some window, or anything else.
#[derive(Clone, Copy, PartialEq, Eq, Structural, Debug)]
pub enum WindowEventKind {
    CloseRequested,
    Other,
}

/// What the host shell is to do with the detached window after an event.
#[derive(Clone, Copy, PartialEq, Eq, Structural, Debug)]
pub enum WindowAction {
    CloseDetached,
    Ignore,
}

/// The cascade rule: close the detached window exactly when the main window
/// received a close request and the detached window currently exists.
pub open spec fn cascade_action(
    label: Seq<char>,
    kind: WindowEventKind,
    detached_present: bool,
) -> WindowAction {
    if kind is CloseRequested && label == spec_main_label() && detached_present {
        WindowAction::CloseDetached
    } else {
        WindowAction::Ignore
    }
}

fn str_eq(a: &str, b: &str) -> (r: bool)
    ensures
        r == (a@ == b@),
{
    let sa: String = a.to_owned();
    let sb: String = b.to_owned();
    sa.eq(&sb)
}

/// Decides what the shell does with the detached window when the window
/// labelled `label` receives the event `kind` while the detached window is
/// present or not. The close of the detached window is requested if and only
/// if the event is a close request on the main window and the detached window
/// exists; a missing detached window is no error.
pub fn plan_window_event(label: &str, kind: WindowEventKind, detached_present: bool) -> (r:
    WindowAction)
    ensures
        r == cascade_action(label@, kind, detached_present),
        r is CloseDetached <==> (kind is CloseRequested && label@ == spec_main_label()
            && detached_present),
{
    match kind {
        WindowEventKind::CloseRequested => {
            if str_eq(label, "main") && detached_present {
                WindowAction::CloseDetached
            } else {
                WindowAction::Ignore
            }
        },
        WindowEventKind::Other => WindowAction::Ignore,
    }
}

} // verus!
