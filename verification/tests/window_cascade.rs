use session_tracker::window::{
    detached_window_label, main_window_label, plan_window_event, WindowAction, WindowEventKind,
};

#[test]
fn labels_are_fixed() {
    assert_eq!(main_window_label(), "main");
    assert_eq!(detached_window_label(), "session-tracker-detached");
}

#[test]
fn close_request_on_main_closes_detached_when_present() {
    let r = plan_window_event("main", WindowEventKind::CloseRequested, true);
    assert_eq!(r, WindowAction::CloseDetached);
}

#[test]
fn close_request_on_main_is_ignored_when_detached_absent() {
    let r = plan_window_event("main", WindowEventKind::CloseRequested, false);
    assert_eq!(r, WindowAction::Ignore);
}

#[test]
fn close_request_on_other_window_is_ignored() {
    let r = plan_window_event("session-tracker-detached", WindowEventKind::CloseRequested, true);
    assert_eq!(r, WindowAction::Ignore);
    let r2 = plan_window_event("settings", WindowEventKind::CloseRequested, true);
    assert_eq!(r2, WindowAction::Ignore);
}

#[test]
fn other_events_on_main_are_ignored() {
    let r = plan_window_event("main", WindowEventKind::Other, true);
    assert_eq!(r, WindowAction::Ignore);
    let r2 = plan_window_event("main", WindowEventKind::Other, false);
    assert_eq!(r2, WindowAction::Ignore);
}
