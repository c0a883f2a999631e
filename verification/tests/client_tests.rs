use dioscuri::client::{advance, build_request, default_port, FetchPhase, FetchStep};
use dioscuri::event::Event;
use dioscuri::session::SessionHistory;
use dioscuri::settings::Settings;
use dioscuri::verification::State;

#[test]
fn test_build_request() {
    assert_eq!("gemini://example.org/\r\n", build_request("gemini://example.org/"));
}

#[test]
fn test_default_port() {
    assert_eq!(1965, default_port(None));
    assert_eq!(1199, default_port(Some(1199)));
}

#[test]
fn test_fetch_phases_follow_the_happy_path() {
    let p = FetchPhase::Connecting;
    let p = advance(p, FetchStep::Connected);
    assert_eq!(FetchPhase::Verifying, p);
    let p = advance(p, FetchStep::Verified(State::New));
    assert_eq!(FetchPhase::Sending, p);
    let p = advance(p, FetchStep::Sent);
    assert_eq!(FetchPhase::Receiving, p);
    let p = advance(p, FetchStep::Received);
    assert_eq!(FetchPhase::Parsed, p);
}

#[test]
fn test_fetch_aborts_on_conflict() {
    assert_eq!(
        FetchPhase::Aborted,
        advance(FetchPhase::Verifying, FetchStep::Verified(State::Conflict))
    );
}

#[test]
fn test_fetch_fails_on_unexpected_steps() {
    assert_eq!(FetchPhase::Failed, advance(FetchPhase::Connecting, FetchStep::Sent));
    assert_eq!(FetchPhase::Failed, advance(FetchPhase::Parsed, FetchStep::Connected));
}

#[test]
fn test_event_constructors() {
    assert!(matches!(Event::back(), Event::Back));
    assert!(matches!(Event::forward(), Event::Forward));
    assert!(matches!(Event::home(), Event::Home));
    assert!(matches!(Event::quit(), Event::Quit));
    assert!(matches!(Event::stop(), Event::Stop));
    assert!(matches!(Event::refresh(), Event::Refresh));
    match Event::load("gemini://example.org") {
        Event::Load { url, add_to_session } => {
            assert_eq!("gemini://example.org", url);
            assert!(add_to_session);
        }
        _ => unreachable!(),
    }
    match Event::load_dont_track("gemini://example.org") {
        Event::Load { url, add_to_session } => {
            assert_eq!("gemini://example.org", url);
            assert!(!add_to_session);
        }
        _ => unreachable!(),
    }
}

#[test]
fn test_session_history_navigation() {
    let mut history = SessionHistory::new();
    assert!(!history.can_go_backward());
    assert!(!history.can_go_forward());
    assert!(history.go_back().is_none());
    assert!(history.go_forward().is_none());

    history.navigate("gemini://one.org");
    history.navigate("gemini://two.org");
    history.navigate("gemini://three.org");

    assert!(history.can_go_backward());
    assert!(!history.can_go_forward());

    assert_eq!("gemini://two.org", history.go_back().unwrap().url());
    assert_eq!("gemini://one.org", history.go_back().unwrap().url());
    assert!(history.go_back().is_none());

    assert_eq!("gemini://two.org", history.go_forward().unwrap().url());
    assert_eq!("gemini://three.org", history.go_forward().unwrap().url());
    assert!(history.go_forward().is_none());
}

#[test]
fn test_session_history_revisit_moves_forward() {
    let mut history = SessionHistory::new();
    history.navigate("gemini://one.org");
    history.navigate("gemini://two.org");
    history.go_back();

    history.navigate("gemini://two.org");

    assert!(history.can_go_backward());
    assert!(!history.can_go_forward());
}

#[test]
fn test_session_history_branching_drops_forward_pages() {
    let mut history = SessionHistory::new();
    history.navigate("gemini://one.org");
    history.navigate("gemini://two.org");
    history.go_back();

    history.navigate("gemini://elsewhere.org");

    assert!(!history.can_go_forward());
    assert_eq!("gemini://one.org", history.go_back().unwrap().url());
    assert_eq!("gemini://elsewhere.org", history.go_forward().unwrap().url());
}

#[test]
fn test_settings() {
    let settings = Settings::new();
    assert_eq!("gemini://gemini.conman.org", settings.default_url().unwrap());
    assert_eq!("dioscuri.sqlite", settings.database_path());
}
