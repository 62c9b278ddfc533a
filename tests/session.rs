use cargo_stopwatchd::codec::encode_bytes;
use cargo_stopwatchd::presence::{finished, running, show, Activity, PresenceOp};
use cargo_stopwatchd::protocol::{CommandInfo, Message, StopwatchError};
use cargo_stopwatchd::session::{
    presence_reply, AcceptOutcome, Action, ListenerAction, SessionState, StartConfig, Timeout,
};

fn demo() -> CommandInfo {
    CommandInfo { crate_name: "demo".to_string(), command: "build".to_string() }
}

fn config(timeout: u64) -> StartConfig {
    StartConfig { port: 44355, timeout, quiet: false }
}

fn reply_of(state: &mut SessionState, msg: Message, presence_ok: bool) -> Option<Message> {
    match state.handle_request(&encode_bytes(&msg)).expect("well-formed request") {
        Action::Reply(m) => Some(m),
        Action::Present(ops) => {
            assert_eq!(ops[0], PresenceOp::Clear);
            Some(presence_reply(presence_ok))
        }
        Action::Shutdown => None,
    }
}

#[test]
fn daemon_session_from_start_to_close() {
    let mut s = SessionState::new(config(10), 0);
    assert_eq!(reply_of(&mut s, Message::Started(demo(), 1_700_000_000), true), Some(Message::Ack));
    assert_eq!(s.active_run(), &Some((demo(), 1_700_000_000)));
    assert_eq!(reply_of(&mut s, Message::Stopped(demo(), 42), true), Some(Message::Ack));
    assert_eq!(s.active_run(), &None);
    assert_eq!(reply_of(&mut s, Message::Ping, true), Some(Message::Ack));
    assert_eq!(
        reply_of(&mut s, Message::Ack, true),
        Some(Message::Error(StopwatchError::UnexpectedMessage))
    );
    assert_eq!(reply_of(&mut s, Message::Close, true), None);
}

#[test]
fn zero_timeout_ends_listening_without_input() {
    let mut s = SessionState::new(config(10), 100);
    assert!(s.keep_listening(100));
    assert_eq!(s.handle(Message::Timeout(0)), Action::Reply(Message::Ack));
    assert_eq!(s.idle_timeout_minutes(), 0);
    assert_eq!(s.last_activity(), 100);
    assert!(!s.keep_listening(101));
}

#[test]
fn started_shows_running_activity_on_cleared_channel() {
    let mut s = SessionState::new(config(10), 0);
    let a = s.handle(Message::Started(demo(), 77));
    let expected = Activity {
        details: "Working on demo".to_string(),
        state: "Running `build` for".to_string(),
        start: Some(77),
        end: None,
    };
    assert_eq!(a, Action::Present(vec![PresenceOp::Clear, PresenceOp::Show(expected)]));
}

#[test]
fn stopped_shows_finished_activity_on_cleared_channel() {
    let mut s = SessionState::new(config(10), 0);
    s.handle(Message::Started(demo(), 77));
    let a = s.handle(Message::Stopped(demo(), 42));
    let expected = Activity {
        details: "Working on demo".to_string(),
        state: "Last ran `build` for".to_string(),
        start: Some(1),
        end: Some(43),
    };
    assert_eq!(a, Action::Present(vec![PresenceOp::Clear, PresenceOp::Show(expected)]));
    assert_eq!(s.active_run(), &None);
}

#[test]
fn second_started_replaces_the_first() {
    let mut s = SessionState::new(config(10), 0);
    s.handle(Message::Started(demo(), 1));
    let other = CommandInfo { crate_name: "other".to_string(), command: "test".to_string() };
    s.handle(Message::Started(other.clone(), 2));
    assert_eq!(s.active_run(), &Some((other, 2)));
}

#[test]
fn failed_presence_update_is_reported() {
    assert_eq!(presence_reply(false), Message::Error(StopwatchError::PresenceUpdateFailed));
    assert_eq!(presence_reply(true), Message::Ack);
}

#[test]
fn unexpected_error_message_is_refused() {
    let mut s = SessionState::new(config(10), 0);
    assert_eq!(
        s.handle(Message::Error(StopwatchError::ExistingConnection)),
        Action::Reply(Message::Error(StopwatchError::UnexpectedMessage))
    );
}

#[test]
fn malformed_request_gets_no_answer() {
    let mut s = SessionState::new(config(10), 0);
    assert_eq!(s.handle_request(b"{\"Started\":"), None);
    assert_eq!(s.active_run(), &None);
}

#[test]
fn expiry_comes_exactly_at_the_window() {
    let mut s = SessionState::new(config(10), 1000);
    assert!(s.keep_listening(1599));
    assert!(!s.keep_listening(1600));
}

#[test]
fn expiry_is_final() {
    let mut s = SessionState::new(config(1), 0);
    assert!(!s.keep_listening(60));
    assert_eq!(s.on_accept(AcceptOutcome::Accepted, 61), ListenerAction::Serve);
    assert!(!s.keep_listening(61));
    s.handle(Message::Timeout(100));
    assert!(!s.keep_listening(62));
}

#[test]
fn accepted_connections_refresh_activity() {
    let mut s = SessionState::new(config(10), 0);
    assert_eq!(s.on_accept(AcceptOutcome::Accepted, 500), ListenerAction::Serve);
    assert_eq!(s.last_activity(), 500);
    assert!(s.keep_listening(1099));
    assert!(!s.keep_listening(1100));
}

#[test]
fn activity_instant_never_moves_back() {
    let mut s = SessionState::new(config(10), 500);
    s.on_accept(AcceptOutcome::Accepted, 200);
    assert_eq!(s.last_activity(), 500);
    s.handle(Message::Ping);
    assert_eq!(s.last_activity(), 500);
}

#[test]
fn transient_and_fatal_accept_failures() {
    let mut s = SessionState::new(config(10), 0);
    assert_eq!(s.on_accept(AcceptOutcome::Transient, 300), ListenerAction::Retry);
    assert_eq!(s.last_activity(), 0);
    assert_eq!(s.on_accept(AcceptOutcome::Failed, 300), ListenerAction::Abort);
}

#[test]
fn timeout_remaining_seconds() {
    let mut t = Timeout::new(2, 10);
    assert_eq!(t.remaining(10), 120);
    assert_eq!(t.remaining(130), 0);
    assert_eq!(t.remaining(200), -70);
    assert!(!t.check(129));
    t.refresh(100);
    assert_eq!(t.remaining(130), 90);
    t.set_minutes(0);
    assert!(t.check(100));
}

#[test]
fn config_is_kept() {
    let s = SessionState::new(StartConfig { port: 8080, timeout: 3, quiet: true }, 0);
    assert_eq!(s.port(), 8080);
    assert!(s.quiet());
    assert_eq!(s.idle_timeout_minutes(), 3);
}

#[test]
fn finished_activity_saturates() {
    let a = finished(&demo(), u64::MAX);
    assert_eq!(a.end, Some(u64::MAX));
    let r = running(&demo(), 5);
    assert_eq!(r.details, "Working on demo");
    assert_eq!(show(r.clone()), vec![PresenceOp::Clear, PresenceOp::Show(r)]);
}
