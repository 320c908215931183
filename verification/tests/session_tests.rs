use books_live::session::{Action, Session, SessionEvent, SessionState, SubscriptionRequest};

fn sub(id: &str, query: &str) -> SubscriptionRequest {
    SubscriptionRequest { id: String::from(id), query: String::from(query) }
}

fn open_session_with_subs() -> Session {
    let mut s = Session::new();
    assert!(s.register(sub("s1", "subscription { books { id } }")));
    assert!(s.register(sub("s2", "subscription { authors { id } }")));
    let acts = s.step(SessionEvent::StartRequested);
    assert_eq!(acts, vec![Action::OpenTransport]);
    let _ = s.step(SessionEvent::TransportOpened);
    assert_eq!(s.state(), SessionState::Open);
    s
}

// The protocol races the server's readiness: this client keeps the observed
// wire behaviour and sends every start envelope immediately after the
// transport opens, without waiting for the connection_ack, which arrives
// afterwards and is informational only.
#[test]
fn open_sends_init_then_one_start_per_subscription() {
    let mut s = Session::new();
    assert!(s.register(sub("s1", "q1")));
    assert!(s.register(sub("s2", "q2")));
    let _ = s.step(SessionEvent::StartRequested);
    let acts = s.step(SessionEvent::TransportOpened);
    assert_eq!(
        acts,
        vec![
            Action::SendText(String::from("{\"type\":\"connection_init\",\"payload\":{}}")),
            Action::SendText(String::from(
                "{\"id\":\"s1\",\"type\":\"start\",\"payload\":{\"query\":\"q1\"}}"
            )),
            Action::SendText(String::from(
                "{\"id\":\"s2\",\"type\":\"start\",\"payload\":{\"query\":\"q2\"}}"
            )),
        ]
    );
    assert_eq!(s.state(), SessionState::Open);
    assert_eq!(s.attempt(), 0);
}

#[test]
fn register_rejects_duplicate_id() {
    let mut s = Session::new();
    assert!(s.register(sub("s1", "q1")));
    assert!(!s.register(sub("s1", "q2")));
    assert!(s.register(sub("s2", "q2")));
}

#[test]
fn unclean_close_schedules_exactly_one_timer() {
    let mut s = open_session_with_subs();
    let acts = s.step(SessionEvent::TransportClosed { clean: false });
    assert_eq!(acts, vec![Action::StartReconnectTimer(250)]);
    assert_eq!(s.state(), SessionState::Reconnecting);
    // a second unclean close or error before the timer fires adds nothing
    let acts2 = s.step(SessionEvent::TransportError);
    assert_eq!(acts2, Vec::<Action>::new());
    let acts3 = s.step(SessionEvent::TransportClosed { clean: false });
    assert_eq!(acts3, Vec::<Action>::new());
    assert_eq!(s.state(), SessionState::Reconnecting);
}

#[test]
fn error_event_schedules_reconnect_like_unclean_close() {
    let mut s = open_session_with_subs();
    let acts = s.step(SessionEvent::TransportError);
    assert_eq!(acts, vec![Action::StartReconnectTimer(250)]);
    assert_eq!(s.state(), SessionState::Reconnecting);
}

#[test]
fn clean_close_does_not_reconnect() {
    let mut s = open_session_with_subs();
    let acts = s.step(SessionEvent::TransportClosed { clean: true });
    assert_eq!(acts, Vec::<Action>::new());
    assert_eq!(s.state(), SessionState::Closed);
}

#[test]
fn user_close_cancels_pending_reconnect() {
    let mut s = open_session_with_subs();
    let _ = s.step(SessionEvent::TransportClosed { clean: false });
    assert_eq!(s.state(), SessionState::Reconnecting);
    let acts = s.step(SessionEvent::CloseRequested);
    assert_eq!(acts, vec![Action::CancelReconnectTimer]);
    assert_eq!(s.state(), SessionState::Closed);
    // a stray timer event afterwards neither reconnects nor acts
    let acts2 = s.step(SessionEvent::ReconnectTimerFired);
    assert_eq!(acts2, Vec::<Action>::new());
    assert_eq!(s.state(), SessionState::Closed);
}

#[test]
fn user_close_while_open_completes_without_reconnect() {
    let mut s = open_session_with_subs();
    let acts = s.step(SessionEvent::CloseRequested);
    assert_eq!(acts, vec![Action::CloseTransport]);
    assert_eq!(s.state(), SessionState::Closing);
    // even an unclean confirmation of the user's own close schedules nothing
    let acts2 = s.step(SessionEvent::TransportClosed { clean: false });
    assert_eq!(acts2, Vec::<Action>::new());
    assert_eq!(s.state(), SessionState::Closed);
}

#[test]
fn reconnect_cycle_resubscribes_and_resets_backoff() {
    let mut s = Session::new();
    assert!(s.register(sub("s1", "q1")));
    let _ = s.step(SessionEvent::StartRequested);
    let _ = s.step(SessionEvent::TransportOpened);
    // two failed rounds: delays grow
    let a1 = s.step(SessionEvent::TransportClosed { clean: false });
    assert_eq!(a1, vec![Action::StartReconnectTimer(250)]);
    assert_eq!(s.attempt(), 1);
    let t1 = s.step(SessionEvent::ReconnectTimerFired);
    assert_eq!(t1, vec![Action::OpenTransport]);
    assert_eq!(s.state(), SessionState::Connecting);
    let a2 = s.step(SessionEvent::TransportClosed { clean: false });
    assert_eq!(a2, vec![Action::StartReconnectTimer(500)]);
    let _ = s.step(SessionEvent::ReconnectTimerFired);
    // the reopened transport re-sends the handshake and every subscription
    let acts = s.step(SessionEvent::TransportOpened);
    assert_eq!(
        acts,
        vec![
            Action::SendText(String::from("{\"type\":\"connection_init\",\"payload\":{}}")),
            Action::SendText(String::from(
                "{\"id\":\"s1\",\"type\":\"start\",\"payload\":{\"query\":\"q1\"}}"
            )),
        ]
    );
    // a successful open resets the attempt counter to zero
    assert_eq!(s.attempt(), 0);
    let a3 = s.step(SessionEvent::TransportClosed { clean: false });
    assert_eq!(a3, vec![Action::StartReconnectTimer(250)]);
}

#[test]
fn stray_events_do_nothing() {
    let mut s = Session::new();
    assert_eq!(s.step(SessionEvent::TransportOpened), Vec::<Action>::new());
    assert_eq!(s.step(SessionEvent::ReconnectTimerFired), Vec::<Action>::new());
    assert_eq!(s.step(SessionEvent::CloseRequested), Vec::<Action>::new());
    assert_eq!(s.state(), SessionState::Idle);
    // start twice: the second request is ignored
    let _ = s.step(SessionEvent::StartRequested);
    assert_eq!(s.step(SessionEvent::StartRequested), Vec::<Action>::new());
    assert_eq!(s.state(), SessionState::Connecting);
}

#[test]
fn closed_session_can_start_again() {
    let mut s = open_session_with_subs();
    let _ = s.step(SessionEvent::CloseRequested);
    let _ = s.step(SessionEvent::TransportClosed { clean: true });
    assert_eq!(s.state(), SessionState::Closed);
    let acts = s.step(SessionEvent::StartRequested);
    assert_eq!(acts, vec![Action::OpenTransport]);
    assert_eq!(s.state(), SessionState::Connecting);
}

#[test]
fn attempt_limit_reports_persistent_disconnect() {
    let mut s = Session::with_attempt_limit(2);
    assert!(s.register(sub("s1", "q1")));
    let _ = s.step(SessionEvent::StartRequested);
    let _ = s.step(SessionEvent::TransportOpened);
    // first failure: one reconnect attempt
    assert_eq!(
        s.step(SessionEvent::TransportClosed { clean: false }),
        vec![Action::StartReconnectTimer(250)]
    );
    let _ = s.step(SessionEvent::ReconnectTimerFired);
    // second failure: the last allowed attempt
    assert_eq!(
        s.step(SessionEvent::TransportClosed { clean: false }),
        vec![Action::StartReconnectTimer(500)]
    );
    let _ = s.step(SessionEvent::ReconnectTimerFired);
    // the limit is used up: no timer, the condition is surfaced
    assert_eq!(
        s.step(SessionEvent::TransportClosed { clean: false }),
        vec![Action::ReportPersistentDisconnect]
    );
    assert_eq!(s.state(), SessionState::Closed);
    assert_eq!(s.step(SessionEvent::ReconnectTimerFired), Vec::<Action>::new());
}

#[test]
fn attempt_limit_zero_never_reconnects() {
    let mut s = Session::with_attempt_limit(0);
    let _ = s.step(SessionEvent::StartRequested);
    let _ = s.step(SessionEvent::TransportOpened);
    assert_eq!(
        s.step(SessionEvent::TransportError),
        vec![Action::ReportPersistentDisconnect]
    );
    assert_eq!(s.state(), SessionState::Closed);
}

#[test]
fn successful_open_restores_the_attempt_budget() {
    let mut s = Session::with_attempt_limit(1);
    let _ = s.step(SessionEvent::StartRequested);
    let _ = s.step(SessionEvent::TransportOpened);
    let _ = s.step(SessionEvent::TransportClosed { clean: false });
    let _ = s.step(SessionEvent::ReconnectTimerFired);
    // the reconnect succeeded: the counter is back at zero
    let _ = s.step(SessionEvent::TransportOpened);
    assert_eq!(s.attempt(), 0);
    assert_eq!(
        s.step(SessionEvent::TransportClosed { clean: false }),
        vec![Action::StartReconnectTimer(250)]
    );
}
