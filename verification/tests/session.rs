use directory_core::session::{
    session_step, Frame, SessionAction, SessionEvent, SessionState, HEARTBEAT_INTERVAL_SECS,
};

#[test]
fn heartbeat_interval_is_five_seconds() {
    assert_eq!(HEARTBEAT_INTERVAL_SECS, 5);
}

#[test]
fn open_session_answers_a_due_heartbeat_with_a_ping() {
    assert_eq!(
        session_step(SessionState::Open, SessionEvent::HeartbeatDue),
        (SessionState::Open, SessionAction::Write(Frame::Ping))
    );
}

#[test]
fn open_session_forwards_a_change_as_text() {
    let payload = r#"{"action":"INSERT","id":7,"name":"usr","parent_id":null}"#;
    assert_eq!(
        session_step(
            SessionState::Open,
            SessionEvent::ChangeReceived(payload.to_string())
        ),
        (
            SessionState::Open,
            SessionAction::Write(Frame::Text(payload.to_string()))
        )
    );
}

#[test]
fn a_failed_write_closes_the_session() {
    assert_eq!(
        session_step(SessionState::Open, SessionEvent::WriteFailed),
        (SessionState::Closed, SessionAction::Close)
    );
}

#[test]
fn the_end_of_the_feed_closes_the_session() {
    assert_eq!(
        session_step(SessionState::Open, SessionEvent::FeedEnded),
        (SessionState::Closed, SessionAction::Close)
    );
}

#[test]
fn a_closed_session_writes_nothing_whatever_happens() {
    let events = vec![
        SessionEvent::HeartbeatDue,
        SessionEvent::ChangeReceived("late".to_string()),
        SessionEvent::WriteFailed,
        SessionEvent::FeedEnded,
    ];
    for event in events {
        assert_eq!(
            session_step(SessionState::Closed, event),
            (SessionState::Closed, SessionAction::Close)
        );
    }
}

#[test]
fn after_one_loop_sees_a_write_fail_the_other_loop_stops_too() {
    let (state, action) = session_step(SessionState::Open, SessionEvent::HeartbeatDue);
    assert_eq!(action, SessionAction::Write(Frame::Ping));
    let (state, action) = session_step(state, SessionEvent::WriteFailed);
    assert_eq!(action, SessionAction::Close);
    let (state, action) = session_step(state, SessionEvent::ChangeReceived("e".to_string()));
    assert_eq!(action, SessionAction::Close);
    let (state, action) = session_step(state, SessionEvent::HeartbeatDue);
    assert_eq!((state, action), (SessionState::Closed, SessionAction::Close));
}

#[test]
fn an_open_session_writes_one_frame_per_event_in_order() {
    let events = vec![
        SessionEvent::ChangeReceived("first".to_string()),
        SessionEvent::HeartbeatDue,
        SessionEvent::ChangeReceived("second".to_string()),
        SessionEvent::ChangeReceived("third".to_string()),
        SessionEvent::HeartbeatDue,
    ];
    let mut state = SessionState::Open;
    let mut frames = Vec::new();
    for event in events {
        let (next, action) = session_step(state, event);
        state = next;
        if let SessionAction::Write(frame) = action {
            frames.push(frame);
        }
    }
    assert_eq!(state, SessionState::Open);
    assert_eq!(
        frames,
        vec![
            Frame::Text("first".to_string()),
            Frame::Ping,
            Frame::Text("second".to_string()),
            Frame::Text("third".to_string()),
            Frame::Ping,
        ]
    );
}
