use directory_core::bridge::{bridge_step, BridgeAction, BridgeEvent, BridgeState, CHANGE_TOPIC};

fn notification(payload: &str, valid: bool) -> BridgeEvent {
    BridgeEvent::Notification {
        payload: payload.to_string(),
        valid,
    }
}

#[test]
fn the_change_topic_is_directory_changes() {
    assert_eq!(CHANGE_TOPIC, "directory_changes");
}

#[test]
fn a_starting_bridge_listens_once_subscribed() {
    assert_eq!(
        bridge_step(BridgeState::Starting, BridgeEvent::Subscribed),
        (BridgeState::Listening, BridgeAction::Continue)
    );
}

#[test]
fn a_starting_bridge_fails_with_the_feed() {
    assert_eq!(
        bridge_step(BridgeState::Starting, BridgeEvent::UpstreamFailed),
        (BridgeState::Failed, BridgeAction::Halt)
    );
}

#[test]
fn a_starting_bridge_takes_no_payload() {
    assert_eq!(
        bridge_step(BridgeState::Starting, notification("{}", true)),
        (BridgeState::Starting, BridgeAction::Continue)
    );
    assert_eq!(
        bridge_step(BridgeState::Starting, BridgeEvent::FanoutClosed),
        (BridgeState::Starting, BridgeAction::Continue)
    );
}

#[test]
fn a_listening_bridge_publishes_a_valid_payload_verbatim() {
    let payload = r#"{ "action" : "UPDATE", "id": 3, "name": "bin", "parent_id": 1 }"#;
    assert_eq!(
        bridge_step(BridgeState::Listening, notification(payload, true)),
        (
            BridgeState::Listening,
            BridgeAction::Publish(payload.to_string())
        )
    );
}

#[test]
fn a_listening_bridge_discards_an_invalid_payload_and_goes_on() {
    assert_eq!(
        bridge_step(BridgeState::Listening, notification("not json", false)),
        (
            BridgeState::Listening,
            BridgeAction::Discard("not json".to_string())
        )
    );
}

#[test]
fn a_listening_bridge_ignores_a_second_subscription() {
    assert_eq!(
        bridge_step(BridgeState::Listening, BridgeEvent::Subscribed),
        (BridgeState::Listening, BridgeAction::Continue)
    );
}

#[test]
fn a_listening_bridge_fails_with_the_feed() {
    assert_eq!(
        bridge_step(BridgeState::Listening, BridgeEvent::UpstreamFailed),
        (BridgeState::Failed, BridgeAction::Halt)
    );
}

#[test]
fn a_listening_bridge_terminates_with_the_fanout() {
    assert_eq!(
        bridge_step(BridgeState::Listening, BridgeEvent::FanoutClosed),
        (BridgeState::Terminated, BridgeAction::Halt)
    );
}

#[test]
fn a_stopped_bridge_stays_stopped() {
    for state in [BridgeState::Failed, BridgeState::Terminated] {
        let events = vec![
            BridgeEvent::Subscribed,
            notification("{}", true),
            notification("{}", false),
            BridgeEvent::UpstreamFailed,
            BridgeEvent::FanoutClosed,
        ];
        for event in events {
            assert_eq!(bridge_step(state, event), (state, BridgeAction::Halt));
        }
    }
}
