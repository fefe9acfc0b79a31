use directory_core::bridge::{BridgeAction, BridgeEvent, BridgeState};
use directory_core::fanout::{
    after_publish, ChangeBridge, DirectoryChangesListener, FANOUT_CAPACITY,
};
use tokio::sync::broadcast::error::{SendError, TryRecvError};

fn valid(payload: &str) -> BridgeEvent {
    BridgeEvent::Notification {
        payload: payload.to_string(),
        valid: true,
    }
}

fn listening() -> (DirectoryChangesListener, ChangeBridge) {
    let (listener, mut bridge) = DirectoryChangesListener::new();
    assert_eq!(bridge.handle(BridgeEvent::Subscribed), BridgeAction::Continue);
    assert_eq!(bridge.state(), BridgeState::Listening);
    (listener, bridge)
}

#[test]
fn fanout_capacity_is_one_hundred() {
    assert_eq!(FANOUT_CAPACITY, 100);
}

#[test]
fn a_new_bridge_is_starting() {
    let (_listener, bridge) = DirectoryChangesListener::new();
    assert_eq!(bridge.state(), BridgeState::Starting);
}

#[test]
fn a_published_event_reaches_every_subscriber_verbatim() {
    let (listener, mut bridge) = listening();
    let mut first = listener.subscribe();
    let mut second = listener.subscribe();
    let payload = r#"{"action":"DELETE","id":4,"name":"var","parent_id":1}"#;
    assert_eq!(bridge.handle(valid(payload)), BridgeAction::Continue);
    assert_eq!(bridge.state(), BridgeState::Listening);
    assert_eq!(first.try_recv(), Ok(payload.to_string()));
    assert_eq!(second.try_recv(), Ok(payload.to_string()));
    assert_eq!(first.try_recv(), Err(TryRecvError::Empty));
    assert_eq!(second.try_recv(), Err(TryRecvError::Empty));
}

#[test]
fn a_subscriber_sees_what_is_published_after_it_subscribed_and_nothing_before() {
    let (listener, mut bridge) = listening();
    let mut early = listener.subscribe();
    bridge.handle(valid("before"));
    let mut late = listener.subscribe();
    bridge.handle(valid("after"));
    assert_eq!(early.try_recv(), Ok("before".to_string()));
    assert_eq!(early.try_recv(), Ok("after".to_string()));
    assert_eq!(early.try_recv(), Err(TryRecvError::Empty));
    assert_eq!(late.try_recv(), Ok("after".to_string()));
    assert_eq!(late.try_recv(), Err(TryRecvError::Empty));
}

#[test]
fn an_invalid_payload_reaches_nobody_and_does_not_stop_the_bridge() {
    let (listener, mut bridge) = listening();
    let mut subscriber = listener.subscribe();
    let action = bridge.handle(BridgeEvent::Notification {
        payload: "{".to_string(),
        valid: false,
    });
    assert_eq!(action, BridgeAction::Discard("{".to_string()));
    assert_eq!(bridge.state(), BridgeState::Listening);
    assert_eq!(subscriber.try_recv(), Err(TryRecvError::Empty));
    assert_eq!(bridge.handle(valid("next")), BridgeAction::Continue);
    assert_eq!(subscriber.try_recv(), Ok("next".to_string()));
}

#[test]
fn a_starting_bridge_publishes_nothing() {
    let (listener, mut bridge) = DirectoryChangesListener::new();
    let mut subscriber = listener.subscribe();
    assert_eq!(bridge.handle(valid("too early")), BridgeAction::Continue);
    assert_eq!(bridge.state(), BridgeState::Starting);
    assert_eq!(subscriber.try_recv(), Err(TryRecvError::Empty));
}

#[test]
fn a_failed_bridge_publishes_nothing() {
    let (listener, mut bridge) = listening();
    let mut subscriber = listener.subscribe();
    assert_eq!(bridge.handle(BridgeEvent::UpstreamFailed), BridgeAction::Halt);
    assert_eq!(bridge.state(), BridgeState::Failed);
    assert_eq!(bridge.handle(valid("after the end")), BridgeAction::Halt);
    assert_eq!(bridge.state(), BridgeState::Failed);
    assert_eq!(subscriber.try_recv(), Err(TryRecvError::Empty));
}

#[test]
fn publishing_without_any_subscriber_terminates_the_bridge() {
    let (listener, mut bridge) = listening();
    drop(listener);
    assert_eq!(bridge.handle(valid("nobody there")), BridgeAction::Halt);
    assert_eq!(bridge.state(), BridgeState::Terminated);
    assert_eq!(bridge.handle(valid("still nobody")), BridgeAction::Halt);
    assert_eq!(bridge.state(), BridgeState::Terminated);
}

#[test]
fn the_listener_alone_keeps_the_fanout_open() {
    let (listener, mut bridge) = listening();
    for round in 0..300 {
        assert_eq!(
            bridge.handle(valid(&format!("event {round}"))),
            BridgeAction::Continue
        );
    }
    assert_eq!(bridge.state(), BridgeState::Listening);
    let mut subscriber = listener.subscribe();
    assert_eq!(subscriber.try_recv(), Err(TryRecvError::Empty));
}

#[test]
fn after_publish_goes_on_when_delivered_and_terminates_when_not() {
    assert_eq!(
        after_publish(Ok(3)),
        (BridgeState::Listening, BridgeAction::Continue)
    );
    assert_eq!(
        after_publish(Err(SendError("lost".to_string()))),
        (BridgeState::Terminated, BridgeAction::Halt)
    );
}

#[test]
fn a_subscriber_that_keeps_up_to_capacity_loses_nothing() {
    let (listener, mut bridge) = listening();
    let mut idle = listener.subscribe();
    for round in 0..FANOUT_CAPACITY {
        bridge.handle(valid(&format!("event {round}")));
    }
    for round in 0..FANOUT_CAPACITY {
        assert_eq!(idle.try_recv(), Ok(format!("event {round}")));
    }
    assert_eq!(idle.try_recv(), Err(TryRecvError::Empty));
}

#[test]
fn a_subscriber_that_stops_reading_misses_events_and_the_reading_one_does_not() {
    let (listener, mut bridge) = listening();
    let mut idle = listener.subscribe();
    let mut reading = listener.subscribe();
    let rounds = 4 * FANOUT_CAPACITY;
    for round in 0..rounds {
        assert_eq!(
            bridge.handle(valid(&format!("event {round}"))),
            BridgeAction::Continue
        );
        assert_eq!(reading.try_recv(), Ok(format!("event {round}")));
    }
    assert_eq!(reading.try_recv(), Err(TryRecvError::Empty));

    let missed = match idle.try_recv() {
        Err(TryRecvError::Lagged(missed)) => missed as usize,
        other => panic!("the idle subscriber should have lagged, got {other:?}"),
    };
    assert!(missed >= 1);
    assert!(rounds - missed >= FANOUT_CAPACITY);
    assert_eq!(rounds - missed, FANOUT_CAPACITY.next_power_of_two());
    for round in missed..rounds {
        assert_eq!(idle.try_recv(), Ok(format!("event {round}")));
    }
    assert_eq!(idle.try_recv(), Err(TryRecvError::Empty));
}

#[test]
fn valid_payloads_are_published_in_order_and_invalid_ones_left_out() {
    let (listener, mut bridge) = listening();
    let mut subscriber = listener.subscribe();
    let feed = [
        ("one", true),
        ("broken", false),
        ("two", true),
        ("three", true),
        ("also broken", false),
    ];
    for (payload, valid) in feed {
        let action = bridge.handle(BridgeEvent::Notification {
            payload: payload.to_string(),
            valid,
        });
        if valid {
            assert_eq!(action, BridgeAction::Continue);
        } else {
            assert_eq!(action, BridgeAction::Discard(payload.to_string()));
        }
    }
    assert_eq!(bridge.state(), BridgeState::Listening);
    assert_eq!(subscriber.try_recv(), Ok("one".to_string()));
    assert_eq!(subscriber.try_recv(), Ok("two".to_string()));
    assert_eq!(subscriber.try_recv(), Ok("three".to_string()));
    assert_eq!(subscriber.try_recv(), Err(TryRecvError::Empty));
}
