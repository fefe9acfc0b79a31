//! Decisions of the change bridge.
//!
//! The bridge holds the one subscription to the upstream change feed and
//! republishes what it receives to the fanout. The caller performs the
//! waiting on the feed; this module decides, for each thing that happened,
//! what the bridge does next.

use vstd::prelude::*;

verus! {

/// The upstream topic on which row-level changes of directories arrive.
pub const CHANGE_TOPIC: &'static str = "directory_changes";

/// Lifecycle of a bridge. `Terminated` and `Failed` are final.
#[derive(Debug, Clone, Copy, PartialEq, Eq, Structural)]
pub enum BridgeState {
    /// The upstream subscription is not open yet.
    Starting,
    /// The subscription is open; events are accepted and published.
    Listening,
    /// The fanout has no subscriber left to publish to.
    Terminated,
    /// The upstream feed failed.
    Failed,
}

/// Something that happened to a bridge.
#[derive(Debug, Clone, PartialEq, Eq)]
pub enum BridgeEvent {
    /// The upstream subscription was opened.
    Subscribed,
    /// The feed delivered a raw payload; `valid` tells whether it passed
    /// validation against the change event schema.
    Notification { payload: String, valid: bool },
    /// Connecting to, subscribing to or receiving from the feed failed.
    UpstreamFailed,
    /// A publish found the fanout without subscribers.
    FanoutClosed,
}

/// The mathematical content of a [`BridgeEvent`].
pub enum BridgeEventView {
    Subscribed,
    Notification { payload: Seq<char>, valid: bool },
    UpstreamFailed,
    FanoutClosed,
}

impl View for BridgeEvent {
    type V = BridgeEventView;

    open spec fn view(&self) -> BridgeEventView {
        match self {
            BridgeEvent::Subscribed => BridgeEventView::Subscribed,
            BridgeEvent::Notification { payload, valid } => BridgeEventView::Notification {
                payload: payload@,
                valid: *valid,
            },
            BridgeEvent::UpstreamFailed => BridgeEventView::UpstreamFailed,
            BridgeEvent::FanoutClosed => BridgeEventView::FanoutClosed,
        }
    }
}

/// What the bridge does in answer to an event.
#[derive(Debug, Clone, PartialEq, Eq)]
pub enum BridgeAction {
    /// Nothing to publish: go on with the upstream feed.
    Continue,
    /// Publish this payload to the fanout, as it was received, then go on.
    Publish(String),
    /// Report this payload as invalid and drop it, then go on.
    Discard(String),
    /// Leave the run loop.
    Halt,
}

/// The mathematical content of a [`BridgeAction`].
pub enum BridgeActionView {
    Continue,
    Publish(Seq<char>),
    Discard(Seq<char>),
    Halt,
}

impl View for BridgeAction {
    type V = BridgeActionView;

    open spec fn view(&self) -> BridgeActionView {
        match self {
            BridgeAction::Continue => BridgeActionView::Continue,
            BridgeAction::Publish(payload) => BridgeActionView::Publish(payload@),
            BridgeAction::Discard(payload) => BridgeActionView::Discard(payload@),
            BridgeAction::Halt => BridgeActionView::Halt,
        }
    }
}

/// The state after `event` and the action it calls for.
///
/// A starting bridge waits for its subscription and takes no payload yet. A
/// listening bridge publishes each valid payload and discards each invalid
/// one, and keeps listening either way; it fails with the feed and
/// terminates with the fanout. A bridge that has failed or terminated stays
/// so and only halts.
pub open spec fn bridge_next(state: BridgeState, event: BridgeEventView) -> (
    BridgeState,
    BridgeActionView,
) {
    match state {
        BridgeState::Starting => match event {
            BridgeEventView::Subscribed => (BridgeState::Listening, BridgeActionView::Continue),
            BridgeEventView::UpstreamFailed => (BridgeState::Failed, BridgeActionView::Halt),
            _ => (BridgeState::Starting, BridgeActionView::Continue),
        },
        BridgeState::Listening => match event {
            BridgeEventView::Subscribed => (BridgeState::Listening, BridgeActionView::Continue),
            BridgeEventView::Notification { payload, valid } => if valid {
                (BridgeState::Listening, BridgeActionView::Publish(payload))
            } else {
                (BridgeState::Listening, BridgeActionView::Discard(payload))
            },
            BridgeEventView::UpstreamFailed => (BridgeState::Failed, BridgeActionView::Halt),
            BridgeEventView::FanoutClosed => (BridgeState::Terminated, BridgeActionView::Halt),
        },
        BridgeState::Terminated => (BridgeState::Terminated, BridgeActionView::Halt),
        BridgeState::Failed => (BridgeState::Failed, BridgeActionView::Halt),
    }
}

/// Decides what a bridge in `state` does when `event` happens.
pub fn bridge_step(state: BridgeState, event: BridgeEvent) -> (step: (BridgeState, BridgeAction))
    ensures
        (step.0, step.1@) == bridge_next(state, event@),
{
    match state {
        BridgeState::Starting => match event {
            BridgeEvent::Subscribed => (BridgeState::Listening, BridgeAction::Continue),
            BridgeEvent::UpstreamFailed => (BridgeState::Failed, BridgeAction::Halt),
            _ => (BridgeState::Starting, BridgeAction::Continue),
        },
        BridgeState::Listening => match event {
            BridgeEvent::Subscribed => (BridgeState::Listening, BridgeAction::Continue),
            BridgeEvent::Notification { payload, valid } => if valid {
                (BridgeState::Listening, BridgeAction::Publish(payload))
            } else {
                (BridgeState::Listening, BridgeAction::Discard(payload))
            },
            BridgeEvent::UpstreamFailed => (BridgeState::Failed, BridgeAction::Halt),
            BridgeEvent::FanoutClosed => (BridgeState::Terminated, BridgeAction::Halt),
        },
        BridgeState::Terminated => (BridgeState::Terminated, BridgeAction::Halt),
        BridgeState::Failed => (BridgeState::Failed, BridgeAction::Halt),
    }
}

/// Only a listening bridge publishes, only what it was handed as valid, and
/// unchanged.
pub proof fn lemma_publish_only_when_listening(
    state: BridgeState,
    event: BridgeEventView,
    published: Seq<char>,
)
    requires
        bridge_next(state, event).1 == BridgeActionView::Publish(published),
    ensures
        state == BridgeState::Listening,
        event == (BridgeEventView::Notification { payload: published, valid: true }),
{
}

/// An invalid payload never stops a listening bridge.
pub proof fn lemma_invalid_payload_is_not_fatal(payload: Seq<char>)
    ensures
        bridge_next(
            BridgeState::Listening,
            BridgeEventView::Notification { payload, valid: false },
        ) == (BridgeState::Listening, BridgeActionView::Discard(payload)),
{
}

/// A bridge that failed or terminated does not come back: whatever happens
/// next, it keeps its state and halts.
pub proof fn lemma_no_recovery(state: BridgeState, event: BridgeEventView)
    requires
        state == BridgeState::Failed || state == BridgeState::Terminated,
    ensures
        bridge_next(state, event) == (state, BridgeActionView::Halt),
{
}

/// The state a bridge reaches from `state` through `events`, in order.
pub open spec fn bridge_after(state: BridgeState, events: Seq<BridgeEventView>) -> BridgeState
    decreases events.len(),
{
    if events.len() == 0 {
        state
    } else {
        bridge_next(bridge_after(state, events.drop_last()), events.last()).0
    }
}

/// The payloads a bridge publishes, in order, while `events` happen to it
/// one after the other, starting from `state`.
pub open spec fn bridge_published(state: BridgeState, events: Seq<BridgeEventView>) -> Seq<
    Seq<char>,
>
    decreases events.len(),
{
    if events.len() == 0 {
        Seq::empty()
    } else {
        let earlier = bridge_published(state, events.drop_last());
        match bridge_next(bridge_after(state, events.drop_last()), events.last()).1 {
            BridgeActionView::Publish(payload) => earlier.push(payload),
            _ => earlier,
        }
    }
}

/// The event is a payload that passed validation.
pub open spec fn is_valid_notification(event: BridgeEventView) -> bool {
    event matches BridgeEventView::Notification { valid, .. } && valid
}

/// The payloads among `events` that passed validation, in order.
pub open spec fn valid_payloads(events: Seq<BridgeEventView>) -> Seq<Seq<char>> {
    events.filter(|event: BridgeEventView| is_valid_notification(event)).map_values(
        |event: BridgeEventView| event->payload,
    )
}

/// A listening bridge that receives nothing but payloads keeps listening,
/// and publishes exactly those that passed validation, unchanged and in the
/// order they came.
pub proof fn lemma_listening_publishes_valid_payloads(events: Seq<BridgeEventView>)
    requires
        forall|i: int| 0 <= i < events.len() ==> (#[trigger] events[i]) is Notification,
    ensures
        bridge_after(BridgeState::Listening, events) == BridgeState::Listening,
        bridge_published(BridgeState::Listening, events) == valid_payloads(events),
    decreases events.len(),
{
    let passed = |event: BridgeEventView| is_valid_notification(event);
    let payload = |event: BridgeEventView| event->payload;
    if events.len() == 0 {
        assert(events.filter(passed) =~= events) by {
            reveal(Seq::filter);
        }
        assert(valid_payloads(events) =~= Seq::<Seq<char>>::empty());
    } else {
        let earlier = events.drop_last();
        let last = events.last();
        assert forall|i: int| 0 <= i < earlier.len() implies (#[trigger] earlier[i])
            is Notification by {
            assert(earlier[i] == events[i]);
        }
        lemma_listening_publishes_valid_payloads(earlier);
        assert(last is Notification);
        assert(earlier.push(last) =~= events);
        earlier.lemma_filter_push(last, passed);
        if is_valid_notification(last) {
            assert(earlier.filter(passed).push(last).map_values(payload) =~= earlier.filter(
                passed,
            ).map_values(payload).push(payload(last)));
        }
    }
}

/// A bridge that failed or terminated publishes nothing more, whatever
/// happens to it.
pub proof fn lemma_stopped_bridge_publishes_nothing(
    state: BridgeState,
    events: Seq<BridgeEventView>,
)
    requires
        state == BridgeState::Failed || state == BridgeState::Terminated,
    ensures
        bridge_after(state, events) == state,
        bridge_published(state, events) == Seq::<Seq<char>>::empty(),
    decreases events.len(),
{
    if events.len() > 0 {
        lemma_stopped_bridge_publishes_nothing(state, events.drop_last());
    }
}

/// A bridge publishes nothing before its subscription is open.
pub proof fn lemma_nothing_published_before_subscribed(events: Seq<BridgeEventView>)
    requires
        forall|i: int| 0 <= i < events.len() ==> !((#[trigger] events[i]) is Subscribed),
    ensures
        bridge_after(BridgeState::Starting, events) != BridgeState::Listening,
        bridge_published(BridgeState::Starting, events) == Seq::<Seq<char>>::empty(),
    decreases events.len(),
{
    if events.len() > 0 {
        let earlier = events.drop_last();
        assert forall|i: int| 0 <= i < earlier.len() implies !((#[trigger] earlier[i])
            is Subscribed) by {
            assert(earlier[i] == events[i]);
        }
        lemma_nothing_published_before_subscribed(earlier);
        assert(!(events[events.len() - 1] is Subscribed));
    }
}

} // verus!
