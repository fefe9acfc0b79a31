//! The fanout of change events to any number of subscribers.
//!
//! The channel itself is tokio's broadcast channel: every subscriber reads at
//! its own pace, and one that falls behind loses its oldest unread events
//! without holding back the publisher or anyone else. This module opens the
//! channel, hands out subscriptions, and carries out what the bridge decides.

use tokio::sync::broadcast::error::SendError;
use tokio::sync::broadcast::{Receiver, Sender};
use vstd::prelude::*;
use crate::bridge::{
    bridge_next, bridge_step, BridgeAction, BridgeActionView, BridgeEvent, BridgeEventView,
    BridgeState,
};

verus! {

/// tokio's `broadcast::Sender`, the publishing half of the channel. Opaque.
#[verifier::external_type_specification]
#[verifier::external_body]
#[verifier::reject_recursive_types(T)]
pub struct ExSender<T>(Sender<T>);

/// tokio's `broadcast::Receiver`, one subscriber's handle. Opaque.
#[verifier::external_type_specification]
#[verifier::external_body]
#[verifier::reject_recursive_types(T)]
pub struct ExReceiver<T>(Receiver<T>);

/// tokio's `broadcast::error::SendError`, returned when a value is sent
/// while no receiver exists. Opaque.
#[verifier::external_type_specification]
#[verifier::external_body]
#[verifier::reject_recursive_types(T)]
pub struct ExSendError<T>(SendError<T>);

/// How many pending events the fanout is asked to keep for a subscriber.
pub const FANOUT_CAPACITY: usize = 100;

/// The capacity that was asked for when the channel of this sender was
/// opened with tokio's `broadcast::channel`. The channel keeps room for at
/// least that many pending values, and keeps it for as long as it lives.
pub uninterp spec fn sender_capacity(sender: Sender<String>) -> usize;

/// The capacity that was asked for when the channel of this receiver was
/// opened with tokio's `broadcast::channel`. Every receiver of one channel
/// reads from the same ring of values, so all of them have the same.
pub uninterp spec fn receiver_capacity(receiver: Receiver<String>) -> usize;

/// Calls tokio's `broadcast::channel`. It panics on a capacity of zero or
/// above `usize::MAX / 2`, which the precondition rules out. The two halves
/// it returns belong to one channel, made with the capacity asked for;
/// nothing else is claimed of them.
#[verifier::external_body]
fn open_channel(capacity: usize) -> (halves: (Sender<String>, Receiver<String>))
    requires
        0 < capacity <= usize::MAX / 2,
    ensures
        sender_capacity(halves.0) == capacity,
        receiver_capacity(halves.1) == capacity,
{
    tokio::sync::broadcast::channel(capacity)
}

/// Calls tokio's `Sender::send`, which hands the value to every receiver
/// that exists at that moment and fails where there is none. Nothing is
/// claimed of the result: it depends on who is subscribed.
#[verifier::external_body]
fn send_to_all(sender: &Sender<String>, payload: String) -> (sent: Result<
    usize,
    SendError<String>,
>) {
    sender.send(payload)
}

/// Calls tokio's `Receiver::resubscribe`, which makes a new receiver on the
/// same channel that starts after the last value sent so far. It panics only
/// where the channel already has `usize::MAX / 4` receivers, more than memory
/// can hold. Of the receiver it returns only this is claimed: being on the
/// same channel, it has the capacity of the one it was made from.
#[verifier::external_body]
fn resubscribe(receiver: &Receiver<String>) -> (fresh: Receiver<String>)
    ensures
        receiver_capacity(fresh) == receiver_capacity(*receiver),
{
    receiver.resubscribe()
}

/// What a listening bridge does once a publish has been tried: it goes on
/// where the payload was handed over, and terminates where the fanout had no
/// subscriber.
pub open spec fn publish_settled(delivered: bool) -> (BridgeState, BridgeActionView) {
    if delivered {
        (BridgeState::Listening, BridgeActionView::Continue)
    } else {
        bridge_next(BridgeState::Listening, BridgeEventView::FanoutClosed)
    }
}

/// Settles the outcome of a publish for a listening bridge.
pub fn after_publish(sent: Result<usize, SendError<String>>) -> (step: (BridgeState, BridgeAction))
    ensures
        (step.0, step.1@) == publish_settled(sent is Ok),
{
    match sent {
        Ok(_) => (BridgeState::Listening, BridgeAction::Continue),
        Err(_) => bridge_step(BridgeState::Listening, BridgeEvent::FanoutClosed),
    }
}

/// The subscribing side of the fanout.
///
/// It keeps the channel open for as long as it lives, so that a publish
/// always finds a receiver.
#[derive(Debug)]
pub struct DirectoryChangesListener {
    rx: Receiver<String>,
}

/// The publishing side of the fanout, together with the bridge's state.
#[derive(Debug)]
pub struct ChangeBridge {
    state: BridgeState,
    tx: Sender<String>,
}

impl DirectoryChangesListener {
    /// A listener is only ever on a fanout made with `FANOUT_CAPACITY`.
    #[verifier::type_invariant]
    spec fn on_the_fanout(&self) -> bool {
        receiver_capacity(self.rx) == FANOUT_CAPACITY
    }

    /// The capacity of the fanout that this listener subscribes to.
    pub closed spec fn capacity(&self) -> usize {
        receiver_capacity(self.rx)
    }

    /// Opens the fanout, with room for `FANOUT_CAPACITY` pending events, and
    /// returns its two sides: the listener, from which sessions subscribe, and
    /// the bridge, not yet subscribed upstream.
    pub fn new() -> (sides: (DirectoryChangesListener, ChangeBridge))
        ensures
            sides.0.capacity() == FANOUT_CAPACITY,
            sides.1.capacity() == FANOUT_CAPACITY,
            sides.1.state() == BridgeState::Starting,
    {
        let (tx, rx) = open_channel(FANOUT_CAPACITY);
        (DirectoryChangesListener { rx }, ChangeBridge { state: BridgeState::Starting, tx })
    }

    /// A fresh handle on the listener's fanout, with room for
    /// `FANOUT_CAPACITY` pending events. It receives the events published
    /// from now on, and none of those published before.
    pub fn subscribe(&self) -> (handle: Receiver<String>)
        ensures
            receiver_capacity(handle) == FANOUT_CAPACITY,
            receiver_capacity(handle) == self.capacity(),
    {
        proof {
            use_type_invariant(self);
        }
        resubscribe(&self.rx)
    }
}

impl ChangeBridge {
    /// The capacity of the fanout that this bridge publishes to.
    pub closed spec fn capacity(&self) -> usize {
        sender_capacity(self.tx)
    }

    /// The bridge's lifecycle state.
    pub closed spec fn spec_state(&self) -> BridgeState {
        self.state
    }

    /// The bridge's lifecycle state.
    #[verifier::when_used_as_spec(spec_state)]
    pub fn state(&self) -> (state: BridgeState)
        ensures
            state == self.spec_state(),
    {
        self.state
    }

    /// Takes one event, publishes to the fanout where the bridge's decision
    /// asks for it, and returns what is left for the caller to do.
    ///
    /// State and action are those of [`bridge_next`], except that a publish
    /// is carried out here: its place is taken by what [`publish_settled`]
    /// says of the attempt.
    pub fn handle(&mut self, event: BridgeEvent) -> (action: BridgeAction)
        ensures
            match bridge_next(old(self).state(), event@).1 {
                BridgeActionView::Publish(_) => {
                    ||| (final(self).state(), action@) == publish_settled(true)
                    ||| (final(self).state(), action@) == publish_settled(false)
                },
                planned => (final(self).state(), action@) == (
                    bridge_next(old(self).state(), event@).0,
                    planned,
                ),
            },
    {
        let (next, planned) = bridge_step(self.state, event);
        match planned {
            BridgeAction::Publish(payload) => {
                let sent = send_to_all(&self.tx, payload);
                let (settled, action) = after_publish(sent);
                self.state = settled;
                action
            },
            other => {
                self.state = next;
                other
            },
        }
    }
}

} // verus!
