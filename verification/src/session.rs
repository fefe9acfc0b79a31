//! Decisions of one client session.
//!
//! A session owns one outbound stream and feeds it from two sources: a
//! heartbeat that fires at a fixed interval and the fanout of change events.
//! The caller performs the waiting and the writing; this module decides, for
//! each thing that happened, what the session does next.

use vstd::prelude::*;

verus! {

/// Seconds between two liveness probes on an open session.
pub const HEARTBEAT_INTERVAL_SECS: u64 = 5;

/// A frame the server writes to the client.
#[derive(Debug, Clone, PartialEq, Eq)]
pub enum Frame {
    /// Liveness probe without payload.
    Ping,
    /// One change event, as raw text.
    Text(String),
}

/// The mathematical content of a [`Frame`].
pub enum FrameView {
    Ping,
    Text(Seq<char>),
}

impl View for Frame {
    type V = FrameView;

    open spec fn view(&self) -> FrameView {
        match self {
            Frame::Ping => FrameView::Ping,
            Frame::Text(payload) => FrameView::Text(payload@),
        }
    }
}

/// Lifecycle of a session. `Closed` is final.
#[derive(Debug, Clone, Copy, PartialEq, Eq, Structural)]
pub enum SessionState {
    Open,
    Closed,
}

/// Something that happened to a session.
#[derive(Debug, Clone, PartialEq, Eq)]
pub enum SessionEvent {
    /// The heartbeat interval elapsed.
    HeartbeatDue,
    /// The fanout delivered a change event.
    ChangeReceived(String),
    /// A write to the client stream failed: the peer is gone.
    WriteFailed,
    /// The fanout handle yields no further event to this session.
    FeedEnded,
}

/// The mathematical content of a [`SessionEvent`].
pub enum SessionEventView {
    HeartbeatDue,
    ChangeReceived(Seq<char>),
    WriteFailed,
    FeedEnded,
}

impl View for SessionEvent {
    type V = SessionEventView;

    open spec fn view(&self) -> SessionEventView {
        match self {
            SessionEvent::HeartbeatDue => SessionEventView::HeartbeatDue,
            SessionEvent::ChangeReceived(payload) => SessionEventView::ChangeReceived(payload@),
            SessionEvent::WriteFailed => SessionEventView::WriteFailed,
            SessionEvent::FeedEnded => SessionEventView::FeedEnded,
        }
    }
}

/// What the session does in answer to an event.
#[derive(Debug, Clone, PartialEq, Eq)]
pub enum SessionAction {
    /// Write this frame to the client, as one uninterrupted write.
    Write(Frame),
    /// Stop both the heartbeat and the forwarding; write nothing more.
    Close,
}

/// The mathematical content of a [`SessionAction`].
pub enum SessionActionView {
    Write(FrameView),
    Close,
}

impl View for SessionAction {
    type V = SessionActionView;

    open spec fn view(&self) -> SessionActionView {
        match self {
            SessionAction::Write(frame) => SessionActionView::Write(frame@),
            SessionAction::Close => SessionActionView::Close,
        }
    }
}

/// The state after `event` and the action it calls for.
///
/// An open session answers a due heartbeat with a probe and a change event
/// with that event as a text frame, and stays open. A failed write or the end
/// of the feed closes it. A closed session stays closed and writes nothing.
pub open spec fn session_next(state: SessionState, event: SessionEventView) -> (
    SessionState,
    SessionActionView,
) {
    match state {
        SessionState::Closed => (SessionState::Closed, SessionActionView::Close),
        SessionState::Open => match event {
            SessionEventView::HeartbeatDue => (
                SessionState::Open,
                SessionActionView::Write(FrameView::Ping),
            ),
            SessionEventView::ChangeReceived(payload) => (
                SessionState::Open,
                SessionActionView::Write(FrameView::Text(payload)),
            ),
            SessionEventView::WriteFailed => (SessionState::Closed, SessionActionView::Close),
            SessionEventView::FeedEnded => (SessionState::Closed, SessionActionView::Close),
        },
    }
}

/// Decides what a session in `state` does when `event` happens.
pub fn session_step(state: SessionState, event: SessionEvent) -> (step: (
    SessionState,
    SessionAction,
))
    ensures
        (step.0, step.1@) == session_next(state, event@),
{
    match state {
        SessionState::Closed => (SessionState::Closed, SessionAction::Close),
        SessionState::Open => match event {
            SessionEvent::HeartbeatDue => (SessionState::Open, SessionAction::Write(Frame::Ping)),
            SessionEvent::ChangeReceived(payload) => (
                SessionState::Open,
                SessionAction::Write(Frame::Text(payload)),
            ),
            SessionEvent::WriteFailed => (SessionState::Closed, SessionAction::Close),
            SessionEvent::FeedEnded => (SessionState::Closed, SessionAction::Close),
        },
    }
}

/// The state a session reaches from `state` through `events`, in order.
pub open spec fn session_after(state: SessionState, events: Seq<SessionEventView>) -> SessionState
    decreases events.len(),
{
    if events.len() == 0 {
        state
    } else {
        session_next(session_after(state, events.drop_last()), events.last()).0
    }
}

/// A closed session never writes again and never reopens, whatever happens.
pub proof fn lemma_closed_is_final(events: Seq<SessionEventView>, event: SessionEventView)
    ensures
        session_after(SessionState::Closed, events) == SessionState::Closed,
        session_next(session_after(SessionState::Closed, events), event).1
            == SessionActionView::Close,
    decreases events.len(),
{
    if events.len() > 0 {
        lemma_closed_is_final(events.drop_last(), events.last());
    }
}

/// Once either loop has seen a write fail, the session is closed for both:
/// no later event, from the heartbeat or from the feed, leads to a write.
pub proof fn lemma_write_failure_stops_both_loops(
    state: SessionState,
    later: Seq<SessionEventView>,
    event: SessionEventView,
)
    ensures
        session_next(
            session_after(session_next(state, SessionEventView::WriteFailed).0, later),
            event,
        ).1 == SessionActionView::Close,
{
    lemma_closed_is_final(later, event);
}

/// The frame that an open session writes for `event`, if it writes one.
pub open spec fn frame_for(event: SessionEventView) -> Option<FrameView> {
    match event {
        SessionEventView::HeartbeatDue => Some(FrameView::Ping),
        SessionEventView::ChangeReceived(payload) => Some(FrameView::Text(payload)),
        SessionEventView::WriteFailed => None,
        SessionEventView::FeedEnded => None,
    }
}

/// The frames a session writes, in order, while `events` happen to it one
/// after the other, starting from `state`.
pub open spec fn session_frames(state: SessionState, events: Seq<SessionEventView>) -> Seq<
    FrameView,
>
    decreases events.len(),
{
    if events.len() == 0 {
        Seq::empty()
    } else {
        let earlier = session_frames(state, events.drop_last());
        match session_next(session_after(state, events.drop_last()), events.last()).1 {
            SessionActionView::Write(frame) => earlier.push(frame),
            SessionActionView::Close => earlier,
        }
    }
}

/// As long as no write fails and the feed goes on, an open session stays
/// open and writes one frame for each event, in the order of the events: a
/// probe for each due heartbeat, and each change as it was received.
pub proof fn lemma_open_session_writes_every_event(events: Seq<SessionEventView>)
    requires
        forall|i: int| 0 <= i < events.len() ==> frame_for(#[trigger] events[i]) is Some,
    ensures
        session_after(SessionState::Open, events) == SessionState::Open,
        session_frames(SessionState::Open, events) == events.map_values(
            |event: SessionEventView| frame_for(event)->0,
        ),
    decreases events.len(),
{
    let frame = |event: SessionEventView| frame_for(event)->0;
    if events.len() == 0 {
        assert(session_frames(SessionState::Open, events) =~= events.map_values(frame));
    } else {
        let earlier = events.drop_last();
        assert forall|i: int| 0 <= i < earlier.len() implies frame_for(
            #[trigger] earlier[i],
        ) is Some by {
            assert(earlier[i] == events[i]);
        }
        lemma_open_session_writes_every_event(earlier);
        assert(frame_for(events[events.len() - 1]) is Some);
        assert(earlier.map_values(frame).push(frame(events.last())) =~= events.map_values(frame));
    }
}

/// A closed session writes no frame, whatever happens to it.
pub proof fn lemma_closed_session_writes_nothing(events: Seq<SessionEventView>)
    ensures
        session_frames(SessionState::Closed, events) == Seq::<FrameView>::empty(),
    decreases events.len(),
{
    if events.len() > 0 {
        lemma_closed_session_writes_nothing(events.drop_last());
        lemma_closed_is_final(events.drop_last(), events.last());
    }
}

} // verus!
