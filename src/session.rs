use vstd::prelude::*;
use crate::broadcast::{BroadcastView, Broadcaster};
use crate::metrics::{bumped, dropped, Metrics};

verus! {

#[derive(Clone, Copy, Debug, PartialEq, Eq, Structural)]
pub enum SessionState {
    Active,
    Closing,
    Closed,
}

/// What happened on one of the three sources a session waits on.
#[derive(Clone, Copy, Debug, PartialEq, Eq, Structural)]
pub enum SessionEvent {
    /// A message was read from the subscription and written to the client.
    FrameSent,
    /// The subscription fell behind and this many messages were dropped.
    Lagged(u64),
    /// The channel was shut down.
    ChannelClosed,
    /// The liveness-probe timer fired.
    PingDue,
    /// Writing to the client failed.
    SendFailed,
    /// The client answered a probe.
    Pong,
    /// The client sent text.
    Text,
    /// The client asked to close.
    CloseRequested,
    /// Reading from the client failed.
    TransportError,
    /// The client's stream ended.
    TransportEnded,
    /// Any other inbound control message.
    Other,
}

/// What the driver of the session does next.
#[derive(Clone, Copy, Debug, PartialEq, Eq, Structural)]
pub enum SessionAction {
    /// Keep waiting.
    Continue,
    /// Send a liveness probe to the client.
    SendPing,
    /// Stop waiting and clean up.
    Finish,
}

/// Whether an event ends the session.
pub open spec fn ends_session(ev: SessionEvent) -> bool {
    match ev {
        SessionEvent::ChannelClosed | SessionEvent::SendFailed | SessionEvent::CloseRequested
        | SessionEvent::TransportError | SessionEvent::TransportEnded => true,
        _ => false,
    }
}

/// The decisions of one client connection: it forwards messages, probes the
/// client now and then, and ends on a close, a transport failure or a shut
/// channel. Lag never ends it.
pub struct ConnectionSession {
    pub state: SessionState,
    /// The subscription slot the session reads from.
    pub subscription: usize,
    /// Messages written to the client.
    pub frames_sent: u64,
}

impl ConnectionSession {
    /// Opens a session: subscribes and counts the connection.
    pub fn start(bc: &mut Broadcaster, metrics: &mut Metrics) -> (r: ConnectionSession)
        requires
            old(bc).wf(),
        ensures
            final(bc).wf(),
            r.state == SessionState::Active,
            r.frames_sent == 0,
            r.subscription <= old(bc)@.cursors.len(),
            final(bc)@ == (BroadcastView {
                cursors: if r.subscription < old(bc)@.cursors.len() {
                    old(bc)@.cursors.update(r.subscription as int, Some(old(bc)@.history.len()))
                } else {
                    old(bc)@.cursors.push(Some(old(bc)@.history.len()))
                },
                ..old(bc)@
            }),
            final(bc)@.cursor(r.subscription as nat) == Some(old(bc)@.history.len()),
            final(metrics).active_connections == bumped(old(metrics).active_connections),
            final(metrics).total_connections == bumped(old(metrics).total_connections),
    {
        let id = bc.subscribe();
        metrics.increment_connections();
        ConnectionSession { state: SessionState::Active, subscription: id, frames_sent: 0 }
    }

    /// Takes one event of an active session.
    pub fn on_event(&mut self, ev: SessionEvent, metrics: &mut Metrics) -> (r: SessionAction)
        requires
            old(self).state == SessionState::Active,
        ensures
            final(self).subscription == old(self).subscription,
            ends_session(ev) ==> final(self).state == SessionState::Closing && r == SessionAction::Finish,
            !ends_session(ev) ==> final(self).state == SessionState::Active,
            ev == SessionEvent::PingDue ==> r == SessionAction::SendPing,
            !ends_session(ev) && ev != SessionEvent::PingDue ==> r == SessionAction::Continue,
            final(self).frames_sent == if ev == SessionEvent::FrameSent {
                bumped(old(self).frames_sent)
            } else {
                old(self).frames_sent
            },
            *final(metrics) == if ev == SessionEvent::FrameSent {
                Metrics { frames_delivered: bumped(old(metrics).frames_delivered), ..*old(metrics) }
            } else if ev is Lagged {
                Metrics { frames_dropped: bumped(old(metrics).frames_dropped), ..*old(metrics) }
            } else {
                *old(metrics)
            },
    {
        match ev {
            SessionEvent::FrameSent => {
                self.frames_sent = crate::metrics::bump(self.frames_sent);
                metrics.increment_frames_delivered();
                SessionAction::Continue
            },
            SessionEvent::Lagged(_) => {
                metrics.increment_dropped_frames();
                SessionAction::Continue
            },
            SessionEvent::PingDue => SessionAction::SendPing,
            SessionEvent::Pong | SessionEvent::Text | SessionEvent::Other => SessionAction::Continue,
            SessionEvent::ChannelClosed | SessionEvent::SendFailed | SessionEvent::CloseRequested
            | SessionEvent::TransportError | SessionEvent::TransportEnded => {
                self.state = SessionState::Closing;
                SessionAction::Finish
            },
        }
    }

    /// Ends the session on any path: lets go of the subscription and stops
    /// counting the connection.
    pub fn finish(&mut self, bc: &mut Broadcaster, metrics: &mut Metrics)
        requires
            old(bc).wf(),
            old(self).subscription < old(bc)@.cursors.len(),
        ensures
            final(bc).wf(),
            final(self).state == SessionState::Closed,
            final(self).subscription == old(self).subscription,
            final(self).frames_sent == old(self).frames_sent,
            final(bc)@ == (BroadcastView {
                cursors: old(bc)@.cursors.update(old(self).subscription as int, None),
                ..old(bc)@
            }),
            *final(metrics) == (Metrics { active_connections: dropped(old(metrics).active_connections), ..*old(metrics) }),
    {
        bc.unsubscribe(self.subscription);
        metrics.decrement_connections();
        self.state = SessionState::Closed;
    }
}

} // verus!
