//! Per-connection session logic: decoding inbound frames into actions,
//! the keepalive reflex, and the heartbeat timeout that evicts an
//! unresponsive client.
//!
//! A session is a pure state machine: the surrounding transport hands it
//! frames and clock readings, and it hands back the action to perform —
//! reply, echo, submit the counter command to the hub, or drop the frame.

use vstd::prelude::*;
use crate::codec::is_command_frame;
use crate::codec::decode_command;
use crate::codec::str_eq;
use crate::codec::lemma_command_frame_unique;

verus! {

/// How often a heartbeat ping is sent, in milliseconds.
pub const HEARTBEAT_INTERVAL_MS: u64 = 5000;

/// How long without client activity before the session is evicted, in
/// milliseconds.
pub const CLIENT_TIMEOUT_MS: u64 = 10000;

/// The tag of the recognized counter command.
pub open spec fn pressed_tag() -> Seq<char> {
    seq!['p', 'r', 'e', 's', 's', 'e', 'd']
}

/// An inbound transport frame, as plain values.
pub enum Frame {
    Ping(Vec<u8>),
    Pong(Vec<u8>),
    Text(String),
    Binary(Vec<u8>),
    Other,
}

/// What the transport should do with an inbound frame.
pub enum FrameAction {
    /// Reply to a ping with the same payload, without involving the hub.
    ReplyPong(Vec<u8>),
    /// Echo a binary frame back verbatim.
    EchoBinary(Vec<u8>),
    /// Submit the recognized counter command to the hub.
    SubmitPressed,
    /// The text frame is not a well-formed command: drop it, keep the
    /// connection open.
    DropMalformed,
    /// Nothing to do beyond recording activity.
    NoAction,
}

/// What a heartbeat tick demands.
pub enum HeartbeatDecision {
    /// The client is live: probe it with a ping.
    SendPing,
    /// The client has been silent past the timeout window: close the
    /// transport and disconnect from the hub.
    Timeout,
}

/// The per-connection state the session logic needs: the hub-assigned id,
/// the time of the last client activity, and whether teardown has run.
pub struct Session {
    pub id: usize,
    pub last_activity_ms: u64,
    pub closed: bool,
}

/// The action `a` is the one the protocol prescribes for `frame`: pings
/// are answered in place, binary frames are echoed, a well-formed command
/// frame is submitted if its tag is the recognized one and ignored
/// otherwise, and a malformed text frame is dropped.
pub open spec fn frame_action_ok(frame: Frame, a: FrameAction) -> bool {
    match frame {
        Frame::Ping(p) => a matches FrameAction::ReplyPong(q) && q@ == p@,
        Frame::Pong(_) => a is NoAction,
        Frame::Text(s) => {
            if is_command_frame(s@, pressed_tag()) {
                a is SubmitPressed
            } else if exists|t: Seq<char>| is_command_frame(s@, t) {
                a is NoAction
            } else {
                a is DropMalformed
            }
        },
        Frame::Binary(b) => a matches FrameAction::EchoBinary(q) && q@ == b@,
        Frame::Other => a is NoAction,
    }
}

impl Session {
    /// A session freshly attached to the hub under `id`, its activity
    /// clock starting at `now_ms`.
    pub fn start(id: usize, now_ms: u64) -> (s: Session)
        ensures
            s.id == id,
            s.last_activity_ms == now_ms,
            !s.closed,
    {
        Session { id, last_activity_ms: now_ms, closed: false }
    }

    /// The client has been silent for longer than the timeout window.
    pub open spec fn timed_out(&self, now_ms: u64) -> bool {
        now_ms as int > self.last_activity_ms as int + CLIENT_TIMEOUT_MS as int
    }

    /// Handles one inbound frame: records client activity and returns the
    /// prescribed action. A malformed command never fails the session; it
    /// is dropped.
    pub fn on_frame(&mut self, frame: Frame, now_ms: u64) -> (a: FrameAction)
        ensures
            final(self).id == old(self).id,
            final(self).closed == old(self).closed,
            final(self).last_activity_ms == now_ms,
            frame_action_ok(frame, a),
    {
        self.last_activity_ms = now_ms;
        match frame {
            Frame::Ping(p) => FrameAction::ReplyPong(p),
            Frame::Pong(_) => FrameAction::NoAction,
            Frame::Text(s) => {
                let decoded: Option<String> = decode_command(s.as_str());
                match decoded {
                    Some(tag) => {
                        if str_eq(tag.as_str(), "pressed") {
                            proof {
                                reveal_strlit("pressed");
                                assert("pressed"@ =~= pressed_tag());
                            }
                            FrameAction::SubmitPressed
                        } else {
                            proof {
                                reveal_strlit("pressed");
                                assert("pressed"@ =~= pressed_tag());
                                if is_command_frame(s@, pressed_tag()) {
                                    lemma_command_frame_unique(s@, tag@, pressed_tag());
                                }
                                assert(is_command_frame(s@, tag@));
                            }
                            FrameAction::NoAction
                        }
                    },
                    None => FrameAction::DropMalformed,
                }
            },
            Frame::Binary(b) => FrameAction::EchoBinary(b),
            Frame::Other => FrameAction::NoAction,
        }
    }

    /// The heartbeat timer fired: either probe the client or, past the
    /// timeout window, demand eviction.
    pub fn on_heartbeat_tick(&self, now_ms: u64) -> (d: HeartbeatDecision)
        ensures
            (d is Timeout) == self.timed_out(now_ms),
            (d is SendPing) == !self.timed_out(now_ms),
    {
        if now_ms > self.last_activity_ms && now_ms - self.last_activity_ms > CLIENT_TIMEOUT_MS {
            HeartbeatDecision::Timeout
        } else {
            HeartbeatDecision::SendPing
        }
    }

    /// Teardown: marks the session closed and says whether the caller
    /// must issue the hub disconnect — true exactly on the first call,
    /// however many paths race to close.
    pub fn close(&mut self) -> (issue: bool)
        ensures
            final(self).closed,
            final(self).id == old(self).id,
            final(self).last_activity_ms == old(self).last_activity_ms,
            issue == !old(self).closed,
    {
        let was: bool = self.closed;
        self.closed = true;
        !was
    }
}

} // verus!
