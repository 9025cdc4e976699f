//! Per-connection session state machines. The embedding application owns
//! the socket, the clock and the waiting; every decision — what a frame
//! means, when to rate limit, what to forward — is made here.

use vstd::prelude::*;
use vstd::string::StrSliceExecFns;

use crate::danmaku::Danmaku;
use crate::danmaku::DanmakuPacket;
use crate::limiter::TokenBucket;

verus! {

/// Why a session is closing.
pub enum CloseReason {
    /// The peer asked to close, or the stream ended.
    Normal,
    /// The connection exceeded its ingress rate limit.
    RateLimited,
    /// A transport error.
    Error,
}

/// The lifecycle of one session.
pub enum SessionState {
    /// The connection is live.
    Open,
    /// The loop is ending for the recorded reason.
    Closing(CloseReason),
    /// The socket has been closed.
    Closed,
}

/// What an ingress session can observe: one event per loop turn.
pub enum IngressEvent {
    /// A data frame arrived; the payload is its decoded danmaku, or
    /// `None` when the payload did not decode.
    Data(Option<Danmaku>),
    /// A ping frame with its payload.
    Ping(Vec<u8>),
    /// A close frame.
    Close,
    /// The heartbeat interval elapsed.
    Tick,
}

/// What the application must do after an ingress step.
pub enum IngressAction {
    /// Insert this packet into the fan-in buffer.
    Push(DanmakuPacket),
    /// Reply with a pong frame carrying this payload.
    Pong(Vec<u8>),
    /// Send a ping frame (liveness probe).
    PingOut,
    /// Stop the loop and close the socket.
    CloseConnection,
    /// Nothing: the event was absorbed.
    Discard,
}

/// The per-connection state of one ingress (producer) session, bound to
/// the group its endpoint serves.
pub struct IngressSession {
    /// The destination group of every packet this connection produces.
    pub group: String,
    /// The connection's token bucket.
    pub limiter: TokenBucket,
    /// The maximum admitted text length, in characters.
    pub max_length: usize,
    /// The lifecycle state.
    pub state: SessionState,
}

impl IngressSession {
    /// The limiter invariant holds.
    pub open spec fn wf(self) -> bool {
        self.limiter.wf()
    }

    /// Whether a data frame carrying `d` is admitted at `now_ms`: the
    /// limiter grants a token, the payload decoded, and the text is
    /// within the length bound.
    pub open spec fn admits_data(self, d: Option<Danmaku>, now_ms: u64) -> bool {
        &&& self.limiter.spec_admits(now_ms)
        &&& d matches Some(dm) && dm@.text.len() <= self.max_length
    }

    /// A fresh session for one upgraded connection, with a full token
    /// bucket.
    pub fn new(group: String, rate_limit: u32, max_length: usize, now_ms: u64) -> (s:
        IngressSession)
        requires
            rate_limit >= 1,
        ensures
            s.wf(),
            s.state is Open,
            s.group == group,
            s.max_length == max_length,
            s.limiter == TokenBucket::spec_full(rate_limit, now_ms),
    {
        IngressSession {
            group,
            limiter: TokenBucket::new(rate_limit, now_ms),
            max_length,
            state: SessionState::Open,
        }
    }

    /// Records a transport error: the session is closing abnormally.
    pub fn fail(&mut self)
        ensures
            final(self).state == SessionState::Closing(CloseReason::Error),
            final(self).group == old(self).group,
            final(self).limiter == old(self).limiter,
            final(self).max_length == old(self).max_length,
    {
        self.state = SessionState::Closing(CloseReason::Error);
    }

    /// Records that the socket is closed: the session has ended.
    pub fn finish(&mut self)
        ensures
            final(self).state == SessionState::Closed,
            final(self).group == old(self).group,
            final(self).limiter == old(self).limiter,
            final(self).max_length == old(self).max_length,
    {
        self.state = SessionState::Closed;
    }

    /// Handles one event of an open connection.
    ///
    /// A ping is answered at once; a close frame ends the session
    /// normally; a heartbeat tick sends a ping. A data frame first
    /// consumes a rate-limit token — exceeding the limit closes the
    /// connection, before the payload is even looked at. An undecodable
    /// or oversized payload is discarded and the connection stays open;
    /// anything else becomes a packet for this session's group.
    pub fn step(&mut self, event: IngressEvent, now_ms: u64) -> (a: IngressAction)
        requires
            old(self).wf(),
            old(self).state is Open,
        ensures
            final(self).wf(),
            final(self).group == old(self).group,
            final(self).max_length == old(self).max_length,
            match event {
                IngressEvent::Ping(payload) => {
                    &&& a == IngressAction::Pong(payload)
                    &&& *final(self) == *old(self)
                },
                IngressEvent::Close => {
                    &&& a == IngressAction::CloseConnection
                    &&& final(self).state == SessionState::Closing(CloseReason::Normal)
                    &&& final(self).limiter == old(self).limiter
                },
                IngressEvent::Tick => {
                    &&& a == IngressAction::PingOut
                    &&& *final(self) == *old(self)
                },
                IngressEvent::Data(d) => {
                    &&& final(self).limiter == old(self).limiter.spec_after_check(now_ms)
                    &&& (!old(self).limiter.spec_admits(now_ms) ==> a
                        == IngressAction::CloseConnection && final(self).state
                        == SessionState::Closing(CloseReason::RateLimited))
                    &&& (old(self).limiter.spec_admits(now_ms) ==> final(self).state is Open)
                    &&& (old(self).admits_data(d, now_ms) ==> a == IngressAction::Push(
                        DanmakuPacket { group: old(self).group, danmaku: d->0 },
                    ))
                    &&& (old(self).limiter.spec_admits(now_ms) && !old(self).admits_data(
                        d,
                        now_ms,
                    ) ==> a == IngressAction::Discard)
                },
            },
    {
        match event {
            IngressEvent::Ping(payload) => IngressAction::Pong(payload),
            IngressEvent::Close => {
                self.state = SessionState::Closing(CloseReason::Normal);
                IngressAction::CloseConnection
            },
            IngressEvent::Tick => IngressAction::PingOut,
            IngressEvent::Data(d) => {
                let granted = self.limiter.check(now_ms);
                if !granted {
                    self.state = SessionState::Closing(CloseReason::RateLimited);
                    IngressAction::CloseConnection
                } else {
                    match d {
                        None => IngressAction::Discard,
                        Some(danmaku) => {
                            if danmaku.text.as_str().unicode_len() > self.max_length {
                                IngressAction::Discard
                            } else {
                                IngressAction::Push(
                                    DanmakuPacket { group: self.group.clone(), danmaku },
                                )
                            }
                        },
                    }
                }
            },
        }
    }
}

/// What an egress session can observe: an item from its broadcast
/// subscription, or a frame from its viewer, or the heartbeat.
pub enum EgressEvent {
    /// The subscription delivered a packet.
    Received(DanmakuPacket),
    /// The subscription skipped this many packets (the session lagged).
    Lagged(u64),
    /// The subscription ended: the publisher is gone.
    StreamEnd,
    /// An unexpected inbound data frame from the viewer.
    Data,
    /// A ping frame with its payload.
    Ping(Vec<u8>),
    /// A close frame.
    Close,
    /// The heartbeat interval elapsed.
    Tick,
}

/// What the application must do after an egress step.
pub enum EgressAction {
    /// Serialize this danmaku and send it as a text frame.
    Forward(Danmaku),
    /// Reply with a pong frame carrying this payload.
    Pong(Vec<u8>),
    /// Send a ping frame (liveness probe).
    PingOut,
    /// Stop the loop and close the socket.
    CloseConnection,
    /// Nothing: the event was absorbed.
    Discard,
}

/// The per-connection state of one egress (viewer) session, bound to the
/// single group it subscribed to.
pub struct EgressSession {
    /// The only group whose packets this viewer receives.
    pub group: String,
    /// The lifecycle state.
    pub state: SessionState,
}

impl EgressSession {
    /// A fresh session for one upgraded viewer connection.
    pub fn new(group: String) -> (s: EgressSession)
        ensures
            s.state is Open,
            s.group == group,
    {
        EgressSession { group, state: SessionState::Open }
    }

    /// Records a transport error: the session is closing abnormally.
    pub fn fail(&mut self)
        ensures
            final(self).state == SessionState::Closing(CloseReason::Error),
            final(self).group == old(self).group,
    {
        self.state = SessionState::Closing(CloseReason::Error);
    }

    /// Records that the socket is closed: the session has ended.
    pub fn finish(&mut self)
        ensures
            final(self).state == SessionState::Closed,
            final(self).group == old(self).group,
    {
        self.state = SessionState::Closed;
    }

    /// Handles one event of an open connection.
    ///
    /// A received packet is forwarded exactly when its group is this
    /// session's group; any other group's packet is discarded unseen. A
    /// lag notice is absorbed without ending the connection. The end of
    /// the subscription, or a close frame, ends the session; pings are
    /// answered and unexpected viewer data frames are ignored.
    pub fn step(&mut self, event: EgressEvent) -> (a: EgressAction)
        requires
            old(self).state is Open,
        ensures
            final(self).group == old(self).group,
            match event {
                EgressEvent::Received(p) => {
                    &&& (p@.group == old(self).group@ ==> a == EgressAction::Forward(p.danmaku))
                    &&& (p@.group != old(self).group@ ==> a == EgressAction::Discard)
                    &&& final(self).state is Open
                },
                EgressEvent::Lagged(_) => {
                    &&& a == EgressAction::Discard
                    &&& final(self).state is Open
                },
                EgressEvent::StreamEnd => {
                    &&& a == EgressAction::CloseConnection
                    &&& final(self).state == SessionState::Closing(CloseReason::Normal)
                },
                EgressEvent::Data => {
                    &&& a == EgressAction::Discard
                    &&& final(self).state is Open
                },
                EgressEvent::Ping(payload) => {
                    &&& a == EgressAction::Pong(payload)
                    &&& final(self).state is Open
                },
                EgressEvent::Close => {
                    &&& a == EgressAction::CloseConnection
                    &&& final(self).state == SessionState::Closing(CloseReason::Normal)
                },
                EgressEvent::Tick => {
                    &&& a == EgressAction::PingOut
                    &&& final(self).state is Open
                },
            },
    {
        match event {
            EgressEvent::Received(p) => {
                if p.group.eq(&self.group) {
                    EgressAction::Forward(p.danmaku)
                } else {
                    EgressAction::Discard
                }
            },
            EgressEvent::Lagged(_) => EgressAction::Discard,
            EgressEvent::StreamEnd => {
                self.state = SessionState::Closing(CloseReason::Normal);
                EgressAction::CloseConnection
            },
            EgressEvent::Data => EgressAction::Discard,
            EgressEvent::Ping(payload) => EgressAction::Pong(payload),
            EgressEvent::Close => {
                self.state = SessionState::Closing(CloseReason::Normal);
                EgressAction::CloseConnection
            },
            EgressEvent::Tick => EgressAction::PingOut,
        }
    }
}

} // verus!
