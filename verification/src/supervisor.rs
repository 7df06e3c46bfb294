//! Session supervision for one durable streaming connection: exponential
//! backoff with jitter, a disconnection circuit breaker, scheduled
//! rotation, and a liveness watchdog.

use vstd::prelude::*;

verus! {

pub const BASE_BACKOFF_MS: u64 = 1000;

pub const MAX_BACKOFF_MS: u64 = 60000;

/// Uniform jitter bound added to each reconnect wait.
pub const JITTER_BOUND_MS: u64 = 500;

/// Scheduled rotation interval: 23 hours.
pub const ROTATION_INTERVAL_MS: u64 = 23 * 3600 * 1000;

/// No frame for this long means the session is dead: 60 s.
pub const LIVENESS_TIMEOUT_MS: u64 = 60000;

/// Sliding window of the circuit breaker: 300 s.
pub const DISCONNECT_WINDOW_MS: u64 = 300000;

/// Disconnections within the window that trip the breaker.
pub const DISCONNECT_LIMIT: usize = 10;

/// Relies on rand::random_range over `0..JITTER_BOUND_MS`: the draw
/// falls in the (non-empty) range.  Nothing else is promised of a
/// random value.
#[verifier::external_body]
fn gen_jitter() -> (r: u64)
    ensures
        r < JITTER_BOUND_MS,
{
    rand::random_range(0..JITTER_BOUND_MS)
}

#[derive(Clone, Copy, Debug, PartialEq, Eq, Structural)]
pub enum ConnectionState {
    Disconnected,
    Connecting,
    Connected,
    Reconnecting,
    Rotating,
}

/// What the runner observed on the session.
#[derive(Clone, Copy, Debug, PartialEq, Eq, Structural)]
pub enum SessionEvent {
    StartTick,
    HandshakeOk,
    HandshakeErr,
    FrameReceived,
    LivenessExpired,
    ConnectionClosed,
    RotationDue,
    BackoffElapsed,
    ShutdownRequested,
}

/// What the runner must do next.
#[derive(Clone, Copy, Debug, PartialEq, Eq, Structural)]
pub enum SessionAction {
    Connect,
    Wait { ms: u64 },
    CloseConnection,
    Idle,
}

/// min(2 b, cap) as a spec value.
pub open spec fn doubled_backoff(b: int) -> int {
    if 2 * b > MAX_BACKOFF_MS as int {
        MAX_BACKOFF_MS as int
    } else {
        2 * b
    }
}

pub open spec fn pow2(n: nat) -> int
    decreases n,
{
    if n == 0 {
        1
    } else {
        2 * pow2((n - 1) as nat)
    }
}

/// The backoff before the n-th consecutive reconnect attempt.
pub open spec fn backoff_after(n: nat) -> int
    decreases n,
{
    if n == 0 {
        BASE_BACKOFF_MS as int
    } else {
        doubled_backoff(backoff_after((n - 1) as nat))
    }
}

proof fn lemma_pow2_pos(n: nat)
    ensures
        pow2(n) >= 1,
    decreases n,
{
    if n > 0 {
        lemma_pow2_pos((n - 1) as nat);
    }
}

/// After n consecutive failures the backoff is min(base * 2^n, max).
pub proof fn lemma_backoff_growth(n: nat)
    ensures
        backoff_after(n) == if BASE_BACKOFF_MS as int * pow2(n) > MAX_BACKOFF_MS as int {
            MAX_BACKOFF_MS as int
        } else {
            BASE_BACKOFF_MS as int * pow2(n)
        },
    decreases n,
{
    if n > 0 {
        lemma_backoff_growth((n - 1) as nat);
        lemma_pow2_pos((n - 1) as nat);
        let b = BASE_BACKOFF_MS as int;
        let p = pow2((n - 1) as nat);
        assert(b * pow2(n) == 2 * (b * p)) by (nonlinear_arith)
            requires
                pow2(n) == 2 * p,
        ;
        if b * p > MAX_BACKOFF_MS as int {
            assert(2 * (b * p) > MAX_BACKOFF_MS as int);
        }
    }
}

/// The disconnection timestamps still inside the sliding window.
pub open spec fn kept_disconnects(s: Seq<u64>, now_ms: u64) -> Seq<u64>
    decreases s.len(),
{
    if s.len() == 0 {
        Seq::empty()
    } else {
        let rest = kept_disconnects(s.drop_first(), now_ms);
        if s[0] as int + DISCONNECT_WINDOW_MS as int > now_ms as int {
            seq![s[0]] + rest
        } else {
            rest
        }
    }
}

proof fn lemma_kept_push(s: Seq<u64>, t: u64, now_ms: u64)
    ensures
        kept_disconnects(s.push(t), now_ms) == if t as int + DISCONNECT_WINDOW_MS as int > now_ms
            as int {
            kept_disconnects(s, now_ms).push(t)
        } else {
            kept_disconnects(s, now_ms)
        },
    decreases s.len(),
{
    if s.len() == 0 {
        assert(s.push(t)[0] == t);
        assert(s.push(t).drop_first() =~= Seq::<u64>::empty());
        assert(kept_disconnects(Seq::<u64>::empty(), now_ms) =~= Seq::<u64>::empty());
        if t as int + DISCONNECT_WINDOW_MS as int > now_ms as int {
            assert(kept_disconnects(s.push(t), now_ms) =~= seq![t] + kept_disconnects(
                s.push(t).drop_first(),
                now_ms,
            ));
            assert(kept_disconnects(s.push(t), now_ms) =~= kept_disconnects(s, now_ms).push(t));
        } else {
            assert(kept_disconnects(s.push(t), now_ms) =~= kept_disconnects(
                s.push(t).drop_first(),
                now_ms,
            ));
        }
    } else {
        lemma_kept_push(s.drop_first(), t, now_ms);
        assert(s.push(t)[0] == s[0]);
        assert(s.push(t).drop_first() =~= s.drop_first().push(t));
        if s[0] as int + DISCONNECT_WINDOW_MS as int > now_ms as int {
            if t as int + DISCONNECT_WINDOW_MS as int > now_ms as int {
                assert(kept_disconnects(s.push(t), now_ms) =~= kept_disconnects(
                    s,
                    now_ms,
                ).push(t));
            }
        }
    }
}

/// Every kept timestamp is still inside the window.
proof fn lemma_kept_within(s: Seq<u64>, now_ms: u64)
    ensures
        forall|i: int|
            0 <= i < kept_disconnects(s, now_ms).len() ==> (#[trigger] kept_disconnects(
                s,
                now_ms,
            )[i]) as int + DISCONNECT_WINDOW_MS as int > now_ms as int,
    decreases s.len(),
{
    if s.len() > 0 {
        lemma_kept_within(s.drop_first(), now_ms);
        let rest = kept_disconnects(s.drop_first(), now_ms);
        assert forall|i: int|
            0 <= i < kept_disconnects(s, now_ms).len() implies (#[trigger] kept_disconnects(
            s,
            now_ms,
        )[i]) as int + DISCONNECT_WINDOW_MS as int > now_ms as int by {
            if s[0] as int + DISCONNECT_WINDOW_MS as int > now_ms as int {
                if i > 0 {
                    assert(kept_disconnects(s, now_ms)[i] == rest[i - 1]);
                }
            } else {
                assert(kept_disconnects(s, now_ms)[i] == rest[i]);
            }
        }
    }
}

/// Filtering timestamps that are all inside the window keeps them all.
proof fn lemma_kept_all(s: Seq<u64>, now_ms: u64)
    requires
        forall|i: int|
            0 <= i < s.len() ==> (#[trigger] s[i]) as int + DISCONNECT_WINDOW_MS as int > now_ms
                as int,
    ensures
        kept_disconnects(s, now_ms) == s,
    decreases s.len(),
{
    if s.len() > 0 {
        assert forall|i: int|
            0 <= i < s.drop_first().len() implies (#[trigger] s.drop_first()[i]) as int
            + DISCONNECT_WINDOW_MS as int > now_ms as int by {
            assert(s.drop_first()[i] == s[i + 1]);
        }
        lemma_kept_all(s.drop_first(), now_ms);
        assert(kept_disconnects(s, now_ms) =~= s);
    }
}

/// A reconnect wait of the given backoff plus jitter below the bound.
pub open spec fn jittered_wait(action: SessionAction, backoff_ms: u64) -> bool {
    match action {
        SessionAction::Wait { ms } => backoff_ms <= ms < backoff_ms + JITTER_BOUND_MS,
        _ => false,
    }
}

/// One supervised streaming session.
pub struct SessionSupervisor {
    pub state: ConnectionState,
    /// Wait before the next reconnect attempt, before jitter.
    pub backoff_ms: u64,
    /// Timestamps (ms) of recent disconnections, oldest first.
    pub disconnects: Vec<u64>,
    /// When the next proactive rotation is due (ms).
    pub rotation_deadline: u64,
    /// When the last frame, ping or pong arrived (ms).
    pub last_frame_ms: u64,
}

/// A proactive rotation of a healthy session: only past the deadline,
/// and the next one is scheduled a full interval later.
pub open spec fn rotated(pre: SessionSupervisor, post: SessionSupervisor, now_ms: u64) -> bool {
    &&& pre.state == ConnectionState::Connected
    &&& now_ms >= pre.rotation_deadline
    &&& post.state == ConnectionState::Rotating
    &&& post.rotation_deadline == now_ms as int + ROTATION_INTERVAL_MS as int
}

/// Two successive rotations are at least one rotation interval apart:
/// a window shorter than the interval sees at most one.
pub proof fn lemma_rotation_spacing(
    s0: SessionSupervisor,
    s1: SessionSupervisor,
    s2: SessionSupervisor,
    t1: u64,
    t2: u64,
)
    requires
        rotated(s0, s1, t1),
        rotated(s1, s2, t2),
    ensures
        t2 as int - t1 as int >= ROTATION_INTERVAL_MS as int,
{
}

impl SessionSupervisor {
    pub open spec fn wf(&self) -> bool {
        BASE_BACKOFF_MS <= self.backoff_ms <= MAX_BACKOFF_MS
    }

    /// A fresh supervisor, not yet connected; the first rotation is one
    /// interval away.
    pub fn new(now_ms: u64) -> (r: SessionSupervisor)
        requires
            now_ms as int + ROTATION_INTERVAL_MS as int <= u64::MAX as int,
        ensures
            r.wf(),
            r.state == ConnectionState::Disconnected,
            r.backoff_ms == BASE_BACKOFF_MS,
            r.disconnects@.len() == 0,
            r.rotation_deadline == now_ms + ROTATION_INTERVAL_MS,
            r.last_frame_ms == now_ms,
    {
        SessionSupervisor {
            state: ConnectionState::Disconnected,
            backoff_ms: BASE_BACKOFF_MS,
            disconnects: Vec::new(),
            rotation_deadline: now_ms + ROTATION_INTERVAL_MS,
            last_frame_ms: now_ms,
        }
    }

    /// Records a disconnection and drops timestamps that left the
    /// sliding window.
    pub fn record_disconnection(&mut self, now_ms: u64)
        ensures
            final(self).disconnects@ == kept_disconnects(
                old(self).disconnects@.push(now_ms),
                now_ms,
            ),
            final(self).state == old(self).state,
            final(self).backoff_ms == old(self).backoff_ms,
            final(self).rotation_deadline == old(self).rotation_deadline,
            final(self).last_frame_ms == old(self).last_frame_ms,
    {
        self.disconnects.push(now_ms);
        let n = self.disconnects.len();
        let mut kept: Vec<u64> = Vec::new();
        let mut i: usize = 0;
        proof {
            assert(self.disconnects@.take(0) =~= Seq::<u64>::empty());
        }
        while i < n
            invariant
                n == self.disconnects@.len(),
                i <= n,
                self.disconnects@ == old(self).disconnects@.push(now_ms),
                kept@ == kept_disconnects(self.disconnects@.take(i as int), now_ms),
            decreases n - i,
        {
            let t = self.disconnects[i];
            proof {
                lemma_kept_push(self.disconnects@.take(i as int), t, now_ms);
                assert(self.disconnects@.take(i as int + 1) =~= self.disconnects@.take(
                    i as int,
                ).push(t));
            }
            if now_ms < DISCONNECT_WINDOW_MS || t > now_ms - DISCONNECT_WINDOW_MS {
                kept.push(t);
            }
            i += 1;
        }
        proof {
            assert(self.disconnects@.take(n as int) =~= self.disconnects@);
        }
        self.disconnects = kept;
    }

    /// The breaker trips when the window still holds at least the limit.
    pub fn check_circuit_breaker(&self, now_ms: u64) -> (r: bool)
        ensures
            r == (kept_disconnects(self.disconnects@, now_ms).len() >= DISCONNECT_LIMIT as int),
    {
        let n = self.disconnects.len();
        let mut count: usize = 0;
        let mut i: usize = 0;
        proof {
            assert(self.disconnects@.take(0) =~= Seq::<u64>::empty());
        }
        while i < n
            invariant
                n == self.disconnects@.len(),
                i <= n,
                count <= i,
                count == kept_disconnects(self.disconnects@.take(i as int), now_ms).len(),
            decreases n - i,
        {
            let t = self.disconnects[i];
            proof {
                lemma_kept_push(self.disconnects@.take(i as int), t, now_ms);
                assert(self.disconnects@.take(i as int + 1) =~= self.disconnects@.take(
                    i as int,
                ).push(t));
            }
            if now_ms < DISCONNECT_WINDOW_MS || t > now_ms - DISCONNECT_WINDOW_MS {
                count += 1;
            }
            i += 1;
        }
        proof {
            assert(self.disconnects@.take(n as int) =~= self.disconnects@);
        }
        count >= DISCONNECT_LIMIT
    }

    /// The liveness watchdog: no frame for longer than the timeout.
    pub fn liveness_expired(&self, now_ms: u64) -> (r: bool)
        ensures
            r == (now_ms as int - self.last_frame_ms as int > LIVENESS_TIMEOUT_MS as int),
    {
        if now_ms >= self.last_frame_ms {
            now_ms - self.last_frame_ms > LIVENESS_TIMEOUT_MS
        } else {
            false
        }
    }

    /// Drives the session state machine by one observed event.
    ///
    /// Transitions follow the session table: connect on start and after
    /// backoff; reset the backoff on a successful handshake; on any loss
    /// (handshake error, close, liveness death) record the disconnection
    /// and either trip the breaker — an exact window-long wait, ring
    /// cleared — or wait the current backoff plus jitter and double the
    /// backoff; rotate a healthy session at its deadline; shutdown is
    /// terminal.
    pub fn step(&mut self, event: SessionEvent, now_ms: u64) -> (action: SessionAction)
        requires
            old(self).wf(),
            now_ms as int + ROTATION_INTERVAL_MS as int <= u64::MAX as int,
        ensures
            final(self).wf(),
            event == SessionEvent::ShutdownRequested ==> final(self).state
                == ConnectionState::Disconnected && action == SessionAction::CloseConnection,
            event == SessionEvent::StartTick && old(self).state == ConnectionState::Disconnected
                ==> final(self).state == ConnectionState::Connecting && action
                == SessionAction::Connect && final(self).backoff_ms == old(self).backoff_ms
                && final(self).disconnects@ == old(self).disconnects@
                && final(self).rotation_deadline == old(self).rotation_deadline,
            event == SessionEvent::BackoffElapsed && old(self).state
                == ConnectionState::Reconnecting ==> final(self).state
                == ConnectionState::Connecting && action == SessionAction::Connect,
            event == SessionEvent::HandshakeOk && old(self).state == ConnectionState::Connecting
                ==> final(self).state == ConnectionState::Connected && final(self).backoff_ms
                == BASE_BACKOFF_MS && final(self).last_frame_ms == now_ms && action
                == SessionAction::Idle,
            event == SessionEvent::FrameReceived && old(self).state == ConnectionState::Connected
                ==> final(self).state == ConnectionState::Connected && final(self).last_frame_ms
                == now_ms && action == SessionAction::Idle,
            event == SessionEvent::RotationDue && old(self).state == ConnectionState::Connected
                && now_ms >= old(self).rotation_deadline ==> rotated(
                *old(self),
                *final(self),
                now_ms,
            ) && action == SessionAction::CloseConnection,
            event == SessionEvent::RotationDue && old(self).state == ConnectionState::Connected
                && now_ms < old(self).rotation_deadline ==> *final(self) == *old(self) && action
                == SessionAction::Idle,
            (event == SessionEvent::HandshakeErr && old(self).state == ConnectionState::Connecting
                || event == SessionEvent::ConnectionClosed && (old(self).state
                == ConnectionState::Connected || old(self).state == ConnectionState::Rotating)
                || event == SessionEvent::LivenessExpired && old(self).state
                == ConnectionState::Connected) ==> {
                let ring = kept_disconnects(old(self).disconnects@.push(now_ms), now_ms);
                &&& final(self).state == ConnectionState::Reconnecting
                &&& (ring.len() >= DISCONNECT_LIMIT as int ==> action == (SessionAction::Wait {
                    ms: DISCONNECT_WINDOW_MS,
                }) && final(self).disconnects@.len() == 0 && final(self).backoff_ms == old(
                    self,
                ).backoff_ms)
                &&& (ring.len() < DISCONNECT_LIMIT as int ==> final(self).disconnects@ == ring
                    && final(self).backoff_ms == doubled_backoff(old(self).backoff_ms as int)
                    && jittered_wait(action, old(self).backoff_ms))
            },
    {
        match event {
            SessionEvent::ShutdownRequested => {
                self.state = ConnectionState::Disconnected;
                SessionAction::CloseConnection
            },
            SessionEvent::StartTick => {
                if self.state == ConnectionState::Disconnected {
                    self.state = ConnectionState::Connecting;
                    SessionAction::Connect
                } else {
                    SessionAction::Idle
                }
            },
            SessionEvent::BackoffElapsed => {
                if self.state == ConnectionState::Reconnecting {
                    self.state = ConnectionState::Connecting;
                    SessionAction::Connect
                } else {
                    SessionAction::Idle
                }
            },
            SessionEvent::HandshakeOk => {
                if self.state == ConnectionState::Connecting {
                    self.state = ConnectionState::Connected;
                    self.backoff_ms = BASE_BACKOFF_MS;
                    self.last_frame_ms = now_ms;
                    SessionAction::Idle
                } else {
                    SessionAction::Idle
                }
            },
            SessionEvent::FrameReceived => {
                if self.state == ConnectionState::Connected {
                    self.last_frame_ms = now_ms;
                }
                SessionAction::Idle
            },
            SessionEvent::RotationDue => {
                if self.state == ConnectionState::Connected && now_ms >= self.rotation_deadline {
                    self.state = ConnectionState::Rotating;
                    self.rotation_deadline = now_ms + ROTATION_INTERVAL_MS;
                    SessionAction::CloseConnection
                } else {
                    SessionAction::Idle
                }
            },
            SessionEvent::HandshakeErr | SessionEvent::ConnectionClosed
            | SessionEvent::LivenessExpired => {
                let relevant = match event {
                    SessionEvent::HandshakeErr => self.state == ConnectionState::Connecting,
                    SessionEvent::ConnectionClosed => self.state == ConnectionState::Connected
                        || self.state == ConnectionState::Rotating,
                    _ => self.state == ConnectionState::Connected,
                };
                if !relevant {
                    return SessionAction::Idle;
                }
                self.state = ConnectionState::Reconnecting;
                self.record_disconnection(now_ms);
                proof {
                    lemma_kept_within(old(self).disconnects@.push(now_ms), now_ms);
                    lemma_kept_all(self.disconnects@, now_ms);
                }
                if self.check_circuit_breaker(now_ms) {
                    self.disconnects.clear();
                    SessionAction::Wait { ms: DISCONNECT_WINDOW_MS }
                } else {
                    let jitter = gen_jitter();
                    let wait = self.backoff_ms + jitter;
                    let cur = self.backoff_ms;
                    self.backoff_ms = if cur > MAX_BACKOFF_MS / 2 {
                        MAX_BACKOFF_MS
                    } else {
                        cur * 2
                    };
                    SessionAction::Wait { ms: wait }
                }
            },
        }
    }
}

} // verus!
