//! Supervisor behaviour: backoff growth, circuit breaker, rotation,
//! liveness.

use arbmon::supervisor::{
    ConnectionState, SessionAction, SessionEvent, SessionSupervisor, BASE_BACKOFF_MS,
    DISCONNECT_WINDOW_MS, JITTER_BOUND_MS, LIVENESS_TIMEOUT_MS, MAX_BACKOFF_MS,
    ROTATION_INTERVAL_MS,
};

fn wait_ms(action: SessionAction) -> u64 {
    match action {
        SessionAction::Wait { ms } => ms,
        other => panic!("expected a wait, got {:?}", other),
    }
}

#[test]
fn backoff_doubles_up_to_the_cap_with_jitter() {
    let mut s = SessionSupervisor::new(0);
    assert_eq!(s.step(SessionEvent::StartTick, 0), SessionAction::Connect);
    let mut expected: u64 = BASE_BACKOFF_MS;
    let mut now: u64 = 0;
    for _ in 0..10 {
        // spaced widely so the circuit breaker never trips
        now += 400_000;
        let w = wait_ms(s.step(SessionEvent::HandshakeErr, now));
        assert!(
            expected <= w && w < expected + JITTER_BOUND_MS,
            "wait {} outside [{}, {})",
            w,
            expected,
            expected + JITTER_BOUND_MS
        );
        expected = (expected * 2).min(MAX_BACKOFF_MS);
        assert_eq!(s.step(SessionEvent::BackoffElapsed, now), SessionAction::Connect);
    }
    assert_eq!(expected, MAX_BACKOFF_MS, "ten failures reach the cap");
}

#[test]
fn successful_connect_resets_backoff() {
    let mut s = SessionSupervisor::new(0);
    s.step(SessionEvent::StartTick, 0);
    s.step(SessionEvent::HandshakeErr, 400_000);
    s.step(SessionEvent::BackoffElapsed, 400_001);
    s.step(SessionEvent::HandshakeOk, 400_002);
    assert_eq!(s.state, ConnectionState::Connected);
    assert_eq!(s.backoff_ms, BASE_BACKOFF_MS);
}

#[test]
fn circuit_breaker_waits_exactly_the_window() {
    let mut s = SessionSupervisor::new(0);
    s.step(SessionEvent::StartTick, 0);
    // nine quick failures under the limit keep the jittered backoff...
    for k in 0..9u64 {
        let a = s.step(SessionEvent::HandshakeErr, 1_000 + k);
        let w = wait_ms(a);
        assert_ne!(w, DISCONNECT_WINDOW_MS);
        s.step(SessionEvent::BackoffElapsed, 1_000 + k);
    }
    // ...the tenth within the window trips the breaker: an exact wait
    let a = s.step(SessionEvent::HandshakeErr, 1_009);
    assert_eq!(a, SessionAction::Wait { ms: DISCONNECT_WINDOW_MS });
    assert_eq!(s.disconnects.len(), 0, "the ring is cleared after the trip");
}

#[test]
fn old_disconnections_fall_out_of_the_window() {
    let mut s = SessionSupervisor::new(0);
    s.step(SessionEvent::StartTick, 0);
    // nine failures, then a long pause: the ring drains, no trip on the tenth
    for k in 0..9u64 {
        s.step(SessionEvent::HandshakeErr, 1_000 + k);
        s.step(SessionEvent::BackoffElapsed, 1_000 + k);
    }
    let a = s.step(SessionEvent::HandshakeErr, 1_009 + DISCONNECT_WINDOW_MS);
    let w = wait_ms(a);
    assert_ne!(w, DISCONNECT_WINDOW_MS, "stale entries must not trip the breaker");
    assert_eq!(s.disconnects.len(), 1);
}

#[test]
fn liveness_death_forces_reconnect() {
    let mut s = SessionSupervisor::new(0);
    s.step(SessionEvent::StartTick, 0);
    s.step(SessionEvent::HandshakeOk, 10);
    assert_eq!(s.state, ConnectionState::Connected);
    assert!(!s.liveness_expired(10 + LIVENESS_TIMEOUT_MS));
    assert!(s.liveness_expired(11 + LIVENESS_TIMEOUT_MS));
    let a = s.step(SessionEvent::LivenessExpired, 11 + LIVENESS_TIMEOUT_MS);
    assert_eq!(s.state, ConnectionState::Reconnecting);
    let w = wait_ms(a);
    assert!(w >= BASE_BACKOFF_MS, "a backoff wait is scheduled");
}

#[test]
fn frames_keep_the_session_alive() {
    let mut s = SessionSupervisor::new(0);
    s.step(SessionEvent::StartTick, 0);
    s.step(SessionEvent::HandshakeOk, 10);
    s.step(SessionEvent::FrameReceived, 50_000);
    assert!(!s.liveness_expired(50_000 + LIVENESS_TIMEOUT_MS));
}

#[test]
fn rotation_fires_once_per_interval() {
    let mut s = SessionSupervisor::new(0);
    s.step(SessionEvent::StartTick, 0);
    s.step(SessionEvent::HandshakeOk, 10);
    // before the deadline nothing happens
    assert_eq!(
        s.step(SessionEvent::RotationDue, ROTATION_INTERVAL_MS - 1),
        SessionAction::Idle
    );
    assert_eq!(s.state, ConnectionState::Connected);
    // at the deadline the session rotates and the next one is a full
    // interval away
    assert_eq!(
        s.step(SessionEvent::RotationDue, ROTATION_INTERVAL_MS),
        SessionAction::CloseConnection
    );
    assert_eq!(s.state, ConnectionState::Rotating);
    assert_eq!(s.rotation_deadline, 2 * ROTATION_INTERVAL_MS);
}

#[test]
fn shutdown_is_terminal() {
    let mut s = SessionSupervisor::new(0);
    s.step(SessionEvent::StartTick, 0);
    s.step(SessionEvent::HandshakeOk, 10);
    let a = s.step(SessionEvent::ShutdownRequested, 20);
    assert_eq!(a, SessionAction::CloseConnection);
    assert_eq!(s.state, ConnectionState::Disconnected);
}
