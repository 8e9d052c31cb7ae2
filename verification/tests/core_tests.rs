use balancebeam::health::HealthTable;
use balancebeam::limiter::RateLimiter;
use balancebeam::probe::{apply_probe_round, probe_verdict};
use balancebeam::select::{mark_failed_and_reselect, select_upstream, FailoverBudget, SelectError};
use balancebeam::session::{
    extend_forwarded_for, session_step, RequestError, SessionAction, SessionEvent, SessionState,
    STATUS_BAD_GATEWAY, STATUS_BAD_REQUEST, STATUS_PAYLOAD_TOO_LARGE, STATUS_TOO_MANY_REQUESTS,
};
use balancebeam::shared::{SharedHealthTable, SharedRateLimiter};

fn count_down(t: &HealthTable) -> usize {
    let mut n = 0;
    for i in 0..t.len() {
        if t.is_down(i) {
            n += 1;
        }
    }
    n
}

#[test]
fn health_invariant_under_interleavings() {
    // a fixed pseudo-random interleaving of mark_up/mark_down calls,
    // duplicates included; the alive count must track the flags after
    // every step
    let n = 5;
    let mut t = HealthTable::new(n);
    assert_eq!(t.alive_count(), n);
    let mut state: u64 = 0x2545_f491_4f6c_dd1d;
    for _ in 0..500 {
        state = state.wrapping_mul(6364136223846793005).wrapping_add(1442695040888963407);
        let i = (state >> 33) as usize % n;
        if (state >> 7) & 1 == 0 {
            t.mark_down(i);
        } else {
            t.mark_up(i);
        }
        assert_eq!(t.alive_count(), n - count_down(&t));
        let (alive, down) = t.snapshot();
        assert_eq!(alive, n - down.iter().filter(|d| **d).count());
    }
}

#[test]
fn mark_down_is_idempotent() {
    let mut t = HealthTable::new(3);
    t.mark_down(1);
    assert_eq!(t.alive_count(), 2);
    t.mark_down(1);
    assert_eq!(t.alive_count(), 2);
    t.mark_up(1);
    assert_eq!(t.alive_count(), 3);
    t.mark_up(1);
    assert_eq!(t.alive_count(), 3);
}

#[test]
fn any_alive_tracks_flags() {
    let mut t = HealthTable::new(2);
    assert!(t.any_alive());
    t.mark_down(0);
    assert!(t.any_alive());
    t.mark_down(1);
    assert!(!t.any_alive());
    t.mark_up(0);
    assert!(t.any_alive());
}

#[test]
fn all_down_selection_fails_without_connecting() {
    let mut t = HealthTable::new(3);
    for i in 0..3 {
        t.mark_down(i);
    }
    let mut connect_attempts = 0;
    match select_upstream(&t) {
        Ok(_) => {
            // a connection would only be attempted with a candidate in hand
            connect_attempts += 1;
        }
        Err(e) => assert_eq!(e, SelectError::AllUpstreamsDown),
    }
    assert_eq!(connect_attempts, 0);
}

#[test]
fn selection_returns_only_alive_upstreams() {
    let mut t = HealthTable::new(3);
    t.mark_down(0);
    t.mark_down(1);
    for _ in 0..50 {
        assert_eq!(select_upstream(&t).unwrap(), 2);
    }
}

#[test]
fn refused_upstream_is_marked_down_and_never_returned() {
    // upstream 1 refuses connections; all others accept
    let refusing = 1usize;
    let mut t = HealthTable::new(3);
    let mut selections = Vec::new();
    for _ in 0..50 {
        let mut candidate = select_upstream(&t).unwrap();
        // simulate the connect attempt: refused for `refusing`, accepted
        // otherwise, with failover on refusal
        while candidate == refusing {
            candidate = mark_failed_and_reselect(&mut t, candidate).unwrap();
        }
        selections.push(candidate);
    }
    // after its first attempted use, the refusing upstream stays down
    t.mark_down(refusing);
    assert!(t.is_down(refusing));
    for _ in 0..50 {
        let c = select_upstream(&t).unwrap();
        assert_ne!(c, refusing);
    }
    for s in selections {
        assert_ne!(s, refusing);
    }
}

#[test]
fn failover_budget_bounds_attempts() {
    let mut t = HealthTable::new(4);
    t.mark_down(3);
    let mut budget = FailoverBudget::new(&t);
    let mut spent = 0;
    while budget.try_spend() {
        spent += 1;
    }
    assert_eq!(spent, 3);
    assert!(!budget.try_spend());
}

#[test]
fn rate_limiter_rejects_fourth_connection() {
    let ip = 0x7f000001u128;
    let mut limiter = RateLimiter::new(3);
    assert!(limiter.allow(ip));
    assert!(limiter.allow(ip));
    assert!(limiter.allow(ip));
    // the 4th connection in the window is rejected (answered with a
    // too-many-requests terminal response by the caller)
    assert!(!limiter.allow(ip));
    assert_eq!(STATUS_TOO_MANY_REQUESTS, 429);
    // another client is unaffected
    assert!(limiter.allow(0x7f000002u128));
    // after the window reset the same client is accepted again
    limiter.reset();
    assert!(limiter.allow(ip));
}

#[test]
fn rate_limiter_disabled_admits_everything() {
    let mut limiter = RateLimiter::new(0);
    for _ in 0..100 {
        assert!(limiter.allow(42));
    }
}

#[test]
fn probe_transitions_follow_status_sequence() {
    // one upstream answering 200, then 500, then 200 across three rounds:
    // its flag goes up, down, up, and the alive count tracks each
    // transition exactly once
    let mut t = HealthTable::new(1);
    let rounds = [Some(200u16), Some(500u16), Some(200u16)];
    let mut flags = Vec::new();
    for status in rounds {
        let healthy = vec![probe_verdict(status)];
        apply_probe_round(&mut t, &healthy);
        flags.push(t.is_down(0));
        assert_eq!(t.alive_count(), if t.is_down(0) { 0 } else { 1 });
    }
    assert_eq!(flags, vec![false, true, false]);
}

#[test]
fn probe_verdict_needs_exactly_200() {
    assert!(probe_verdict(Some(200)));
    assert!(!probe_verdict(Some(301)));
    assert!(!probe_verdict(Some(500)));
    assert!(!probe_verdict(None));
}

#[test]
fn session_happy_path_keeps_connection_alive() {
    let s0 = SessionState::AwaitingRequest;
    let (s1, a1) = session_step(s0, SessionEvent::RequestRead);
    assert_eq!(s1, SessionState::Forwarding);
    assert_eq!(a1, SessionAction::Proceed);
    let (s2, a2) = session_step(s1, SessionEvent::ForwardOk);
    assert_eq!(s2, SessionState::AwaitingResponse);
    assert_eq!(a2, SessionAction::Proceed);
    let (s3, a3) = session_step(s2, SessionEvent::ResponseRead);
    assert_eq!(s3, SessionState::Relaying);
    assert_eq!(a3, SessionAction::Proceed);
    let (s4, a4) = session_step(s3, SessionEvent::RelayDone);
    assert_eq!(s4, SessionState::AwaitingRequest);
    assert_eq!(a4, SessionAction::Proceed);
}

#[test]
fn session_error_translation() {
    let s = SessionState::AwaitingRequest;
    // clean end of stream between requests: close without a response
    let (s1, a1) = session_step(s, SessionEvent::RequestFailed(RequestError::IncompleteRequest(0)));
    assert_eq!(s1, SessionState::Closed);
    assert_eq!(a1, SessionAction::CloseSilently);
    // transport error on the client socket: close without a response
    let (s2, a2) = session_step(s, SessionEvent::RequestFailed(RequestError::ConnectionError));
    assert_eq!(s2, SessionState::Closed);
    assert_eq!(a2, SessionAction::CloseSilently);
    // protocol errors: terminal response, connection stays open
    let (s3, a3) = session_step(s, SessionEvent::RequestFailed(RequestError::MalformedRequest));
    assert_eq!(s3, SessionState::AwaitingRequest);
    assert_eq!(a3, SessionAction::SendError(STATUS_BAD_REQUEST));
    let (s4, a4) =
        session_step(s, SessionEvent::RequestFailed(RequestError::IncompleteRequest(7)));
    assert_eq!(s4, SessionState::AwaitingRequest);
    assert_eq!(a4, SessionAction::SendError(STATUS_BAD_REQUEST));
    let (s5, a5) =
        session_step(s, SessionEvent::RequestFailed(RequestError::ContentLengthMismatch));
    assert_eq!(s5, SessionState::AwaitingRequest);
    assert_eq!(a5, SessionAction::SendError(STATUS_BAD_REQUEST));
    let (s6, a6) =
        session_step(s, SessionEvent::RequestFailed(RequestError::RequestBodyTooLarge));
    assert_eq!(s6, SessionState::AwaitingRequest);
    assert_eq!(a6, SessionAction::SendError(STATUS_PAYLOAD_TOO_LARGE));
    // failures on the upstream leg end the session with a gateway error
    let (s7, a7) = session_step(SessionState::Forwarding, SessionEvent::ForwardFailed);
    assert_eq!(s7, SessionState::Closed);
    assert_eq!(a7, SessionAction::SendErrorAndClose(STATUS_BAD_GATEWAY));
    let (s8, a8) = session_step(SessionState::AwaitingResponse, SessionEvent::ResponseFailed);
    assert_eq!(s8, SessionState::Closed);
    assert_eq!(a8, SessionAction::SendErrorAndClose(STATUS_BAD_GATEWAY));
}

#[test]
fn extend_forwarded_for_appends_client_ip() {
    let ip = b"10.0.0.9".to_vec();
    assert_eq!(extend_forwarded_for(None, &ip), b"10.0.0.9".to_vec());
    let existing = b"1.2.3.4".to_vec();
    assert_eq!(
        extend_forwarded_for(Some(&existing), &ip),
        b"1.2.3.4, 10.0.0.9".to_vec()
    );
}

#[test]
fn end_to_end_simulation_fails_over_once_then_uses_healthy_upstream() {
    // two upstreams: 0 always echoes the request, 1 is unreachable from
    // startup; the first attempted use of 1 fails, it is marked down, and
    // all 50 requests succeed against 0
    let unreachable = 1usize;
    let mut t = HealthTable::new(2);
    let mut answered = 0;
    let mut first_failure_seen = false;
    for _ in 0..50 {
        let mut candidate = select_upstream(&t).unwrap();
        if candidate == unreachable {
            candidate = mark_failed_and_reselect(&mut t, unreachable).unwrap();
            first_failure_seen = true;
        } else if !first_failure_seen {
            // the selector happened to pick the healthy upstream first;
            // model the unreachable one failing its first attempted use
            let c = mark_failed_and_reselect(&mut t, unreachable).unwrap();
            assert_eq!(c, 0);
            first_failure_seen = true;
        }
        assert_eq!(candidate, 0);
        assert!(t.is_down(unreachable));
        // the exchange over the chosen connection: request in, echo out
        let (s1, _) = session_step(SessionState::AwaitingRequest, SessionEvent::RequestRead);
        let (s2, _) = session_step(s1, SessionEvent::ForwardOk);
        let (s3, _) = session_step(s2, SessionEvent::ResponseRead);
        let (s4, a) = session_step(s3, SessionEvent::RelayDone);
        assert_eq!(s4, SessionState::AwaitingRequest);
        assert_eq!(a, SessionAction::Proceed);
        answered += 1;
    }
    assert_eq!(answered, 50);
    assert!(t.is_down(unreachable));
    assert!(!t.is_down(0));
}

#[test]
fn shared_tables_preserve_invariants() {
    let shared = SharedHealthTable::new(4);
    assert_eq!(shared.upstream_count(), 4);
    shared.mark_down(2);
    shared.mark_down(2);
    let (alive, down) = shared.snapshot();
    assert_eq!(alive, 4 - down.iter().filter(|d| **d).count());
    assert_eq!(alive, 3);
    assert!(shared.any_alive());
    shared.mark_up(2);
    assert_eq!(shared.alive_count(), 4);
    // a refused connect marks the upstream down and re-derives a candidate
    let next = shared.mark_failed_and_reselect(1).unwrap();
    assert_ne!(next, 1);
    assert_eq!(shared.alive_count(), 3);
    let mut budget = shared.failover_budget();
    let mut spent = 0;
    while budget.try_spend() {
        spent += 1;
    }
    assert_eq!(spent, 3);

    let limiter = SharedRateLimiter::new(2);
    let ip = 9u128;
    assert!(limiter.allow(ip));
    assert!(limiter.allow(ip));
    assert!(!limiter.allow(ip));
    limiter.reset();
    assert!(limiter.allow(ip));
}
