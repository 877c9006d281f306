use load_balancer::pool::Backend;
use load_balancer::session::{begin_session, on_connect_result, on_relays_done, SessionPhase};

#[test]
fn assignment_raises_both_counters_and_hands_out_the_new_total() {
    let mut b = Backend::new("a:1".to_string());
    let s = begin_session(&mut b);
    assert_eq!(b.active_connections, 1);
    assert_eq!(b.total_handled, 1);
    assert_eq!(s.connection_id, 1);
    assert_eq!(s.phase, SessionPhase::Assigned);
    assert_eq!(s.releases, 0);
}

#[test]
fn connection_ids_are_unique_and_increasing_per_backend() {
    let mut b = Backend::new("a:1".to_string());
    let s1 = begin_session(&mut b);
    let s2 = begin_session(&mut b);
    let s3 = begin_session(&mut b);
    assert_eq!(s1.connection_id, 1);
    assert_eq!(s2.connection_id, 2);
    assert_eq!(s3.connection_id, 3);
    assert_eq!(b.active_connections, 3);
    assert_eq!(b.total_handled, 3);
}

#[test]
fn failed_connect_releases_the_assignment_and_never_relays() {
    let mut b = Backend::new("unreachable:1".to_string());
    let before = b.active_connections;
    let mut s = begin_session(&mut b);
    assert_eq!(b.active_connections, before + 1);
    on_connect_result(&mut s, &mut b, false);
    assert_eq!(s.phase, SessionPhase::Closed);
    assert_eq!(s.releases, 1);
    assert_eq!(b.active_connections, before);
    assert_eq!(b.total_handled, 1);
}

#[test]
fn successful_session_releases_exactly_once_when_both_relays_end() {
    let mut b = Backend::new("a:1".to_string());
    let mut s = begin_session(&mut b);
    on_connect_result(&mut s, &mut b, true);
    assert_eq!(s.phase, SessionPhase::Relaying);
    assert_eq!(s.releases, 0);
    assert_eq!(b.active_connections, 1);
    on_relays_done(&mut s, &mut b);
    assert_eq!(s.phase, SessionPhase::Closed);
    assert_eq!(s.releases, 1);
    assert_eq!(b.active_connections, 0);
    assert_eq!(b.total_handled, 1);
}

#[test]
fn release_on_an_idle_backend_reports_the_error_and_floors_at_zero() {
    let mut b = Backend::new("a:1".to_string());
    let underflow = b.decrement_on_release();
    assert!(underflow);
    assert_eq!(b.active_connections, 0);
}

#[test]
fn release_after_assignment_restores_the_active_count() {
    let mut b = Backend::new("a:1".to_string());
    let _ = b.increment_on_assign();
    let id = b.increment_on_assign();
    assert_eq!(id, 2);
    let underflow = b.decrement_on_release();
    assert!(!underflow);
    assert_eq!(b.active_connections, 1);
    assert_eq!(b.total_handled, 2);
}
