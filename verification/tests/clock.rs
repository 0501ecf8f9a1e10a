//! Tests for the virtual clock provider: scheduling, cancellation by
//! variant, timeout computation and the earliest-first ordering of expiry.

use multifaustus::nodes::clock::{ClockAction, ClockProvider, MockClock};
use multifaustus::types::{BallotNumber, LeaderId};

#[test]
fn test_mock_clock_basic_functionality() {
    let mut mock_clock = MockClock::new();

    let _start_time = mock_clock.now();

    // Schedule an action 100 ms out.
    let action = ClockAction::LeaderHeartbeat;
    mock_clock.schedule(action.clone(), 100);

    // Should have no expired timers yet.
    assert!(mock_clock.check_timers().is_empty());

    // Advance time, still short of the deadline.
    mock_clock.advance(50);
    assert!(mock_clock.check_timers().is_empty());

    // Advance past the scheduled time.
    mock_clock.advance(60);
    let expired = mock_clock.check_timers();
    assert_eq!(expired.len(), 1);
    assert!(matches!(expired[0], ClockAction::LeaderHeartbeat));
}

#[test]
fn test_clock_scheduling_and_cancellation() {
    let mut mock_clock = MockClock::new();

    // Schedule multiple actions.
    mock_clock.schedule(ClockAction::LeaderHeartbeat, 100);
    mock_clock.schedule(
        ClockAction::SendScout { ballot: BallotNumber::new(LeaderId::new(1)) },
        200,
    );
    mock_clock.schedule(ClockAction::ReproposePendingRequests, 150);

    // Cancel the heartbeat timers.
    mock_clock.cancel(&ClockAction::LeaderHeartbeat);

    // Advance time past all scheduled events.
    mock_clock.advance(300);

    let expired = mock_clock.check_timers();
    assert_eq!(expired.len(), 2);

    assert!(expired.iter().any(|a| matches!(a, ClockAction::SendScout { .. })));
    assert!(expired.iter().any(|a| matches!(a, ClockAction::ReproposePendingRequests)));
    assert!(!expired.iter().any(|a| matches!(a, ClockAction::LeaderHeartbeat)));
}

#[test]
fn test_next_timeout_calculation() {
    let mut mock_clock = MockClock::new();

    // No timers scheduled.
    assert!(mock_clock.next_timeout().is_none());

    // Schedule a timer 100 ms out.
    mock_clock.schedule(ClockAction::LeaderHeartbeat, 100);
    let timeout = mock_clock.next_timeout().unwrap();
    assert!(timeout <= 100);
    assert!(timeout > 90);

    // Advance time; 50 ms remain.
    mock_clock.advance(50);
    let timeout = mock_clock.next_timeout().unwrap();
    assert!(timeout <= 50);
    assert!(timeout > 40);
}

#[test]
fn test_timer_ordering() {
    let mut mock_clock = MockClock::new();

    // Schedule actions in reverse time order.
    mock_clock.schedule(ClockAction::Custom("third".to_string()), 300);
    mock_clock.schedule(ClockAction::Custom("first".to_string()), 100);
    mock_clock.schedule(ClockAction::Custom("second".to_string()), 200);

    // Advance to the first timer.
    mock_clock.advance(150);
    let expired = mock_clock.check_timers();
    assert_eq!(expired.len(), 1);
    assert!(matches!(expired[0], ClockAction::Custom(ref s) if s == "first"));

    // Advance to the second timer.
    mock_clock.advance(60);
    let expired = mock_clock.check_timers();
    assert_eq!(expired.len(), 1);
    assert!(matches!(expired[0], ClockAction::Custom(ref s) if s == "second"));

    // Advance to the third timer.
    mock_clock.advance(110);
    let expired = mock_clock.check_timers();
    assert_eq!(expired.len(), 1);
    assert!(matches!(expired[0], ClockAction::Custom(ref s) if s == "third"));
}

#[test]
fn pending_timers_are_sorted_and_cancellation_matches_custom_tags_exactly() {
    let mut mock_clock = MockClock::new();
    mock_clock.schedule(ClockAction::Custom("b".to_string()), 20);
    mock_clock.schedule(ClockAction::Custom("a".to_string()), 10);
    mock_clock.schedule(ClockAction::Custom("c".to_string()), 30);

    let pending = mock_clock.pending_timers();
    assert_eq!(pending.len(), 3);
    assert!(pending[0].when <= pending[1].when && pending[1].when <= pending[2].when);

    // Cancelling one tag leaves the other custom actions alone.
    mock_clock.cancel(&ClockAction::Custom("b".to_string()));
    assert_eq!(mock_clock.pending_timers().len(), 2);

    // Advancing to the far future fires the remaining two in order.
    mock_clock.advance(1000);
    let expired = mock_clock.check_timers();
    assert_eq!(expired.len(), 2);
    assert!(matches!(expired[0], ClockAction::Custom(ref s) if s == "a"));
    assert!(matches!(expired[1], ClockAction::Custom(ref s) if s == "c"));
}

#[test]
fn set_time_and_schedule_at_fire_on_absolute_deadlines() {
    let mut mock_clock = MockClock::new();
    mock_clock.schedule_at(ClockAction::AcceptorHeartbeat, 500);
    mock_clock.set_time(499);
    assert!(mock_clock.check_timers().is_empty());
    mock_clock.set_time(500);
    let expired = mock_clock.check_timers();
    assert_eq!(expired.len(), 1);
    assert!(matches!(expired[0], ClockAction::AcceptorHeartbeat));
}
