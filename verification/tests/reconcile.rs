use gridworld::message::{Message, PlayerState};
use gridworld::reconcile::{Client, get_system_time, random_rotation, random_speed};

fn st(x: i32, y: i32) -> PlayerState {
    PlayerState { x, y, speed: 2, heading: 90 }
}

#[test]
fn matching_ack_retires_exactly_one_prediction() {
    // Reconciliation: an authoritative value equal to the oldest pending
    // entry leaves the client state unchanged and shrinks the log by one.
    let mut c = Client::new(3);
    c.current_state = st(10, 10);
    c.handle_tick();
    c.handle_tick();
    assert_eq!(c.pending_states.len(), 2);
    assert_eq!(c.pending_states[0], st(10, 10));
    let local = c.current_state;
    c.handle_sc_player_move_notify(3, st(10, 10));
    assert_eq!(c.current_state, local);
    assert_eq!(c.pending_states.len(), 1);
    assert_eq!(c.pending_states[0], st(12, 12));
}

#[test]
fn mismatch_rolls_back_and_clears_the_log() {
    // Reconciliation: a differing authoritative value becomes the client
    // state and the whole pending log is invalidated.
    let mut c = Client::new(3);
    c.current_state = st(10, 10);
    c.handle_tick();
    c.handle_tick();
    c.handle_tick();
    let authoritative = st(0, 999);
    c.handle_sc_player_move_notify(3, authoritative);
    assert_eq!(c.current_state, authoritative);
    assert!(c.pending_states.is_empty());
}

#[test]
fn empty_log_accepts_unconditionally() {
    let mut c = Client::new(3);
    c.current_state = st(1, 1);
    let authoritative = st(50, 60);
    c.handle_sc_player_move_notify(3, authoritative);
    assert_eq!(c.current_state, authoritative);
}

#[test]
fn other_players_updates_are_ignored_by_reconciliation() {
    let mut c = Client::new(3);
    c.current_state = st(10, 10);
    c.handle_tick();
    c.handle_sc_player_move_notify(4, st(0, 0));
    assert_eq!(c.current_state, st(12, 12));
    assert_eq!(c.pending_states.len(), 1);
}

#[test]
fn tick_sends_logs_and_advances() {
    let mut c = Client::new(8);
    c.current_state = st(100, 200);
    let intent = c.handle_tick();
    assert_eq!(intent, Message::MoveIntent { state: st(100, 200) });
    assert_eq!(c.pending_states.len(), 1);
    assert_eq!(c.pending_states[0], st(100, 200));
    // dead reckoning advanced both axes by the per-tick speed
    assert_eq!(c.current_state, st(102, 202));
}

#[test]
fn move_player_applies_the_speed() {
    let mut c = Client::new(1);
    c.current_state = PlayerState { x: -4, y: 7, speed: -3, heading: 0 };
    c.move_player();
    assert_eq!(c.current_state, PlayerState { x: -7, y: 4, speed: -3, heading: 0 });
}

#[test]
fn random_draws_stay_in_range() {
    for _ in 0..50 {
        let s = random_speed();
        assert!((-10..=10).contains(&s));
        let h = random_rotation();
        assert!((0..360).contains(&h));
    }
    // the clock reads as a positive millisecond count on a sane system
    assert!(get_system_time() > 0);
}
