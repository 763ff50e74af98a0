use gridworld::message::{EventMessage, KickOutReason, Message, PlayerMessage, PlayerMessageWrap,
    PlayerState, ReceiveTimeoutEvent};
use gridworld::session::{Player, SessionAction, SessionState, handle_event, handle_move_req,
    handle_world_kick_out, random_color};

#[test]
fn login_while_connected_activates_and_replies() {
    let mut p = Player::new();
    assert_eq!(p.session_state, SessionState::Connected);
    let actions = p.handle_req(&Message::LoginRequest { player_id: 12 });
    assert_eq!(p.player_id, 12);
    assert_eq!(p.session_state, SessionState::Active);
    assert_eq!(actions.len(), 2);
    assert!(matches!(actions[0], SessionAction::Register { player_id: 12, .. }));
    assert!(matches!(actions[1], SessionAction::Reply { player_id: 12, .. }));
}

#[test]
fn second_login_on_one_connection_is_discarded() {
    let mut p = Player::new();
    p.handle_req(&Message::LoginRequest { player_id: 12 });
    let actions = p.handle_req(&Message::LoginRequest { player_id: 13 });
    assert!(actions.is_empty());
    assert_eq!(p.player_id, 12);
}

#[test]
fn move_intents_are_forwarded_only_while_active() {
    let mut p = Player::new();
    let state = PlayerState { x: 3, y: 4, speed: 1, heading: 0 };
    assert!(p.handle_req(&Message::MoveIntent { state }).is_empty());
    p.handle_req(&Message::LoginRequest { player_id: 12 });
    let actions = handle_move_req(&mut p, state);
    assert_eq!(actions.len(), 1);
    assert!(matches!(actions[0], SessionAction::ForwardMove { player_id: 12, .. }));
}

#[test]
fn kick_signal_stops_the_tasks() {
    let mut p = Player::new();
    p.handle_req(&Message::LoginRequest { player_id: 12 });
    let wrap = PlayerMessageWrap::new(
        0,
        PlayerMessage::KickOut(KickOutReason::MultiLogin("other login".to_string())),
    );
    let actions = p.handle_player_msg(&wrap);
    assert_eq!(actions, vec![SessionAction::StopTasks]);
    assert!(p.stopped);
    assert_eq!(p.session_state, SessionState::Closing);
    p.close();
    assert_eq!(p.session_state, SessionState::Closed);
}

#[test]
fn timeout_fires_like_end_of_stream() {
    let mut p = Player::new();
    p.handle_req(&Message::LoginRequest { player_id: 12 });
    let actions = handle_event(&mut p, EventMessage(ReceiveTimeoutEvent));
    assert_eq!(
        actions,
        vec![SessionAction::NotifyLogout { player_id: 12 }, SessionAction::StopTasks]
    );
    assert_eq!(p.session_state, SessionState::Closing);
}

#[test]
fn transport_loss_notifies_the_world() {
    let mut p = Player::new();
    p.handle_req(&Message::LoginRequest { player_id: 12 });
    let actions = p.handle_transport_closed();
    assert_eq!(
        actions,
        vec![SessionAction::NotifyLogout { player_id: 12 }, SessionAction::StopTasks]
    );
    assert!(p.stopped);
}

#[test]
fn kick_helper_mirrors_the_signal() {
    let mut p = Player::new();
    let actions = handle_world_kick_out(&mut p, 0);
    assert_eq!(actions, vec![SessionAction::StopTasks]);
}

#[test]
fn unexpected_inbound_kinds_are_discarded() {
    let mut p = Player::new();
    p.handle_req(&Message::LoginRequest { player_id: 12 });
    let actions = p.handle_req(&Message::PlayerLeave { player_id: 1 });
    assert!(actions.is_empty());
    assert_eq!(p.session_state, SessionState::Active);
}

#[test]
fn random_color_is_some_color() {
    let c = random_color();
    // a byte each way; nothing more is promised of a random draw
    let _ = (c.r, c.g, c.b);
}
