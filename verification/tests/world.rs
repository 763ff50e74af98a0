use gridworld::cell::{CellId, WorldConfig, calculate_grid_id, is_player_grid_change, aoi_rect};
use gridworld::message::{Color, PlayerState, State, Message, PlayerLoginData, PlayerSender,
    PlayerMessage, PlayerMessageWrap, WorldMessage, WorldMessageWrap};
use gridworld::world::{World, WorldError};
use tokio::sync::mpsc::{UnboundedReceiver, unbounded_channel};

struct TestSession {
    player_rx: UnboundedReceiver<PlayerMessageWrap>,
    proto_rx: UnboundedReceiver<Message>,
}

fn new_handle() -> (PlayerSender, TestSession) {
    let (player_tx, player_rx) = unbounded_channel();
    let (proto_tx, proto_rx) = unbounded_channel();
    (PlayerSender { player: player_tx, proto: proto_tx }, TestSession { player_rx, proto_rx })
}

fn state_at(x: i32, y: i32) -> State {
    State {
        player_state: PlayerState { x, y, speed: 0, heading: 0 },
        color: Color { r: 1, g: 2, b: 3 },
    }
}

fn scenario_config() -> WorldConfig {
    // cell size 20, world bound 200 cells each way, AOI radius 1
    WorldConfig::new(20, 200, 200, 1, 1)
}

fn drain_proto(s: &mut TestSession) -> Vec<Message> {
    let mut out = vec![];
    while let Ok(m) = s.proto_rx.try_recv() {
        out.push(m);
    }
    out
}

#[test]
fn login_lands_in_the_derived_cell() {
    // Scenario: cell size 20; a login at (0,0) sits in cell (0,0), and its
    // AOI view of radius 1 covers cells (-1..1, -1..1) clipped to the bounds.
    let mut w = World::new(scenario_config());
    let (handle, mut session) = new_handle();
    let out = w.add_player(7, PlayerLoginData { sender: handle, state: state_at(0, 0) });
    assert!(out.evicted.kicked.is_none());
    assert_eq!(calculate_grid_id(0, 0, 20), (0, 0));
    let view = w.get_player_aoi_view(7);
    assert_eq!((view.min_x, view.max_x, view.min_y, view.max_y), (0, 1, 0, 1));
    assert!(view.contains(CellId { x: 0, y: 0 }));
    assert!(view.contains(CellId { x: 1, y: 1 }));
    assert!(!view.contains(CellId { x: 2, y: 0 }));
    // the joiner hears its own enter; nobody else is visible yet
    assert_eq!(out.enters.len(), 1);
    assert_eq!(out.enters[0].to, 7);
    assert!(out.enters[0].ok);
    assert!(out.presence.is_empty());
    let received = drain_proto(&mut session);
    assert!(matches!(received[0], Message::PlayerEnter { player_id: 7, .. }));
    assert!(matches!(&received[1], Message::BulkPresenceSnapshot { players } if players.is_empty()));
}

#[test]
fn distant_players_exchange_nothing() {
    // Scenario: cell size 20, radius 1; A at (5,5), B logs in at (5,100):
    // cells (0,0) and (0,5) are outside each other's view, so no PlayerEnter
    // travels between them.
    let mut w = World::new(scenario_config());
    let (ha, mut sa) = new_handle();
    let (hb, mut sb) = new_handle();
    w.add_player(1, PlayerLoginData { sender: ha, state: state_at(5, 5) });
    drain_proto(&mut sa);
    let out = w.add_player(2, PlayerLoginData { sender: hb, state: state_at(5, 100) });
    assert_eq!(calculate_grid_id(5, 100, 20), (0, 5));
    assert_eq!(out.enters.len(), 1);
    assert_eq!(out.enters[0].to, 2);
    assert!(out.presence.is_empty());
    assert!(drain_proto(&mut sa).is_empty());
    let b_got = drain_proto(&mut sb);
    assert!(matches!(b_got[0], Message::PlayerEnter { player_id: 2, .. }));
}

#[test]
fn nearby_player_appears_in_the_snapshot() {
    let mut w = World::new(scenario_config());
    let (ha, mut sa) = new_handle();
    let (hb, mut sb) = new_handle();
    w.add_player(1, PlayerLoginData { sender: ha, state: state_at(5, 5) });
    drain_proto(&mut sa);
    let out = w.add_player(2, PlayerLoginData { sender: hb, state: state_at(25, 5) });
    // cells (0,0) and (1,0) see each other at radius 1
    let mut enter_targets: Vec<i32> = out.enters.iter().map(|d| d.to).collect();
    enter_targets.sort();
    assert_eq!(enter_targets, vec![1, 2]);
    assert_eq!(out.presence.len(), 1);
    assert_eq!(out.presence[0].player_id, 1);
    assert_eq!(out.presence[0].state, state_at(5, 5).player_state);
    let a_got = drain_proto(&mut sa);
    assert!(matches!(a_got[0], Message::PlayerEnter { player_id: 2, .. }));
    let b_got = drain_proto(&mut sb);
    assert!(matches!(&b_got[1], Message::BulkPresenceSnapshot { players } if players.len() == 1));
}

#[test]
fn cell_change_emits_the_exact_leave_enter_pair() {
    // Scenario: cell size 20; A moves from (5,5) to (25,5), cell (0,0) to
    // (1,0). The cells that fall out of the AOI rectangle get PlayerLeave,
    // the ones that come into it get PlayerEnter, and the post-move view
    // gets PlayerMove.
    let mut w = World::new(scenario_config());
    let (ha, mut sa) = new_handle();
    let (hb, mut sb) = new_handle();
    let (hc, mut sc) = new_handle();
    w.add_player(1, PlayerLoginData { sender: ha, state: state_at(5, 5) });
    // B sits in cell (2,0): outside A's view before the move, inside after
    w.add_player(2, PlayerLoginData { sender: hb, state: state_at(45, 5) });
    // C sits in cell (3,0): outside A's view before and after
    w.add_player(3, PlayerLoginData { sender: hc, state: state_at(65, 5) });
    drain_proto(&mut sa);
    drain_proto(&mut sb);
    drain_proto(&mut sc);
    assert!(is_player_grid_change((5, 5), (25, 5), 20));
    let out = w
        .move_player(1, PlayerState { x: 25, y: 5, speed: 0, heading: 0 })
        .expect("registered");
    // old view 0..1 x 0..1, new view 0..2 x 0..1: nothing left, B entered
    assert!(out.leaves.is_empty());
    let enter_targets: Vec<i32> = out.enters.iter().map(|d| d.to).collect();
    assert_eq!(enter_targets, vec![2]);
    let mut move_targets: Vec<i32> = out.moves.iter().map(|d| d.to).collect();
    move_targets.sort();
    assert_eq!(move_targets, vec![1, 2]);
    let b_got = drain_proto(&mut sb);
    assert!(matches!(b_got[0], Message::PlayerEnter { player_id: 1, .. }));
    assert!(matches!(b_got[1], Message::PlayerMove { player_id: 1, .. }));
    assert!(drain_proto(&mut sc).is_empty());

    // moving back makes cell (2,0) fall out again: B now gets the leave
    let out_back = w
        .move_player(1, PlayerState { x: 5, y: 5, speed: 0, heading: 0 })
        .expect("registered");
    let leave_targets: Vec<i32> = out_back.leaves.iter().map(|d| d.to).collect();
    assert_eq!(leave_targets, vec![2]);
    assert!(out_back.enters.is_empty());
    let b_got = drain_proto(&mut sb);
    assert!(matches!(b_got[0], Message::PlayerLeave { player_id: 1 }));
}

#[test]
fn same_cell_move_updates_without_enter_or_leave() {
    let mut w = World::new(scenario_config());
    let (ha, mut sa) = new_handle();
    w.add_player(1, PlayerLoginData { sender: ha, state: state_at(5, 5) });
    drain_proto(&mut sa);
    assert!(!is_player_grid_change((5, 5), (6, 9), 20));
    let out = w
        .move_player(1, PlayerState { x: 6, y: 9, speed: 0, heading: 0 })
        .expect("registered");
    assert!(out.leaves.is_empty());
    assert!(out.enters.is_empty());
    assert_eq!(out.moves.len(), 1);
    assert_eq!(out.moves[0].to, 1);
    let a_got = drain_proto(&mut sa);
    assert!(matches!(a_got[0], Message::PlayerMove { player_id: 1, .. }));
    // the registry stays consistent: the stored state is the new one
    assert_eq!(w.state_lookup(1).unwrap().player_state.x, 6);
}

#[test]
fn second_login_kicks_the_prior_session_first() {
    // Scenario: a second LoginRequest under the same playerId evicts the
    // prior session - kick signal delivered, registry entry replaced -
    // strictly before the new session is installed.
    let mut w = World::new(scenario_config());
    let (h1, mut s1) = new_handle();
    let (h2, mut s2) = new_handle();
    let first = w.add_player(9, PlayerLoginData { sender: h1, state: state_at(0, 0) });
    assert!(first.evicted.kicked.is_none());
    drain_proto(&mut s1);
    let second = w.add_player(9, PlayerLoginData { sender: h2, state: state_at(0, 0) });
    let kicked = second.evicted.kicked.expect("prior session evicted");
    assert_eq!(kicked.to, 9);
    assert!(kicked.ok);
    let signal = s1.player_rx.try_recv().expect("kick signal");
    assert!(matches!(signal.message, PlayerMessage::KickOut(_)));
    // the old proto queue saw nothing after the eviction
    assert!(drain_proto(&mut s1).is_empty());
    // the new session is installed and greeted
    let fresh = drain_proto(&mut s2);
    assert!(matches!(fresh[0], Message::PlayerEnter { player_id: 9, .. }));
}

#[test]
fn relogin_never_duplicates_a_presence() {
    // the same player logging in twice leaves exactly one entry behind
    let mut w = World::new(scenario_config());
    let (h1, _s1) = new_handle();
    let (h2, _s2) = new_handle();
    w.add_player(4, PlayerLoginData { sender: h1, state: state_at(5, 5) });
    w.add_player(4, PlayerLoginData { sender: h2, state: state_at(5, 5) });
    assert_eq!(w.sessions.len(), 1);
    assert_eq!(w.player_grid.len(), 1);
    let grid = w.search_grid_by_location(5, 5).expect("cell exists");
    assert_eq!(grid.players.len(), 1);
}

#[test]
fn disconnect_removes_the_entry_and_notifies_the_view() {
    let mut w = World::new(scenario_config());
    let (ha, _sa) = new_handle();
    let (hb, mut sb) = new_handle();
    w.add_player(1, PlayerLoginData { sender: ha, state: state_at(5, 5) });
    w.add_player(2, PlayerLoginData { sender: hb, state: state_at(25, 5) });
    drain_proto(&mut sb);
    let removal = w.disconnect_player(1);
    assert_eq!(removal.player_id, 1);
    assert!(removal.kicked.is_some());
    let leave_targets: Vec<i32> = removal.leaves.iter().map(|d| d.to).collect();
    assert_eq!(leave_targets, vec![2]);
    let b_got = drain_proto(&mut sb);
    assert!(matches!(b_got[0], Message::PlayerLeave { player_id: 1 }));
    assert_eq!(w.sessions.len(), 1);
    assert!(w.state_lookup(1).is_none());
}

#[test]
fn unknown_mover_is_discarded() {
    let mut w = World::new(scenario_config());
    let r = w.move_player(42, PlayerState { x: 0, y: 0, speed: 0, heading: 0 });
    match r {
        Err(e) => assert_eq!(e, WorldError::SessionLookup),
        Ok(_) => panic!("an unknown mover must be refused"),
    }
}

#[test]
fn broken_session_is_removed_after_the_fan_out() {
    // a closed event queue fails its send; the deferred-removal pass of the
    // command loop then drops the session instead of aborting the fan-out
    let mut w = World::new(scenario_config());
    let (ha, sa) = new_handle();
    let (hb, mut sb) = new_handle();
    w.add_player(1, PlayerLoginData { sender: ha, state: state_at(5, 5) });
    w.add_player(2, PlayerLoginData { sender: hb, state: state_at(6, 6) });
    drop(sa);
    drain_proto(&mut sb);
    let step = w.handle_world_msg(WorldMessageWrap::new(
        2,
        WorldMessage::PlayerMove(PlayerState { x: 7, y: 7, speed: 0, heading: 0 }),
    ));
    // player 1's queue was gone, so its entry is removed; player 2 survives
    assert_eq!(w.sessions.len(), 1);
    assert!(w.state_lookup(1).is_none());
    assert_eq!(w.state_lookup(2).unwrap().player_state.x, 7);
    // the step records the deferred removal that the failed send triggered
    assert_eq!(step.removed.len(), 1);
    assert_eq!(step.removed[0].player_id, 1);
}

#[test]
fn world_command_loop_dispatches_logins() {
    let mut w = World::new(scenario_config());
    let (ha, mut sa) = new_handle();
    w.handle_world_msg(WorldMessageWrap::new(
        5,
        WorldMessage::PlayerLogin(PlayerLoginData { sender: ha, state: state_at(0, 0) }),
    ));
    assert!(w.state_lookup(5).is_some());
    assert!(matches!(drain_proto(&mut sa)[0], Message::PlayerEnter { player_id: 5, .. }));
    w.handle_world_msg(WorldMessageWrap::new(5, WorldMessage::PlayerLogout));
    assert!(w.state_lookup(5).is_none());
}

#[test]
fn aoi_rect_clips_to_the_world_bounds() {
    let cfg = scenario_config();
    let r = aoi_rect(CellId { x: 0, y: 0 }, cfg);
    assert_eq!((r.min_x, r.max_x, r.min_y, r.max_y), (0, 1, 0, 1));
    let r2 = aoi_rect(CellId { x: 200, y: 200 }, cfg);
    assert_eq!((r2.min_x, r2.max_x, r2.min_y, r2.max_y), (199, 200, 199, 200));
    let r3 = aoi_rect(CellId { x: 100, y: 100 }, cfg);
    assert_eq!((r3.min_x, r3.max_x, r3.min_y, r3.max_y), (99, 101, 99, 101));
}

#[test]
fn aoi_broadcast_reaches_exactly_the_view() {
    let mut w = World::new(scenario_config());
    let (ha, mut sa) = new_handle();
    let (hb, mut sb) = new_handle();
    let (hc, mut sc) = new_handle();
    w.add_player(1, PlayerLoginData { sender: ha, state: state_at(5, 5) });
    w.add_player(2, PlayerLoginData { sender: hb, state: state_at(25, 5) });
    w.add_player(3, PlayerLoginData { sender: hc, state: state_at(5, 100) });
    drain_proto(&mut sa);
    drain_proto(&mut sb);
    drain_proto(&mut sc);
    let out = w.broadcast_msg_to_player_aoi(1, &Message::PlayerLeave { player_id: 1 }, false);
    let targets: Vec<i32> = out.iter().map(|d| d.to).collect();
    assert_eq!(targets, vec![2]);
    assert!(matches!(drain_proto(&mut sb)[0], Message::PlayerLeave { player_id: 1 }));
    assert!(drain_proto(&mut sa).is_empty());
    assert!(drain_proto(&mut sc).is_empty());
}

#[test]
fn grid_broadcast_reaches_one_cell() {
    let mut w = World::new(scenario_config());
    let (ha, mut sa) = new_handle();
    let (hb, mut sb) = new_handle();
    w.add_player(1, PlayerLoginData { sender: ha, state: state_at(5, 5) });
    w.add_player(2, PlayerLoginData { sender: hb, state: state_at(25, 5) });
    drain_proto(&mut sa);
    drain_proto(&mut sb);
    let out = {
        let grid = w.search_grid_by_location(25, 5).expect("cell exists");
        w.broadcast_msg_to_grid(grid, &Message::PlayerLeave { player_id: 9 })
    };
    let targets: Vec<i32> = out.iter().map(|d| d.to).collect();
    assert_eq!(targets, vec![2]);
    assert!(matches!(drain_proto(&mut sb)[0], Message::PlayerLeave { player_id: 9 }));
    assert!(drain_proto(&mut sa).is_empty());
}

#[test]
fn broadcast_to_an_absent_id_records_a_failure() {
    let mut w = World::new(scenario_config());
    let (ha, mut sa) = new_handle();
    w.add_player(1, PlayerLoginData { sender: ha, state: state_at(5, 5) });
    drain_proto(&mut sa);
    let out = w.broadcast_msg(&vec![1, 42], &Message::PlayerLeave { player_id: 9 });
    assert_eq!(out.len(), 2);
    assert_eq!((out[0].to, out[0].ok), (1, true));
    assert_eq!((out[1].to, out[1].ok), (42, false));
    assert!(matches!(drain_proto(&mut sa)[0], Message::PlayerLeave { player_id: 9 }));
}
