//! The per-connection session state machine. A session owns one transport
//! endpoint; it turns decoded inbound messages into world commands, replies,
//! and task control, and turns world-originated control messages into its
//! own shutdown. The surrounding tasks perform the actions it returns.

use vstd::prelude::*;
use crate::message::{Color, State, PlayerState, Message, PlayerMessage, PlayerMessageWrap,
    EventMessage};

verus! {

/// Where a connection stands in its life cycle.
#[derive(Clone, Copy, PartialEq, Eq, Structural, Debug)]
pub enum SessionState {
    /// Transport up, no identity yet.
    Connected,
    /// Identity assigned and registered with the world.
    Active,
    /// Shutting down: tasks told to stop, nothing more is routed.
    Closing,
    /// Fully torn down.
    Closed,
}

/// What the surrounding tasks must do after one session step.
#[derive(Clone, Copy, PartialEq, Eq, Structural, Debug)]
pub enum SessionAction {
    /// Post a login command for this player to the world's queue, with the
    /// session's queue handles attached.
    Register { player_id: i32, state: State },
    /// Write a message back to this session's own client.
    Reply { player_id: i32, color: Color },
    /// Post this player's move intent to the world's queue.
    ForwardMove { player_id: i32, state: PlayerState },
    /// Tell the world the player is gone, so no stale grid entry survives.
    NotifyLogout { player_id: i32 },
    /// Abort the session's read and write tasks.
    StopTasks,
}

/// One connection's session: its identity once assigned, its own record,
/// and its place in the life cycle.
pub struct Player {
    pub player_id: i32,
    pub state: State,
    pub session_state: SessionState,
    pub stopped: bool,
}

/// Relies on rand::random::<u8>: a byte from the thread-local generator.
/// The value depends on chance, so nothing is promised of it.
#[verifier::external_body]
fn random_byte() -> (b: u8) {
    rand::random()
}

/// Two random bytes as one value, for derived random quantities.
pub fn random_u16() -> (v: u16) {
    (random_byte() as u16) * 256 + (random_byte() as u16)
}

/// A cosmetic attribute drawn at login.
pub fn random_color() -> (c: Color) {
    Color { r: random_byte(), g: random_byte(), b: random_byte() }
}

impl Player {
    pub fn new() -> (p: Player)
        ensures
            p.player_id == 0,
            p.session_state == SessionState::Connected,
            !p.stopped,
            p.state == (State {
                player_state: PlayerState { x: 0, y: 0, speed: 0, heading: 0 },
                color: Color { r: 0, g: 0, b: 0 },
            }),
    {
        Player {
            player_id: 0,
            state: State {
                player_state: PlayerState { x: 0, y: 0, speed: 0, heading: 0 },
                color: Color { r: 0, g: 0, b: 0 },
            },
            session_state: SessionState::Connected,
            stopped: false,
        }
    }

    /// Enter shutdown: no more routing, tasks get aborted.
    pub fn stop(&mut self)
        ensures
            final(self).stopped,
            final(self).session_state == SessionState::Closing,
            final(self).player_id == old(self).player_id,
            final(self).state == old(self).state,
    {
        self.stopped = true;
        self.session_state = SessionState::Closing;
    }

    /// The terminal step once the tasks have actually ended.
    pub fn close(&mut self)
        requires
            old(self).stopped,
        ensures
            final(self).session_state == SessionState::Closed,
            final(self).stopped,
            final(self).player_id == old(self).player_id,
            final(self).state == old(self).state,
    {
        self.session_state = SessionState::Closed;
    }

    /// Route one decoded inbound message: a login request while unidentified
    /// assigns the identity; a move intent while active goes to the world;
    /// anything else is discarded and the connection survives.
    pub fn handle_req(&mut self, msg: &Message) -> (actions: Vec<SessionAction>)
        ensures
            final(self).stopped == old(self).stopped,
            match *msg {
                Message::LoginRequest { player_id } => {
                    if old(self).session_state == SessionState::Connected {
                        &&& final(self).player_id == player_id
                        &&& final(self).session_state == SessionState::Active
                        &&& final(self).state.player_state == old(self).state.player_state
                        &&& actions@.len() == 2
                        &&& actions@[0] == (SessionAction::Register {
                            player_id,
                            state: final(self).state,
                        })
                        &&& actions@[1] == (SessionAction::Reply {
                            player_id,
                            color: final(self).state.color,
                        })
                    } else {
                        *final(self) == *old(self) && actions@.len() == 0
                    }
                }
                Message::MoveIntent { state } => {
                    &&& *final(self) == *old(self)
                    &&& (if old(self).session_state == SessionState::Active {
                        actions@ == seq![
                            SessionAction::ForwardMove {
                                player_id: old(self).player_id,
                                state,
                            },
                        ]
                    } else {
                        actions@.len() == 0
                    })
                }
                _ => *final(self) == *old(self) && actions@.len() == 0,
            },
    {
        match msg {
            Message::LoginRequest { player_id } => self.handle_login_req(*player_id),
            Message::MoveIntent { state } => handle_move_req(self, *state),
            _ => Vec::new(),
        }
    }

    pub fn handle_login_req(&mut self, player_id: i32) -> (actions: Vec<SessionAction>)
        ensures
            final(self).stopped == old(self).stopped,
            if old(self).session_state == SessionState::Connected {
                &&& final(self).player_id == player_id
                &&& final(self).session_state == SessionState::Active
                &&& final(self).state.player_state == old(self).state.player_state
                &&& actions@.len() == 2
                &&& actions@[0] == (SessionAction::Register {
                    player_id,
                    state: final(self).state,
                })
                &&& actions@[1] == (SessionAction::Reply {
                    player_id,
                    color: final(self).state.color,
                })
            } else {
                *final(self) == *old(self) && actions@.len() == 0
            },
    {
        match self.session_state {
            SessionState::Connected => {
                self.player_id = player_id;
                self.state = State { player_state: self.state.player_state,
                    color: random_color() };
                self.session_state = SessionState::Active;
                let mut actions: Vec<SessionAction> = Vec::new();
                actions.push(SessionAction::Register { player_id, state: self.state });
                actions.push(SessionAction::Reply { player_id, color: self.state.color });
                actions
            }
            _ => Vec::new(),
        }
    }

    /// Route one world-originated control message: a kick is the terminal
    /// signal, a watchdog event fires like an end of stream.
    pub fn handle_player_msg(&mut self, msg: &PlayerMessageWrap) -> (actions: Vec<SessionAction>)
        ensures
            final(self).player_id == old(self).player_id,
            final(self).state == old(self).state,
            match msg.message {
                PlayerMessage::KickOut(_) => {
                    &&& final(self).stopped
                    &&& final(self).session_state == SessionState::Closing
                    &&& actions@ == seq![SessionAction::StopTasks]
                }
                PlayerMessage::Event(_) => {
                    &&& final(self).stopped
                    &&& final(self).session_state == SessionState::Closing
                    &&& actions@ == seq![
                        SessionAction::NotifyLogout { player_id: old(self).player_id },
                        SessionAction::StopTasks,
                    ]
                }
            },
    {
        match &msg.message {
            PlayerMessage::KickOut(_) => handle_world_kick_out(self, msg.world_id),
            PlayerMessage::Event(ev) => handle_event(self, *ev),
        }
    }

    /// The transport reported an error or the stream ended: leave, and tell
    /// the world, so the grid never keeps a stale entry for a dead
    /// connection.
    pub fn handle_transport_closed(&mut self) -> (actions: Vec<SessionAction>)
        ensures
            final(self).stopped,
            final(self).session_state == SessionState::Closing,
            final(self).player_id == old(self).player_id,
            final(self).state == old(self).state,
            actions@ == seq![
                SessionAction::NotifyLogout { player_id: old(self).player_id },
                SessionAction::StopTasks,
            ],
    {
        self.stop();
        let mut actions: Vec<SessionAction> = Vec::new();
        actions.push(SessionAction::NotifyLogout { player_id: self.player_id });
        actions.push(SessionAction::StopTasks);
        proof {
            assert(actions@ =~= seq![
                SessionAction::NotifyLogout { player_id: old(self).player_id },
                SessionAction::StopTasks,
            ]);
        }
        actions
    }
}

/// The world evicted this player: stop the session's tasks.
pub fn handle_world_kick_out(player: &mut Player, _world_id: i32) -> (actions: Vec<SessionAction>)
    ensures
        final(player).stopped,
        final(player).session_state == SessionState::Closing,
        final(player).player_id == old(player).player_id,
        final(player).state == old(player).state,
        actions@ == seq![SessionAction::StopTasks],
{
    player.stop();
    let mut actions: Vec<SessionAction> = Vec::new();
    actions.push(SessionAction::StopTasks);
    proof {
        assert(actions@ =~= seq![SessionAction::StopTasks]);
    }
    actions
}

/// The idle watchdog fired: treated exactly like an end of stream.
pub fn handle_event(player: &mut Player, _event: EventMessage) -> (actions: Vec<SessionAction>)
    ensures
        final(player).stopped,
        final(player).session_state == SessionState::Closing,
        final(player).player_id == old(player).player_id,
        final(player).state == old(player).state,
        actions@ == seq![
            SessionAction::NotifyLogout { player_id: old(player).player_id },
            SessionAction::StopTasks,
        ],
{
    player.handle_transport_closed()
}

/// A move intent travels to the world only from an active session.
pub fn handle_move_req(player: &mut Player, state: PlayerState) -> (actions: Vec<SessionAction>)
    ensures
        *final(player) == *old(player),
        if old(player).session_state == SessionState::Active {
            actions@ == seq![
                SessionAction::ForwardMove { player_id: old(player).player_id, state },
            ]
        } else {
            actions@.len() == 0
        },
{
    match player.session_state {
        SessionState::Active => {
            let mut actions: Vec<SessionAction> = Vec::new();
            actions.push(SessionAction::ForwardMove { player_id: player.player_id, state });
            proof {
                assert(actions@ =~= seq![
                    SessionAction::ForwardMove { player_id: old(player).player_id, state },
                ]);
            }
            actions
        }
        _ => Vec::new(),
    }
}

} // verus!
