//! Domain messages: the typed events the codec carries and the command and
//! event wrappers the world and the sessions exchange over their queues.

use vstd::prelude::*;
use tokio::sync::mpsc::UnboundedSender;

verus! {

/// Cosmetic attribute a player is given at login.
#[derive(Clone, Copy, PartialEq, Eq, Structural, Debug)]
pub struct Color {
    pub r: u8,
    pub g: u8,
    pub b: u8,
}

/// A player's kinematic state: position plus per-tick speed and heading.
#[derive(Clone, Copy, PartialEq, Eq, Structural, Debug)]
pub struct PlayerState {
    pub x: i32,
    pub y: i32,
    pub speed: i32,
    pub heading: i32,
}

/// Authoritative per-player record: kinematic state and cosmetic attribute.
#[derive(Clone, Copy, PartialEq, Eq, Structural, Debug)]
pub struct State {
    pub player_state: PlayerState,
    pub color: Color,
}

/// One entry of a bulk presence snapshot.
#[derive(Clone, Copy, PartialEq, Eq, Structural, Debug)]
pub struct PresenceEntry {
    pub player_id: i32,
    pub state: PlayerState,
    pub color: Color,
}

/// A domain message of the wire protocol. The first two travel client to
/// server; the rest travel server to client.
#[derive(PartialEq, Debug)]
pub enum Message {
    LoginRequest { player_id: i32 },
    MoveIntent { state: PlayerState },
    LoginResponse { player_id: i32, color: Color },
    PlayerEnter { player_id: i32, color: Color },
    PlayerLeave { player_id: i32 },
    PlayerMove { player_id: i32, state: PlayerState },
    BulkPresenceSnapshot { players: Vec<PresenceEntry> },
}

/// An element-wise copy of a snapshot's entry list.
pub fn copy_presence(v: &Vec<PresenceEntry>) -> (r: Vec<PresenceEntry>)
    ensures
        r@ == v@,
{
    let mut r: Vec<PresenceEntry> = Vec::new();
    let n = v.len();
    let mut i: usize = 0;
    while i < n
        invariant
            i <= n,
            n == v@.len(),
            r@ == v@.subrange(0, i as int),
        decreases n - i,
    {
        r.push(v[i]);
        proof {
            assert(r@ =~= v@.subrange(0, i + 1));
        }
        i = i + 1;
    }
    proof {
        assert(r@ =~= v@);
    }
    r
}

impl Clone for Message {
    /// An exact copy; broadcasting sends one copy per recipient. A snapshot's
    /// list is copied entry by entry, so the copy agrees with the original up
    /// to the abstract contents of that list.
    fn clone(&self) -> (res: Self)
        ensures
            res.equiv(*self),
            ((*self is BulkPresenceSnapshot) || res == *self),
    {
        match self {
            Message::LoginRequest { player_id } => Message::LoginRequest { player_id: *player_id },
            Message::MoveIntent { state } => Message::MoveIntent { state: *state },
            Message::LoginResponse { player_id, color } => Message::LoginResponse {
                player_id: *player_id,
                color: *color,
            },
            Message::PlayerEnter { player_id, color } => Message::PlayerEnter {
                player_id: *player_id,
                color: *color,
            },
            Message::PlayerLeave { player_id } => Message::PlayerLeave { player_id: *player_id },
            Message::PlayerMove { player_id, state } => Message::PlayerMove {
                player_id: *player_id,
                state: *state,
            },
            Message::BulkPresenceSnapshot { players } => Message::BulkPresenceSnapshot {
                players: copy_presence(players),
            },
        }
    }
}

/// Direction a message travels; each direction has its own id space.
#[derive(Clone, Copy, PartialEq, Eq, Structural, Debug)]
pub enum Direction {
    ClientToServer,
    ServerToClient,
}

impl Message {
    /// Equality up to the abstract contents of a snapshot's list.
    pub open spec fn equiv(self, other: Message) -> bool {
        match (self, other) {
            (
                Message::BulkPresenceSnapshot { players: a },
                Message::BulkPresenceSnapshot { players: b },
            ) => a@ == b@,
            _ => self == other,
        }
    }

    /// The direction whose id space a message belongs to.
    pub open spec fn spec_direction(&self) -> Direction {
        match self {
            Message::LoginRequest { .. } => Direction::ClientToServer,
            Message::MoveIntent { .. } => Direction::ClientToServer,
            _ => Direction::ServerToClient,
        }
    }

    pub fn direction(&self) -> (d: Direction)
        ensures
            d == self.spec_direction(),
    {
        match self {
            Message::LoginRequest { .. } => Direction::ClientToServer,
            Message::MoveIntent { .. } => Direction::ClientToServer,
            _ => Direction::ServerToClient,
        }
    }
}

/// Why the world tears a session down.
#[derive(Clone, PartialEq, Debug)]
pub enum KickOutReason {
    MultiLogin(String),
}

/// The timeout event the session watchdog delivers when a connection stays
/// silent for too long.
#[derive(Clone, Copy, PartialEq, Eq, Structural, Debug)]
pub struct ReceiveTimeoutEvent;

/// An event delivered to a session by its scheduler.
#[derive(Clone, Copy, PartialEq, Eq, Structural, Debug)]
pub struct EventMessage(pub ReceiveTimeoutEvent);

/// Control message the world sends a session.
#[derive(Clone, PartialEq, Debug)]
pub enum PlayerMessage {
    KickOut(KickOutReason),
    Event(EventMessage),
}

/// Control message with the id of the world that sent it.
#[derive(Clone, PartialEq, Debug)]
pub struct PlayerMessageWrap {
    pub world_id: i32,
    pub message: PlayerMessage,
}

impl PlayerMessageWrap {
    pub fn new(world_id: i32, message: PlayerMessage) -> (w: PlayerMessageWrap)
        ensures
            w == (PlayerMessageWrap { world_id, message }),
    {
        PlayerMessageWrap { world_id, message }
    }
}

/// The pair of send-only queue handles the world holds per logged-in player:
/// one for control signals, one for outbound protocol events.
pub struct PlayerSender {
    pub player: UnboundedSender<PlayerMessageWrap>,
    pub proto: UnboundedSender<Message>,
}

/// What a login command carries into the world.
pub struct PlayerLoginData {
    pub sender: PlayerSender,
    pub state: State,
}

/// A command for the world's single ordered queue.
pub enum WorldMessage {
    PlayerLogin(PlayerLoginData),
    PlayerLogout,
    PlayerMove(PlayerState),
}

/// A world command with the id of the player that issued it.
pub struct WorldMessageWrap {
    pub player_id: i32,
    pub message: WorldMessage,
}

impl WorldMessageWrap {
    pub fn new(player_id: i32, message: WorldMessage) -> (w: WorldMessageWrap)
        ensures
            w.player_id == player_id,
            w.message == message,
    {
        WorldMessageWrap { player_id, message }
    }
}

} // verus!
