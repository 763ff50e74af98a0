//! Client-side prediction and reconciliation. Each tick the client sends its
//! predicted state, logs it, and advances by dead reckoning; when the
//! server's authoritative update for the client itself arrives, the oldest
//! pending prediction is checked against it — a match costs nothing, a
//! mismatch rolls the client back to the authoritative state and invalidates
//! every outstanding prediction.

use vstd::prelude::*;
use crate::message::{PlayerState, Message};
use crate::session::random_u16;

verus! {

/// One client's predicted state and its log of unacknowledged predictions,
/// oldest first.
pub struct Client {
    pub player_id: i32,
    pub pending_states: Vec<PlayerState>,
    pub current_state: PlayerState,
}

impl Client {
    pub fn new(player_id: i32) -> (c: Client)
        ensures
            c.player_id == player_id,
            c.pending_states@.len() == 0,
            c.current_state == (PlayerState { x: 0, y: 0, speed: 0, heading: 0 }),
    {
        Client {
            player_id,
            pending_states: Vec::new(),
            current_state: PlayerState { x: 0, y: 0, speed: 0, heading: 0 },
        }
    }

    /// Dead reckoning: advance the local position by the current per-tick
    /// speed, without waiting for the server.
    pub fn move_player(&mut self)
        requires
            i32::MIN <= old(self).current_state.x + old(self).current_state.speed <= i32::MAX,
            i32::MIN <= old(self).current_state.y + old(self).current_state.speed <= i32::MAX,
        ensures
            final(self).current_state.x == old(self).current_state.x
                + old(self).current_state.speed,
            final(self).current_state.y == old(self).current_state.y
                + old(self).current_state.speed,
            final(self).current_state.speed == old(self).current_state.speed,
            final(self).current_state.heading == old(self).current_state.heading,
            final(self).player_id == old(self).player_id,
            final(self).pending_states == old(self).pending_states,
    {
        self.current_state = PlayerState {
            x: self.current_state.x + self.current_state.speed,
            y: self.current_state.y + self.current_state.speed,
            speed: self.current_state.speed,
            heading: self.current_state.heading,
        };
    }

    /// One prediction tick: the intent to send to the server, the same state
    /// appended to the tail of the pending log, and the local position
    /// advanced.
    pub fn handle_tick(&mut self) -> (m: Message)
        requires
            i32::MIN <= old(self).current_state.x + old(self).current_state.speed <= i32::MAX,
            i32::MIN <= old(self).current_state.y + old(self).current_state.speed <= i32::MAX,
        ensures
            m == (Message::MoveIntent { state: old(self).current_state }),
            final(self).pending_states@ == old(self).pending_states@.push(
                old(self).current_state),
            final(self).current_state.x == old(self).current_state.x
                + old(self).current_state.speed,
            final(self).current_state.y == old(self).current_state.y
                + old(self).current_state.speed,
            final(self).player_id == old(self).player_id,
    {
        let intent = Message::MoveIntent { state: self.current_state };
        self.pending_states.push(self.current_state);
        self.move_player();
        intent
    }

    /// Reconcile against the server's authoritative update. An update about
    /// another player is ignored here. With nothing pending the value is
    /// accepted unconditionally. When the oldest prediction matches, it is
    /// retired and nothing visible changes; when it differs, the whole log
    /// is invalidated and the authoritative value replaces the local state.
    pub fn handle_sc_player_move_notify(&mut self, player_id: i32,
        authoritative_state: PlayerState)
        ensures
            final(self).player_id == old(self).player_id,
            player_id != old(self).player_id ==> *final(self) == *old(self),
            player_id == old(self).player_id ==> {
                if old(self).pending_states@.len() == 0 {
                    &&& final(self).current_state == authoritative_state
                    &&& final(self).pending_states@.len() == 0
                } else if old(self).pending_states@[0] == authoritative_state {
                    &&& final(self).current_state == old(self).current_state
                    &&& final(self).pending_states@ == old(self).pending_states@.subrange(
                        1, old(self).pending_states@.len() as int)
                    &&& final(self).pending_states@.len()
                        == old(self).pending_states@.len() - 1
                } else {
                    &&& final(self).current_state == authoritative_state
                    &&& final(self).pending_states@.len() == 0
                }
            },
    {
        if player_id != self.player_id {
            return;
        }
        if self.pending_states.len() == 0 {
            self.current_state = authoritative_state;
            return;
        }
        let oldest = self.pending_states.remove(0);
        if oldest.x == authoritative_state.x && oldest.y == authoritative_state.y
            && oldest.speed == authoritative_state.speed
            && oldest.heading == authoritative_state.heading {
            // prediction confirmed: nothing visible changes
        } else {
            self.current_state = authoritative_state;
            self.pending_states = Vec::new();
        }
    }
}

/// A per-tick speed drawn for a new simulated client, within the walking
/// range.
pub fn random_speed() -> (s: i32)
    ensures
        -10 <= s <= 10,
{
    let r: u16 = random_u16();
    (r % 21) as i32 - 10
}

/// A heading drawn for a new simulated client, in whole degrees.
pub fn random_rotation() -> (h: i32)
    ensures
        0 <= h < 360,
{
    let r: u16 = random_u16();
    (r % 360) as i32
}

/// Relies on std::time::SystemTime::now and its distance from the epoch:
/// the wall clock in milliseconds, 0 for a clock set before the epoch. The
/// result depends on the machine's clock, so nothing is promised of it.
#[verifier::external_body]
pub fn get_system_time() -> (millis: u128) {
    std::time::SystemTime::now()
        .duration_since(std::time::SystemTime::UNIX_EPOCH)
        .map(|d| d.as_millis())
        .unwrap_or(0)
}

} // verus!
