//! The framed wire codec. A frame is a 2-byte big-endian total length
//! (header included), a 2-byte big-endian message-kind id, and the body.
//! The two directions have disjoint id spaces fixed at build time; encoding
//! a message in the wrong direction's space is an error, never a silent
//! mismatch. Decoding is incremental: a short buffer asks for more data and
//! consumes nothing.

use vstd::prelude::*;
use vstd::arithmetic::div_mod::{lemma_div_multiples_vanish_fancy, lemma_mod_multiples_vanish,
    lemma_fundamental_div_mod};
use crate::message::{Color, PlayerState, PresenceEntry, Message, Direction};

verus! {

/// The value of two big-endian bytes.
pub open spec fn be16(b0: u8, b1: u8) -> int {
    b0 * 256 + b1
}

/// The value of four big-endian bytes.
pub open spec fn be32(b0: u8, b1: u8, b2: u8, b3: u8) -> int {
    b0 * 16777216 + b1 * 65536 + b2 * 256 + b3
}

/// The two big-endian bytes of a value below 2^16.
pub open spec fn u16_bytes(v: int) -> Seq<u8> {
    seq![(v / 256) as u8, (v % 256) as u8]
}

/// A signed 32-bit value on the wire: its offset form `v + 2^31` in four
/// big-endian bytes.
pub open spec fn i32_bytes(x: i32) -> Seq<u8> {
    let u = x + 2147483648;
    seq![
        (u / 16777216) as u8,
        ((u / 65536) % 256) as u8,
        ((u / 256) % 256) as u8,
        (u % 256) as u8,
    ]
}

/// Base-256 digits compose and decompose exactly, two bytes.
pub proof fn lemma_be16_digits(b0: u8, b1: u8)
    ensures
        0 <= be16(b0, b1) < 65536,
        be16(b0, b1) / 256 == b0,
        be16(b0, b1) % 256 == b1,
{
    lemma_div_multiples_vanish_fancy(b0 as int, b1 as int, 256);
    assert(256 * (b0 as int) + b1 == be16(b0, b1));
    lemma_mod_multiples_vanish(b0 as int, b1 as int, 256);
    assert((b1 as int) % 256 == b1) by {
        vstd::arithmetic::div_mod::lemma_small_mod(b1 as nat, 256);
    }
}

/// Base-256 digits compose and decompose exactly, four bytes.
pub proof fn lemma_be32_digits(b0: u8, b1: u8, b2: u8, b3: u8)
    ensures
        0 <= be32(b0, b1, b2, b3) < 4294967296,
        be32(b0, b1, b2, b3) / 16777216 == b0,
        (be32(b0, b1, b2, b3) / 65536) % 256 == b1,
        (be32(b0, b1, b2, b3) / 256) % 256 == b2,
        be32(b0, b1, b2, b3) % 256 == b3,
{
    let u = be32(b0, b1, b2, b3);
    let r0 = b1 * 65536 + b2 * 256 + b3;
    assert(u / 16777216 == b0) by {
        lemma_div_multiples_vanish_fancy(b0 as int, r0, 16777216);
        assert(16777216 * (b0 as int) + r0 == u);
    }
    assert((u / 65536) % 256 == b1) by {
        let hi = b0 * 256 + b1;
        let lo = b2 * 256 + b3;
        lemma_div_multiples_vanish_fancy(hi, lo, 65536);
        assert(65536 * hi + lo == u);
        lemma_mod_multiples_vanish(b0 as int, b1 as int, 256);
        assert(256 * (b0 as int) + b1 == hi);
        vstd::arithmetic::div_mod::lemma_small_mod(b1 as nat, 256);
    }
    assert((u / 256) % 256 == b2) by {
        let hi = b0 * 65536 + b1 * 256 + b2;
        lemma_div_multiples_vanish_fancy(hi, b3 as int, 256);
        assert(256 * hi + b3 == u);
        lemma_mod_multiples_vanish(b0 as int * 256 + b1, b2 as int, 256);
        assert(256 * (b0 as int * 256 + b1) + b2 == hi);
        vstd::arithmetic::div_mod::lemma_small_mod(b2 as nat, 256);
    }
    assert(u % 256 == b3) by {
        let hi = b0 * 65536 + b1 * 256 + b2;
        lemma_mod_multiples_vanish(hi, b3 as int, 256);
        assert(256 * hi + b3 == u);
        vstd::arithmetic::div_mod::lemma_small_mod(b3 as nat, 256);
    }
}

/// A value below 2^16 is recovered from its two bytes.
pub proof fn lemma_u16_bytes_value(v: int)
    requires
        0 <= v < 65536,
    ensures
        u16_bytes(v).len() == 2,
        be16(u16_bytes(v)[0], u16_bytes(v)[1]) == v,
        0 <= v / 256 < 256,
        0 <= v % 256 < 256,
{
    lemma_fundamental_div_mod(v, 256);
}

/// A signed value is recovered from its four wire bytes.
pub proof fn lemma_i32_bytes_value(x: i32)
    ensures
        i32_bytes(x).len() == 4,
        be32(i32_bytes(x)[0], i32_bytes(x)[1], i32_bytes(x)[2], i32_bytes(x)[3])
            == x + 2147483648,
{
    let u = x + 2147483648;
    lemma_fundamental_div_mod(u, 16777216);
    lemma_fundamental_div_mod(u / 16777216, 1);
    lemma_fundamental_div_mod(u, 65536);
    lemma_fundamental_div_mod(u / 65536, 256);
    lemma_fundamental_div_mod(u, 256);
    lemma_fundamental_div_mod(u / 256, 256);
    assert(u / 65536 / 256 == u / 16777216) by {
        vstd::arithmetic::div_mod::lemma_div_denominator(u, 65536, 256);
    }
    assert(u / 256 / 256 == u / 65536) by {
        vstd::arithmetic::div_mod::lemma_div_denominator(u, 256, 256);
    }
    assert(u / 256 / 256 / 256 == u / 16777216) by {
        vstd::arithmetic::div_mod::lemma_div_denominator(u / 256, 256, 256);
        vstd::arithmetic::div_mod::lemma_div_denominator(u, 256, 65536);
        vstd::arithmetic::div_mod::lemma_div_denominator(u, 65536, 256);
        vstd::arithmetic::div_mod::lemma_div_denominator(u, 256, 256);
    }
    assert((u / 16777216) * 16777216 + ((u / 65536) % 256) * 65536 + ((u / 256) % 256) * 256
        + u % 256 == u) by (nonlinear_arith)
        requires
            u == 65536 * (u / 65536) + u % 65536,
            u == 256 * (u / 256) + u % 256,
            u / 65536 == 256 * (u / 65536 / 256) + (u / 65536) % 256,
            u / 256 == 256 * (u / 256 / 256) + (u / 256) % 256,
            u / 65536 / 256 == u / 16777216,
            u / 256 / 256 == u / 65536,
    ;
}


/// The three bytes of a cosmetic attribute.
pub open spec fn color_bytes(c: Color) -> Seq<u8> {
    seq![c.r, c.g, c.b]
}

/// The sixteen bytes of a kinematic state.
pub open spec fn state_bytes(st: PlayerState) -> Seq<u8> {
    i32_bytes(st.x) + i32_bytes(st.y) + i32_bytes(st.speed) + i32_bytes(st.heading)
}

/// The twenty-three bytes of one presence entry.
#[verifier::opaque]
pub open spec fn entry_bytes(e: PresenceEntry) -> Seq<u8> {
    i32_bytes(e.player_id) + state_bytes(e.state) + color_bytes(e.color)
}

/// The concatenated bytes of a snapshot's entries.
pub open spec fn entries_bytes(s: Seq<PresenceEntry>) -> Seq<u8>
    decreases s.len(),
{
    if s.len() == 0 {
        Seq::<u8>::empty()
    } else {
        entries_bytes(s.drop_last()) + entry_bytes(s.last())
    }
}

/// The body of each message kind.
pub open spec fn body_bytes(m: Message) -> Seq<u8> {
    match m {
        Message::LoginRequest { player_id } => i32_bytes(player_id),
        Message::MoveIntent { state } => state_bytes(state),
        Message::LoginResponse { player_id, color } => i32_bytes(player_id) + color_bytes(color),
        Message::PlayerEnter { player_id, color } => i32_bytes(player_id) + color_bytes(color),
        Message::PlayerLeave { player_id } => i32_bytes(player_id),
        Message::PlayerMove { player_id, state } => i32_bytes(player_id) + state_bytes(state),
        Message::BulkPresenceSnapshot { players } => u16_bytes(players@.len() as int)
            + entries_bytes(players@),
    }
}

/// The build-time-fixed kind id of each message, within its direction's id
/// space. The two spaces are disjoint by direction, not by number.
pub open spec fn spec_kind_id(m: Message) -> u16 {
    match m {
        Message::LoginRequest { .. } => 1,
        Message::MoveIntent { .. } => 2,
        Message::LoginResponse { .. } => 1,
        Message::PlayerEnter { .. } => 2,
        Message::PlayerLeave { .. } => 3,
        Message::PlayerMove { .. } => 4,
        Message::BulkPresenceSnapshot { .. } => 5,
    }
}

/// Whether a message fits in one frame: total length in sixteen bits.
pub open spec fn encodable(m: Message) -> bool {
    body_bytes(m).len() + 4 <= 65535
}

/// The full frame: length, kind id, body.
pub open spec fn spec_frame(m: Message) -> Seq<u8> {
    u16_bytes(body_bytes(m).len() as int + 4) + u16_bytes(spec_kind_id(m) as int) + body_bytes(m)
}

/// The direction whose frames a codec consumes: a server reads what clients
/// send, and the other way round.
pub open spec fn incoming_direction(is_server: bool) -> Direction {
    if is_server {
        Direction::ClientToServer
    } else {
        Direction::ServerToClient
    }
}

/// The direction whose frames a codec produces.
pub open spec fn outgoing_direction(is_server: bool) -> Direction {
    if is_server {
        Direction::ServerToClient
    } else {
        Direction::ClientToServer
    }
}

/// What went wrong framing or unframing a message.
#[derive(Clone, Copy, PartialEq, Eq, Structural, Debug)]
pub enum ProtoCodecError {
    /// A frame's length field is below the 4-byte minimum.
    BadLength,
    /// A kind id outside the incoming direction's space.
    UnknownKind(u16),
    /// A known kind whose body bytes fit no message of that kind.
    BodyMalformed,
    /// An encode of a message that belongs to the other direction.
    WrongDirection,
    /// An encode whose frame would not fit a 16-bit length.
    TooLong,
}

/// The outcome of one decode step.
#[derive(PartialEq, Debug)]
pub enum Decoded {
    /// Fewer bytes buffered than one frame needs; nothing consumed.
    NeedMoreData,
    /// One message and the count of bytes its frame occupied.
    Frame(Message, usize),
}

/// One side's codec: `is_server` fixes which id space it reads and which it
/// writes.
pub struct ProtoCodec {
    pub is_server: bool,
}

/// Append the two big-endian bytes of a 16-bit value.
fn push_u16(out: &mut Vec<u8>, v: u16)
    ensures
        final(out)@ == old(out)@ + u16_bytes(v as int),
{
    proof {
        lemma_u16_bytes_value(v as int);
    }
    out.push((v / 256) as u8);
    out.push((v % 256) as u8);
    proof {
        assert(final(out)@ =~= old(out)@ + u16_bytes(v as int));
    }
}

/// Append the four wire bytes of a signed 32-bit value.
fn push_i32(out: &mut Vec<u8>, x: i32)
    ensures
        final(out)@ == old(out)@ + i32_bytes(x),
{
    let u: u32 = ((x as i64) + 2147483648) as u32;
    proof {
        assert(u == x + 2147483648);
    }
    out.push((u / 16777216) as u8);
    out.push(((u / 65536) % 256) as u8);
    out.push(((u / 256) % 256) as u8);
    out.push((u % 256) as u8);
    proof {
        assert(final(out)@ =~= old(out)@ + i32_bytes(x));
    }
}

/// Append the three bytes of a cosmetic attribute.
fn push_color(out: &mut Vec<u8>, c: Color)
    ensures
        final(out)@ == old(out)@ + color_bytes(c),
{
    out.push(c.r);
    out.push(c.g);
    out.push(c.b);
    proof {
        assert(final(out)@ =~= old(out)@ + color_bytes(c));
    }
}

/// Append the sixteen bytes of a kinematic state.
fn push_state(out: &mut Vec<u8>, st: PlayerState)
    ensures
        final(out)@ == old(out)@ + state_bytes(st),
{
    push_i32(out, st.x);
    push_i32(out, st.y);
    push_i32(out, st.speed);
    push_i32(out, st.heading);
    proof {
        assert(final(out)@ =~= old(out)@ + state_bytes(st));
    }
}

/// The entry list concatenation is twenty-three bytes per entry.
pub proof fn lemma_entries_bytes_len(s: Seq<PresenceEntry>)
    ensures
        entries_bytes(s).len() == 23 * s.len(),
    decreases s.len(),
{
    reveal(entry_bytes);
    if s.len() > 0 {
        lemma_entries_bytes_len(s.drop_last());
    }
}

/// Append the body of a message. A snapshot must fit one frame.
fn push_body(out: &mut Vec<u8>, msg: &Message)
    requires
        (match *msg {
            Message::BulkPresenceSnapshot { players } => players@.len() <= 2849,
            _ => true,
        }),
    ensures
        final(out)@ == old(out)@ + body_bytes(*msg),
{
    match msg {
        Message::LoginRequest { player_id } => {
            push_i32(out, *player_id);
        }
        Message::MoveIntent { state } => {
            push_state(out, *state);
        }
        Message::LoginResponse { player_id, color } => {
            push_i32(out, *player_id);
            push_color(out, *color);
        }
        Message::PlayerEnter { player_id, color } => {
            push_i32(out, *player_id);
            push_color(out, *color);
        }
        Message::PlayerLeave { player_id } => {
            push_i32(out, *player_id);
        }
        Message::PlayerMove { player_id, state } => {
            push_i32(out, *player_id);
            push_state(out, *state);
        }
        Message::BulkPresenceSnapshot { players } => {
            let n = players.len();
            push_u16(out, n as u16);
            let mut i: usize = 0;
            while i < n
                invariant
                    i <= n,
                    n <= 2849,
                    n == players@.len(),
                    out@ == old(out)@ + u16_bytes(n as int)
                        + entries_bytes(players@.subrange(0, i as int)),
                decreases n - i,
            {
                let e = players[i];
                push_i32(out, e.player_id);
                push_state(out, e.state);
                push_color(out, e.color);
                proof {
                    reveal(entry_bytes);
                    assert(players@.subrange(0, i + 1).drop_last()
                        =~= players@.subrange(0, i as int));
                    assert(players@.subrange(0, i + 1).last() == players@[i as int]);
                    assert(out@ =~= old(out)@ + u16_bytes(n as int)
                        + entries_bytes(players@.subrange(0, i + 1)));
                }
                i = i + 1;
            }
            proof {
                assert(players@.subrange(0, n as int) =~= players@);
            }
        }
    }
    proof {
        assert(final(out)@ =~= old(out)@ + body_bytes(*msg));
    }
}

impl ProtoCodec {
    pub fn new(is_server: bool) -> (c: ProtoCodec)
        ensures
            c.is_server == is_server,
    {
        ProtoCodec { is_server }
    }

    /// The kind id of a message in this codec's outgoing space; a message of
    /// the other direction is refused, never silently renumbered.
    pub fn get_proto_id(&self, msg: &Message) -> (r: Result<u16, ProtoCodecError>)
        ensures
            match r {
                Ok(id) => msg.spec_direction() == outgoing_direction(self.is_server)
                    && id == spec_kind_id(*msg),
                Err(e) => e == ProtoCodecError::WrongDirection && msg.spec_direction()
                    != outgoing_direction(self.is_server),
            },
    {
        let dir_ok = match msg.direction() {
            Direction::ClientToServer => !self.is_server,
            Direction::ServerToClient => self.is_server,
        };
        if !dir_ok {
            return Err(ProtoCodecError::WrongDirection);
        }
        Ok(
            match msg {
                Message::LoginRequest { .. } => 1,
                Message::MoveIntent { .. } => 2,
                Message::LoginResponse { .. } => 1,
                Message::PlayerEnter { .. } => 2,
                Message::PlayerLeave { .. } => 3,
                Message::PlayerMove { .. } => 4,
                Message::BulkPresenceSnapshot { .. } => 5,
            },
        )
    }

    /// Frame a message for this codec's outgoing direction: length, kind id,
    /// body. A message of the other direction or one too large for a 16-bit
    /// length is refused.
    pub fn encode(&self, msg: &Message) -> (r: Result<Vec<u8>, ProtoCodecError>)
        ensures
            match r {
                Ok(bytes) => {
                    &&& msg.spec_direction() == outgoing_direction(self.is_server)
                    &&& encodable(*msg)
                    &&& bytes@ == spec_frame(*msg)
                }
                Err(e) => match e {
                    ProtoCodecError::WrongDirection => msg.spec_direction()
                        != outgoing_direction(self.is_server),
                    ProtoCodecError::TooLong => msg.spec_direction()
                        == outgoing_direction(self.is_server) && !encodable(*msg),
                    _ => false,
                },
            },
    {
        let id = match self.get_proto_id(msg) {
            Ok(id) => id,
            Err(e) => {
                return Err(e);
            }
        };
        let too_long = match msg {
            Message::BulkPresenceSnapshot { players } => players.len() > 2849,
            _ => false,
        };
        if too_long {
            proof {
                match msg {
                    Message::BulkPresenceSnapshot { players } => {
                        lemma_entries_bytes_len(players@);
                    }
                    _ => {}
                }
            }
            return Err(ProtoCodecError::TooLong);
        }
        let mut body: Vec<u8> = Vec::new();
        push_body(&mut body, msg);
        proof {
            match msg {
                Message::BulkPresenceSnapshot { players } => {
                    lemma_entries_bytes_len(players@);
                }
                _ => {}
            }
            assert(body@.len() <= 65531);
        }
        let package_len: u16 = (body.len() as u16) + 4;
        let mut out: Vec<u8> = Vec::new();
        push_u16(&mut out, package_len);
        push_u16(&mut out, id);
        let n = body.len();
        let mut i: usize = 0;
        while i < n
            invariant
                i <= n,
                n == body@.len(),
                out@ == u16_bytes(n + 4) + u16_bytes(spec_kind_id(*msg) as int)
                    + body@.subrange(0, i as int),
            decreases n - i,
        {
            out.push(body[i]);
            proof {
                assert(out@ =~= u16_bytes(n + 4) + u16_bytes(spec_kind_id(*msg) as int)
                    + body@.subrange(0, i + 1));
            }
            i = i + 1;
        }
        proof {
            assert(body@.subrange(0, n as int) =~= body@);
            assert(out@ =~= spec_frame(*msg));
        }
        Ok(out)
    }
}


/// Which ids the incoming direction of a codec knows.
pub open spec fn known_incoming_id(is_server: bool, id: u16) -> bool {
    if is_server {
        1 <= id <= 2
    } else {
        1 <= id <= 5
    }
}

/// The length field of a buffered frame.
pub open spec fn frame_len_of(s: Seq<u8>) -> int {
    be16(s[0], s[1])
}

/// The kind field of a buffered frame.
pub open spec fn kind_of(s: Seq<u8>) -> int {
    be16(s[2], s[3])
}

/// Read two big-endian bytes.
fn read_u16_at(b: &Vec<u8>, i: usize) -> (v: u16)
    requires
        i + 2 <= b@.len(),
    ensures
        v as int == be16(b@[i as int], b@[i as int + 1]),
        u16_bytes(v as int) == b@.subrange(i as int, i as int + 2),
{
    let _bound = b.len();
    proof {
        lemma_be16_digits(b@[i as int], b@[i as int + 1]);
    }
    let v: u16 = (b[i] as u16) * 256 + (b[i + 1] as u16);
    proof {
        assert(u16_bytes(v as int) =~= b@.subrange(i as int, i as int + 2));
    }
    v
}

/// Read a signed 32-bit value from its four wire bytes.
fn read_i32_at(b: &Vec<u8>, i: usize) -> (x: i32)
    requires
        i + 4 <= b@.len(),
    ensures
        i32_bytes(x) == b@.subrange(i as int, i as int + 4),
{
    let _bound = b.len();
    proof {
        lemma_be32_digits(b@[i as int], b@[i as int + 1], b@[i as int + 2], b@[i as int + 3]);
    }
    let u: u32 = (b[i] as u32) * 16777216 + (b[i + 1] as u32) * 65536 + (b[i + 2] as u32) * 256
        + (b[i + 3] as u32);
    let x: i32 = ((u as i64) - 2147483648) as i32;
    proof {
        assert(x + 2147483648 == u);
        assert(i32_bytes(x) =~= b@.subrange(i as int, i as int + 4));
    }
    x
}

/// Read a cosmetic attribute.
fn read_color_at(b: &Vec<u8>, i: usize) -> (c: Color)
    requires
        i + 3 <= b@.len(),
    ensures
        color_bytes(c) == b@.subrange(i as int, i as int + 3),
{
    let _bound = b.len();
    let c = Color { r: b[i], g: b[i + 1], b: b[i + 2] };
    proof {
        assert(color_bytes(c) =~= b@.subrange(i as int, i as int + 3));
    }
    c
}

/// Read a kinematic state.
fn read_state_at(b: &Vec<u8>, i: usize) -> (st: PlayerState)
    requires
        i + 16 <= b@.len(),
    ensures
        state_bytes(st) == b@.subrange(i as int, i as int + 16),
{
    let _bound = b.len();
    let x = read_i32_at(b, i);
    let y = read_i32_at(b, i + 4);
    let speed = read_i32_at(b, i + 8);
    let heading = read_i32_at(b, i + 12);
    let st = PlayerState { x, y, speed, heading };
    proof {
        assert(state_bytes(st) =~= b@.subrange(i as int, i as int + 16));
    }
    st
}

impl ProtoCodec {
    /// Rebuild the message of a known incoming kind from its body bytes; the
    /// body must be the kind's exact encoding, nothing shorter or longer.
    pub fn parse_proto(&self, id: u16, msg_bytes: &Vec<u8>) -> (r: Result<
        Message,
        ProtoCodecError,
    >)
        ensures
            match r {
                Ok(m) => {
                    &&& m.spec_direction() == incoming_direction(self.is_server)
                    &&& spec_kind_id(m) == id
                    &&& encodable(m)
                    &&& body_bytes(m) == msg_bytes@
                }
                Err(e) => match e {
                    ProtoCodecError::UnknownKind(k) => k == id && !known_incoming_id(
                        self.is_server, id),
                    ProtoCodecError::BodyMalformed => known_incoming_id(self.is_server, id)
                        && !(exists|m2: Message|
                            m2.spec_direction() == incoming_direction(self.is_server)
                            && spec_kind_id(m2) == id && encodable(m2)
                            && #[trigger] body_bytes(m2) == msg_bytes@),
                    _ => false,
                },
            },
    {
        let n = msg_bytes.len();
        if self.is_server {
            if id == 1 {
                // LoginRequest: one id
                if n != 4 {
                    proof {
                        lemma_no_match_cs(self.is_server, id, msg_bytes@);
                    }
                    return Err(ProtoCodecError::BodyMalformed);
                }
                let player_id = read_i32_at(msg_bytes, 0);
                proof {
                    assert(i32_bytes(player_id) =~= msg_bytes@);
                }
                Ok(Message::LoginRequest { player_id })
            } else if id == 2 {
                // MoveIntent: one state
                if n != 16 {
                    proof {
                        lemma_no_match_cs(self.is_server, id, msg_bytes@);
                    }
                    return Err(ProtoCodecError::BodyMalformed);
                }
                let state = read_state_at(msg_bytes, 0);
                proof {
                    assert(state_bytes(state) =~= msg_bytes@);
                }
                Ok(Message::MoveIntent { state })
            } else {
                Err(ProtoCodecError::UnknownKind(id))
            }
        } else {
            if id == 1 || id == 2 {
                // LoginResponse or PlayerEnter: an id and a color
                if n != 7 {
                    proof {
                        lemma_no_match_sc(self.is_server, id, msg_bytes@);
                    }
                    return Err(ProtoCodecError::BodyMalformed);
                }
                let player_id = read_i32_at(msg_bytes, 0);
                let color = read_color_at(msg_bytes, 4);
                proof {
                    assert(i32_bytes(player_id) + color_bytes(color) =~= msg_bytes@);
                }
                if id == 1 {
                    Ok(Message::LoginResponse { player_id, color })
                } else {
                    Ok(Message::PlayerEnter { player_id, color })
                }
            } else if id == 3 {
                // PlayerLeave: one id
                if n != 4 {
                    proof {
                        lemma_no_match_sc(self.is_server, id, msg_bytes@);
                    }
                    return Err(ProtoCodecError::BodyMalformed);
                }
                let player_id = read_i32_at(msg_bytes, 0);
                proof {
                    assert(i32_bytes(player_id) =~= msg_bytes@);
                }
                Ok(Message::PlayerLeave { player_id })
            } else if id == 4 {
                // PlayerMove: an id and a state
                if n != 20 {
                    proof {
                        lemma_no_match_sc(self.is_server, id, msg_bytes@);
                    }
                    return Err(ProtoCodecError::BodyMalformed);
                }
                let player_id = read_i32_at(msg_bytes, 0);
                let state = read_state_at(msg_bytes, 4);
                proof {
                    assert(i32_bytes(player_id) + state_bytes(state) =~= msg_bytes@);
                }
                Ok(Message::PlayerMove { player_id, state })
            } else if id == 5 {
                self.parse_snapshot(msg_bytes)
            } else {
                Err(ProtoCodecError::UnknownKind(id))
            }
        }
    }

    /// Rebuild a snapshot from a count-prefixed run of fixed-width entries.
    #[verifier::rlimit(60)]
    fn parse_snapshot(&self, msg_bytes: &Vec<u8>) -> (r: Result<Message, ProtoCodecError>)
        requires
            !self.is_server,
        ensures
            match r {
                Ok(m) => {
                    &&& m.spec_direction() == incoming_direction(self.is_server)
                    &&& spec_kind_id(m) == 5
                    &&& encodable(m)
                    &&& body_bytes(m) == msg_bytes@
                }
                Err(e) => match e {
                    ProtoCodecError::BodyMalformed => !(exists|m2: Message|
                        m2.spec_direction() == incoming_direction(self.is_server)
                        && spec_kind_id(m2) == 5 && encodable(m2)
                        && #[trigger] body_bytes(m2) == msg_bytes@),
                    _ => false,
                },
            },
    {
        let n = msg_bytes.len();
        if n < 2 {
            proof {
                lemma_no_snapshot_match(msg_bytes@, 0, false);
            }
            return Err(ProtoCodecError::BodyMalformed);
        }
        let count = read_u16_at(msg_bytes, 0);
        if count > 2849 || n != 2 + 23 * (count as usize) {
            proof {
                lemma_no_snapshot_match(msg_bytes@, count as int, true);
            }
            return Err(ProtoCodecError::BodyMalformed);
        }
        let count_us: usize = count as usize;
        let mut players: Vec<PresenceEntry> = Vec::new();
        let mut i: usize = 0;
        while i < count_us
            invariant
                i <= count_us,
                n == msg_bytes@.len(),
                n == 2 + 23 * count_us,
                count_us <= 2849,
                players@.len() == i,
                entries_bytes(players@) == msg_bytes@.subrange(2, 2 + 23 * i as int),
            decreases count_us - i,
        {
            let off = 2 + 23 * i;
            let player_id = read_i32_at(msg_bytes, off);
            let state = read_state_at(msg_bytes, off + 4);
            let color = read_color_at(msg_bytes, off + 20);
            let e = PresenceEntry { player_id, state, color };
            let ghost players_old = players@;
            players.push(e);
            proof {
                lemma_entry_concat(msg_bytes@, e, off as int);
                lemma_snapshot_step(msg_bytes@, players_old, e, i as int, count_us as int);
            }
            i = i + 1;
        }
        let m = Message::BulkPresenceSnapshot { players };
        proof {
            lemma_entries_bytes_len(players@);
            assert(msg_bytes@.subrange(2, 2 + 23 * count_us as int)
                =~= msg_bytes@.subrange(2, n as int));
            assert(u16_bytes(count as int) == msg_bytes@.subrange(0, 2));
            assert(body_bytes(m) =~= msg_bytes@);
        }
        Ok(m)
    }
}

/// One parsed entry occupies its own 23-byte chunk.
proof fn lemma_entry_concat(body: Seq<u8>, e: PresenceEntry, off: int)
    requires
        0 <= off,
        off + 23 <= body.len(),
        i32_bytes(e.player_id) == body.subrange(off, off + 4),
        state_bytes(e.state) == body.subrange(off + 4, off + 20),
        color_bytes(e.color) == body.subrange(off + 20, off + 23),
    ensures
        entry_bytes(e) == body.subrange(off, off + 23),
{
    reveal(entry_bytes);
    assert(entry_bytes(e) =~= body.subrange(off, off + 23));
}

/// Parsing one more entry extends the parsed prefix by one chunk.
proof fn lemma_snapshot_step(
    body: Seq<u8>,
    players_old: Seq<PresenceEntry>,
    e: PresenceEntry,
    i: int,
    count: int,
)
    requires
        body.len() == 2 + 23 * count,
        0 <= i < count,
        players_old.len() == i,
        entries_bytes(players_old) == body.subrange(2, 2 + 23 * i),
        entry_bytes(e) == body.subrange(2 + 23 * i, 2 + 23 * i + 23),
    ensures
        entries_bytes(players_old.push(e)) == body.subrange(2, 2 + 23 * (i + 1)),
{
    assert(players_old.push(e).drop_last() =~= players_old);
    assert(players_old.push(e).last() == e);
    assert(body.subrange(2, 2 + 23 * (i + 1)) =~= body.subrange(2, 2 + 23 * i)
        + body.subrange(2 + 23 * i, 2 + 23 * i + 23));
}

/// No client-to-server message of this kind has a body of this length.
proof fn lemma_no_match_cs(is_server: bool, id: u16, body: Seq<u8>)
    requires
        is_server,
        id == 1 ==> body.len() != 4,
        id == 2 ==> body.len() != 16,
        1 <= id <= 2,
    ensures
        !(exists|m2: Message| m2.spec_direction() == incoming_direction(is_server)
            && spec_kind_id(m2) == id && encodable(m2) && #[trigger] body_bytes(m2) == body),
{
    assert forall|m2: Message| !(m2.spec_direction() == incoming_direction(is_server)
        && spec_kind_id(m2) == id && encodable(m2) && #[trigger] body_bytes(m2) == body) by {
        match m2 {
            Message::LoginRequest { player_id } => {
                assert(body_bytes(m2).len() == 4);
            }
            Message::MoveIntent { state } => {
                assert(body_bytes(m2).len() == 16);
            }
            _ => {}
        }
    }
}

/// No server-to-client message of this kind, snapshots aside, has a body of
/// this length.
proof fn lemma_no_match_sc(is_server: bool, id: u16, body: Seq<u8>)
    requires
        !is_server,
        id == 1 || id == 2 ==> body.len() != 7,
        id == 3 ==> body.len() != 4,
        id == 4 ==> body.len() != 20,
        1 <= id <= 4,
    ensures
        !(exists|m2: Message| m2.spec_direction() == incoming_direction(is_server)
            && spec_kind_id(m2) == id && encodable(m2) && #[trigger] body_bytes(m2) == body),
{
    assert forall|m2: Message| !(m2.spec_direction() == incoming_direction(is_server)
        && spec_kind_id(m2) == id && encodable(m2) && #[trigger] body_bytes(m2) == body) by {
        match m2 {
            Message::LoginResponse { player_id, color } => {
                assert(body_bytes(m2).len() == 7);
            }
            Message::PlayerEnter { player_id, color } => {
                assert(body_bytes(m2).len() == 7);
            }
            Message::PlayerLeave { player_id } => {
                assert(body_bytes(m2).len() == 4);
            }
            Message::PlayerMove { player_id, state } => {
                assert(body_bytes(m2).len() == 20);
            }
            _ => {}
        }
    }
}

/// No frameable snapshot matches a body whose length disagrees with its
/// count field, or one too short to hold the count.
proof fn lemma_no_snapshot_match(body: Seq<u8>, count: int, has_count: bool)
    requires
        has_count ==> body.len() >= 2 && count == be16(body[0], body[1])
            && (count > 2849 || body.len() != 2 + 23 * count),
        !has_count ==> body.len() < 2,
    ensures
        !(exists|m2: Message| m2.spec_direction() == Direction::ServerToClient
            && spec_kind_id(m2) == 5 && encodable(m2) && #[trigger] body_bytes(m2) == body),
{
    assert forall|m2: Message| !(m2.spec_direction() == Direction::ServerToClient
        && spec_kind_id(m2) == 5 && encodable(m2) && #[trigger] body_bytes(m2) == body) by {
        match m2 {
            Message::BulkPresenceSnapshot { players } => {
                lemma_entries_bytes_len(players@);
                if encodable(m2) && body_bytes(m2) == body {
                    assert(23 * players@.len() + 2 + 4 <= 65535);
                    assert(players@.len() <= 2849) by (nonlinear_arith)
                        requires 23 * players@.len() + 6 <= 65535,
                    ;
                    lemma_u16_bytes_value(players@.len() as int);
                    assert(body.len() == 2 + 23 * players@.len());
                    assert(body[0] == u16_bytes(players@.len() as int)[0]);
                    assert(body[1] == u16_bytes(players@.len() as int)[1]);
                    assert(be16(body[0], body[1]) == players@.len());
                    assert(false);
                }
            }
            _ => {}
        }
    }
}


impl ProtoCodec {
    /// Unframe at most one message from the front of the buffer. With fewer
    /// than four bytes, or fewer than the frame's announced length, nothing
    /// is consumed and more data is asked for. A frame is consumed exactly
    /// when the buffer holds the complete encoding of some message of the
    /// incoming direction; otherwise the reported error names what is wrong
    /// with the frame.
    pub fn decode(&self, buf: &Vec<u8>) -> (r: Result<Decoded, ProtoCodecError>)
        ensures
            match r {
                Ok(Decoded::NeedMoreData) => buf@.len() < 4 || (frame_len_of(buf@) >= 4
                    && buf@.len() < frame_len_of(buf@)),
                Ok(Decoded::Frame(m, consumed)) => {
                    &&& m.spec_direction() == incoming_direction(self.is_server)
                    &&& encodable(m)
                    &&& 4 <= consumed <= buf@.len()
                    &&& consumed as int == frame_len_of(buf@)
                    &&& buf@.subrange(0, consumed as int) == spec_frame(m)
                }
                Err(e) => match e {
                    ProtoCodecError::BadLength => buf@.len() >= 4 && frame_len_of(buf@) < 4,
                    ProtoCodecError::UnknownKind(k) => buf@.len() >= 4
                        && 4 <= frame_len_of(buf@) <= buf@.len()
                        && k as int == kind_of(buf@)
                        && !known_incoming_id(self.is_server, k),
                    ProtoCodecError::BodyMalformed => buf@.len() >= 4
                        && 4 <= frame_len_of(buf@) <= buf@.len()
                        && known_incoming_id(self.is_server, kind_of(buf@) as u16)
                        && !(exists|m2: Message|
                            m2.spec_direction() == incoming_direction(self.is_server)
                            && encodable(m2) && #[trigger] spec_frame(m2)
                                == buf@.subrange(0, frame_len_of(buf@))),
                    _ => false,
                },
            },
    {
        let buf_len = buf.len();
        if buf_len < 4 {
            return Ok(Decoded::NeedMoreData);
        }
        let package_len_u16 = read_u16_at(buf, 0);
        let package_len: usize = package_len_u16 as usize;
        if package_len < 4 {
            return Err(ProtoCodecError::BadLength);
        }
        if buf_len < package_len {
            return Ok(Decoded::NeedMoreData);
        }
        let id = read_u16_at(buf, 2);
        let mut body: Vec<u8> = Vec::new();
        let mut i: usize = 4;
        while i < package_len
            invariant
                4 <= i <= package_len,
                package_len <= buf@.len(),
                body@ == buf@.subrange(4, i as int),
            decreases package_len - i,
        {
            body.push(buf[i]);
            proof {
                assert(body@ =~= buf@.subrange(4, i + 1));
            }
            i = i + 1;
        }
        let ghost prefix = buf@.subrange(0, package_len as int);
        proof {
            assert(body@ =~= prefix.subrange(4, package_len as int));
            assert(u16_bytes(package_len as int) == prefix.subrange(0, 2)) by {
                assert(u16_bytes(package_len as int) =~= buf@.subrange(0, 2));
                assert(buf@.subrange(0, 2) =~= prefix.subrange(0, 2));
            }
            assert(u16_bytes(id as int) == prefix.subrange(2, 4)) by {
                assert(u16_bytes(id as int) =~= buf@.subrange(2, 4));
                assert(buf@.subrange(2, 4) =~= prefix.subrange(2, 4));
            }
        }
        match self.parse_proto(id, &body) {
            Ok(m) => {
                proof {
                    assert(spec_frame(m) =~= prefix);
                }
                Ok(Decoded::Frame(m, package_len))
            }
            Err(e) => {
                proof {
                    if e == ProtoCodecError::BodyMalformed {
                        assert forall|m2: Message| !(m2.spec_direction()
                            == incoming_direction(self.is_server) && encodable(m2)
                            && #[trigger] spec_frame(m2) == prefix) by {
                            if m2.spec_direction() == incoming_direction(self.is_server)
                                && encodable(m2) && spec_frame(m2) == prefix {
                                let l2 = body_bytes(m2).len() as int + 4;
                                lemma_u16_bytes_value(l2);
                                assert(spec_frame(m2).subrange(0, 2) =~= u16_bytes(l2));
                                assert(be16(prefix[0], prefix[1]) == l2);
                                assert(be16(prefix[0], prefix[1]) == package_len as int);
                                lemma_u16_bytes_value(spec_kind_id(m2) as int);
                                assert(spec_frame(m2).subrange(2, 4)
                                    =~= u16_bytes(spec_kind_id(m2) as int));
                                assert(be16(prefix[2], prefix[3]) == spec_kind_id(m2) as int);
                                assert(be16(prefix[2], prefix[3]) == id as int);
                                assert(body_bytes(m2) =~= spec_frame(m2).subrange(4, l2));
                                assert(body_bytes(m2) == body@);
                            }
                        }
                    }
                }
                match e {
                    ProtoCodecError::UnknownKind(k) => Err(ProtoCodecError::UnknownKind(k)),
                    ProtoCodecError::BodyMalformed => Err(ProtoCodecError::BodyMalformed),
                    _ => {
                        proof {
                            assert(false);
                        }
                        Err(e)
                    }
                }
            }
        }
    }
}

/// Two equal four-byte runs carry one value.
proof fn lemma_i32_bytes_injective(x1: i32, x2: i32)
    requires
        i32_bytes(x1) == i32_bytes(x2),
    ensures
        x1 == x2,
{
    lemma_i32_bytes_value(x1);
    lemma_i32_bytes_value(x2);
}

/// Two equal sixteen-byte runs carry one state.
proof fn lemma_state_bytes_injective(s1: PlayerState, s2: PlayerState)
    requires
        state_bytes(s1) == state_bytes(s2),
    ensures
        s1 == s2,
{
    assert(i32_bytes(s1.x) =~= state_bytes(s1).subrange(0, 4));
    assert(i32_bytes(s2.x) =~= state_bytes(s2).subrange(0, 4));
    assert(i32_bytes(s1.y) =~= state_bytes(s1).subrange(4, 8));
    assert(i32_bytes(s2.y) =~= state_bytes(s2).subrange(4, 8));
    assert(i32_bytes(s1.speed) =~= state_bytes(s1).subrange(8, 12));
    assert(i32_bytes(s2.speed) =~= state_bytes(s2).subrange(8, 12));
    assert(i32_bytes(s1.heading) =~= state_bytes(s1).subrange(12, 16));
    assert(i32_bytes(s2.heading) =~= state_bytes(s2).subrange(12, 16));
    lemma_i32_bytes_injective(s1.x, s2.x);
    lemma_i32_bytes_injective(s1.y, s2.y);
    lemma_i32_bytes_injective(s1.speed, s2.speed);
    lemma_i32_bytes_injective(s1.heading, s2.heading);
}

/// Two equal 23-byte runs carry one presence entry.
proof fn lemma_entry_bytes_injective(e1: PresenceEntry, e2: PresenceEntry)
    requires
        entry_bytes(e1) == entry_bytes(e2),
    ensures
        e1 == e2,
{
    reveal(entry_bytes);
    assert(i32_bytes(e1.player_id) =~= entry_bytes(e1).subrange(0, 4));
    assert(i32_bytes(e2.player_id) =~= entry_bytes(e2).subrange(0, 4));
    assert(state_bytes(e1.state) =~= entry_bytes(e1).subrange(4, 20));
    assert(state_bytes(e2.state) =~= entry_bytes(e2).subrange(4, 20));
    assert(color_bytes(e1.color) =~= entry_bytes(e1).subrange(20, 23));
    assert(color_bytes(e2.color) =~= entry_bytes(e2).subrange(20, 23));
    lemma_i32_bytes_injective(e1.player_id, e2.player_id);
    lemma_state_bytes_injective(e1.state, e2.state);
    assert(color_bytes(e1.color)[0] == color_bytes(e2.color)[0]);
    assert(color_bytes(e1.color)[1] == color_bytes(e2.color)[1]);
    assert(color_bytes(e1.color)[2] == color_bytes(e2.color)[2]);
}

/// Splitting one equality of concatenations at a common length.
proof fn lemma_concat_split(a: Seq<u8>, b: Seq<u8>, c: Seq<u8>, d: Seq<u8>)
    requires
        a + b == c + d,
        a.len() == c.len(),
    ensures
        a == c,
        b == d,
{
    assert((a + b).len() == a.len() + b.len());
    assert((c + d).len() == c.len() + d.len());
    assert(b.len() == d.len());
    assert forall|i: int| 0 <= i < a.len() implies a[i] == c[i] by {
        assert((a + b)[i] == a[i]);
        assert((c + d)[i] == c[i]);
        assert((a + b)[i] == (c + d)[i]);
    }
    assert(a =~= c);
    assert forall|i: int| 0 <= i < b.len() implies b[i] == d[i] by {
        assert((a + b)[a.len() + i] == b[i]);
        assert((c + d)[c.len() + i] == d[i]);
        assert((a + b)[a.len() + i] == (c + d)[c.len() + i]);
    }
    assert(b =~= d);
}

/// Two equal entry runs of one length carry one entry list.
proof fn lemma_entries_bytes_injective(s1: Seq<PresenceEntry>, s2: Seq<PresenceEntry>)
    requires
        s1.len() == s2.len(),
        entries_bytes(s1) == entries_bytes(s2),
    ensures
        s1 == s2,
    decreases s1.len(),
{
    if s1.len() > 0 {
        assert(entries_bytes(s1) == entries_bytes(s1.drop_last()) + entry_bytes(s1.last()));
        assert(entries_bytes(s2) == entries_bytes(s2.drop_last()) + entry_bytes(s2.last()));
        lemma_entries_bytes_len(s1.drop_last());
        lemma_entries_bytes_len(s2.drop_last());
        lemma_concat_split(entries_bytes(s1.drop_last()), entry_bytes(s1.last()),
            entries_bytes(s2.drop_last()), entry_bytes(s2.last()));
        lemma_entries_bytes_injective(s1.drop_last(), s2.drop_last());
        lemma_entry_bytes_injective(s1.last(), s2.last());
        assert forall|k: int| 0 <= k < s1.len() implies s1[k] == s2[k] by {
            if k < s1.len() - 1 {
                assert(s1[k] == s1.drop_last()[k]);
                assert(s2[k] == s2.drop_last()[k]);
            } else {
                assert(s1[k] == s1.last());
                assert(s2[k] == s2.last());
            }
        }
        assert(s1 =~= s2);
    } else {
        assert(s1 =~= s2);
    }
}

/// A frame carries its kind id and its body recoverably.
proof fn lemma_frame_fields(m1: Message, m2: Message)
    requires
        encodable(m1),
        encodable(m2),
        spec_frame(m1) == spec_frame(m2),
    ensures
        spec_kind_id(m1) == spec_kind_id(m2),
        body_bytes(m1) == body_bytes(m2),
{
    let l1 = body_bytes(m1).len() as int + 4;
    let l2 = body_bytes(m2).len() as int + 4;
    lemma_u16_bytes_value(l1);
    lemma_u16_bytes_value(l2);
    assert(u16_bytes(l1) =~= spec_frame(m1).subrange(0, 2));
    assert(u16_bytes(l2) =~= spec_frame(m2).subrange(0, 2));
    assert(be16(spec_frame(m1)[0], spec_frame(m1)[1]) == l1);
    assert(be16(spec_frame(m2)[0], spec_frame(m2)[1]) == l2);
    assert(l1 == l2);
    lemma_u16_bytes_value(spec_kind_id(m1) as int);
    lemma_u16_bytes_value(spec_kind_id(m2) as int);
    assert(u16_bytes(spec_kind_id(m1) as int) =~= spec_frame(m1).subrange(2, 4));
    assert(u16_bytes(spec_kind_id(m2) as int) =~= spec_frame(m2).subrange(2, 4));
    assert(spec_kind_id(m1) == spec_kind_id(m2));
    assert(body_bytes(m1) =~= spec_frame(m1).subrange(4, l1));
    assert(body_bytes(m2) =~= spec_frame(m2).subrange(4, l2));
    assert(body_bytes(m1) == body_bytes(m2));
}

/// An id-and-color body determines its fields.
proof fn lemma_id_color_inj(p1: i32, c1: Color, p2: i32, c2: Color)
    requires
        i32_bytes(p1) + color_bytes(c1) == i32_bytes(p2) + color_bytes(c2),
    ensures
        p1 == p2,
        c1 == c2,
{
    lemma_concat_split(i32_bytes(p1), color_bytes(c1), i32_bytes(p2), color_bytes(c2));
    lemma_i32_bytes_injective(p1, p2);
    assert(color_bytes(c1)[0] == color_bytes(c2)[0]);
    assert(color_bytes(c1)[1] == color_bytes(c2)[1]);
    assert(color_bytes(c1)[2] == color_bytes(c2)[2]);
}

/// An id-and-state body determines its fields.
proof fn lemma_id_state_inj(p1: i32, s1: PlayerState, p2: i32, s2: PlayerState)
    requires
        i32_bytes(p1) + state_bytes(s1) == i32_bytes(p2) + state_bytes(s2),
    ensures
        p1 == p2,
        s1 == s2,
{
    lemma_concat_split(i32_bytes(p1), state_bytes(s1), i32_bytes(p2), state_bytes(s2));
    lemma_i32_bytes_injective(p1, p2);
    lemma_state_bytes_injective(s1, s2);
}

/// A snapshot body determines its entry list.
proof fn lemma_snapshot_body_inj(v1: Seq<PresenceEntry>, v2: Seq<PresenceEntry>)
    requires
        v1.len() <= 2849,
        v2.len() <= 2849,
        u16_bytes(v1.len() as int) + entries_bytes(v1) == u16_bytes(v2.len() as int)
            + entries_bytes(v2),
    ensures
        v1 == v2,
{
    lemma_concat_split(u16_bytes(v1.len() as int), entries_bytes(v1),
        u16_bytes(v2.len() as int), entries_bytes(v2));
    lemma_u16_bytes_value(v1.len() as int);
    lemma_u16_bytes_value(v2.len() as int);
    assert(be16(u16_bytes(v1.len() as int)[0], u16_bytes(v1.len() as int)[1]) == v1.len());
    assert(be16(u16_bytes(v2.len() as int)[0], u16_bytes(v2.len() as int)[1]) == v2.len());
    lemma_entries_bytes_injective(v1, v2);
}

/// Law: a frame determines its message. Two encodable messages of one
/// direction with one and the same frame are the same message, a snapshot's
/// entry list compared by contents.
pub proof fn lemma_frame_injective(m1: Message, m2: Message)
    requires
        m1.spec_direction() == m2.spec_direction(),
        encodable(m1),
        encodable(m2),
        spec_frame(m1) == spec_frame(m2),
    ensures
        m1.equiv(m2),
{
    lemma_frame_fields(m1, m2);
    match (m1, m2) {
        (Message::LoginRequest { player_id: p1 }, Message::LoginRequest { player_id: p2 }) => {
            lemma_i32_bytes_injective(p1, p2);
        }
        (Message::MoveIntent { state: s1 }, Message::MoveIntent { state: s2 }) => {
            lemma_state_bytes_injective(s1, s2);
        }
        (
            Message::LoginResponse { player_id: p1, color: c1 },
            Message::LoginResponse { player_id: p2, color: c2 },
        ) => {
            lemma_id_color_inj(p1, c1, p2, c2);
        }
        (
            Message::PlayerEnter { player_id: p1, color: c1 },
            Message::PlayerEnter { player_id: p2, color: c2 },
        ) => {
            lemma_id_color_inj(p1, c1, p2, c2);
        }
        (Message::PlayerLeave { player_id: p1 }, Message::PlayerLeave { player_id: p2 }) => {
            lemma_i32_bytes_injective(p1, p2);
        }
        (
            Message::PlayerMove { player_id: p1, state: s1 },
            Message::PlayerMove { player_id: p2, state: s2 },
        ) => {
            lemma_id_state_inj(p1, s1, p2, s2);
        }
        (
            Message::BulkPresenceSnapshot { players: v1 },
            Message::BulkPresenceSnapshot { players: v2 },
        ) => {
            lemma_entries_bytes_len(v1@);
            lemma_entries_bytes_len(v2@);
            lemma_snapshot_body_inj(v1@, v2@);
        }
        _ => {
            assert(false);
        }
    }
}

/// Law (round trip): decoding what `encode` produced gives the original
/// message back, and consumes the whole frame. The hypotheses are exactly
/// what `encode` ensures of its output and what `decode` ensures of a
/// `Frame` result on that output.
pub proof fn lemma_round_trip(m: Message, m2: Message, consumed: int, bytes: Seq<u8>)
    requires
        encodable(m),
        bytes == spec_frame(m),
        m2.spec_direction() == m.spec_direction(),
        encodable(m2),
        consumed == frame_len_of(bytes),
        bytes.subrange(0, consumed) == spec_frame(m2),
    ensures
        m2.equiv(m),
        consumed == bytes.len(),
{
    let l = body_bytes(m).len() as int + 4;
    lemma_u16_bytes_value(l);
    assert(u16_bytes(l) =~= bytes.subrange(0, 2));
    assert(be16(bytes[0], bytes[1]) == l);
    assert(bytes.len() == l);
    assert(bytes.subrange(0, consumed) =~= bytes);
    lemma_frame_injective(m2, m);
}

} // verus!



