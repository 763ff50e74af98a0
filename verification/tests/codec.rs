use gridworld::codec::{ProtoCodec, ProtoCodecError, Decoded};
use gridworld::message::{Color, PlayerState, PresenceEntry, Message};

fn sample_state() -> PlayerState {
    PlayerState { x: -37, y: 1021, speed: 4, heading: 270 }
}

fn sample_color() -> Color {
    Color { r: 10, g: 200, b: 33 }
}

fn round_trip(encoder_is_server: bool, m: Message) {
    let enc = ProtoCodec::new(encoder_is_server);
    let dec = ProtoCodec::new(!encoder_is_server);
    let bytes = enc.encode(&m).expect("encode");
    match dec.decode(&bytes).expect("decode") {
        Decoded::Frame(m2, consumed) => {
            assert_eq!(m2, m);
            assert_eq!(consumed, bytes.len());
        }
        Decoded::NeedMoreData => panic!("full frame not decoded"),
    }
}

#[test]
fn round_trip_every_kind() {
    round_trip(false, Message::LoginRequest { player_id: 77 });
    round_trip(false, Message::MoveIntent { state: sample_state() });
    round_trip(true, Message::LoginResponse { player_id: 77, color: sample_color() });
    round_trip(true, Message::PlayerEnter { player_id: -5, color: sample_color() });
    round_trip(true, Message::PlayerLeave { player_id: i32::MIN });
    round_trip(true, Message::PlayerMove { player_id: i32::MAX, state: sample_state() });
    round_trip(
        true,
        Message::BulkPresenceSnapshot {
            players: vec![
                PresenceEntry { player_id: 1, state: sample_state(), color: sample_color() },
                PresenceEntry {
                    player_id: -2,
                    state: PlayerState { x: 0, y: 0, speed: 0, heading: 0 },
                    color: Color { r: 255, g: 0, b: 255 },
                },
            ],
        },
    );
    round_trip(true, Message::BulkPresenceSnapshot { players: vec![] });
}

#[test]
fn reencode_is_canonical() {
    // encode(decode(bytes)) == bytes for a frame that came off the wire
    let enc = ProtoCodec::new(true);
    let dec = ProtoCodec::new(false);
    let m = Message::PlayerMove { player_id: 9, state: sample_state() };
    let bytes = enc.encode(&m).expect("encode");
    // a decoder consumes only one frame and ignores what follows
    let mut padded = bytes.clone();
    padded.extend_from_slice(&[1, 2, 3]);
    match dec.decode(&padded).expect("decode") {
        Decoded::Frame(m2, consumed) => {
            assert_eq!(consumed, bytes.len());
            let again = enc.encode(&m2).expect("re-encode");
            assert_eq!(again, bytes);
        }
        Decoded::NeedMoreData => panic!("full frame not decoded"),
    }
}

#[test]
fn need_more_data_consumes_nothing() {
    let dec = ProtoCodec::new(true);
    assert_eq!(dec.decode(&vec![]).expect("short"), Decoded::NeedMoreData);
    assert_eq!(dec.decode(&vec![0, 8, 0]).expect("short"), Decoded::NeedMoreData);
    // length announces 8 bytes, only 5 buffered
    assert_eq!(dec.decode(&vec![0, 8, 0, 1, 0]).expect("short"), Decoded::NeedMoreData);
}

#[test]
fn bad_length_is_fatal() {
    let dec = ProtoCodec::new(true);
    assert_eq!(dec.decode(&vec![0, 3, 0, 1, 0]).unwrap_err(), ProtoCodecError::BadLength);
}

#[test]
fn unknown_kind_is_reported() {
    let dec = ProtoCodec::new(true);
    // a complete 4-byte frame whose kind id 9 is in neither space
    assert_eq!(dec.decode(&vec![0, 4, 0, 9]).unwrap_err(), ProtoCodecError::UnknownKind(9));
    // kind 3 exists only server-to-client; a server must refuse it
    assert_eq!(dec.decode(&vec![0, 4, 0, 3]).unwrap_err(), ProtoCodecError::UnknownKind(3));
}

#[test]
fn malformed_body_is_reported() {
    let dec = ProtoCodec::new(true);
    // LoginRequest takes a 4-byte body; this frame carries 2 bytes
    assert_eq!(
        dec.decode(&vec![0, 6, 0, 1, 170, 170]).unwrap_err(),
        ProtoCodecError::BodyMalformed
    );
}

#[test]
fn wrong_direction_is_refused() {
    let server = ProtoCodec::new(true);
    let client = ProtoCodec::new(false);
    let cs = Message::LoginRequest { player_id: 4 };
    let sc = Message::PlayerLeave { player_id: 4 };
    assert_eq!(server.encode(&cs).unwrap_err(), ProtoCodecError::WrongDirection);
    assert_eq!(client.encode(&sc).unwrap_err(), ProtoCodecError::WrongDirection);
    assert!(server.encode(&sc).is_ok());
    assert!(client.encode(&cs).is_ok());
}

#[test]
fn oversized_snapshot_is_refused() {
    let server = ProtoCodec::new(true);
    let entry = PresenceEntry { player_id: 0, state: sample_state(), color: sample_color() };
    let m = Message::BulkPresenceSnapshot { players: vec![entry; 2850] };
    assert_eq!(server.encode(&m).unwrap_err(), ProtoCodecError::TooLong);
    let m_ok = Message::BulkPresenceSnapshot { players: vec![entry; 2849] };
    assert!(server.encode(&m_ok).is_ok());
}

#[test]
fn frame_layout_is_stable() {
    // 2-byte big-endian total length, 2-byte big-endian kind id, body
    let client = ProtoCodec::new(false);
    let bytes = client.encode(&Message::LoginRequest { player_id: 1 }).expect("encode");
    assert_eq!(bytes.len(), 8);
    assert_eq!(&bytes[..4], &[0, 8, 0, 1]);
    // the body carries the id in offset form: 1 + 2^31
    assert_eq!(&bytes[4..], &[128, 0, 0, 1]);
}

#[test]
fn proto_ids_are_per_direction() {
    let server = ProtoCodec::new(true);
    let client = ProtoCodec::new(false);
    assert_eq!(client.get_proto_id(&Message::LoginRequest { player_id: 0 }).unwrap(), 1);
    assert_eq!(client.get_proto_id(&Message::MoveIntent { state: sample_state() }).unwrap(), 2);
    assert_eq!(
        server.get_proto_id(&Message::LoginResponse { player_id: 0, color: sample_color() })
            .unwrap(),
        1
    );
    assert_eq!(
        server.get_proto_id(&Message::PlayerEnter { player_id: 0, color: sample_color() })
            .unwrap(),
        2
    );
    assert_eq!(server.get_proto_id(&Message::PlayerLeave { player_id: 0 }).unwrap(), 3);
    assert_eq!(
        server.get_proto_id(&Message::PlayerMove { player_id: 0, state: sample_state() })
            .unwrap(),
        4
    );
    assert_eq!(
        server.get_proto_id(&Message::BulkPresenceSnapshot { players: vec![] }).unwrap(),
        5
    );
}

#[test]
fn parse_proto_rebuilds_a_body() {
    let server = ProtoCodec::new(true);
    let client = ProtoCodec::new(false);
    let m = Message::MoveIntent { state: sample_state() };
    let frame = client.encode(&m).expect("encode");
    let body = frame[4..].to_vec();
    assert_eq!(server.parse_proto(2, &body).expect("parse"), m);
}

#[test]
fn snapshot_count_must_match_the_body() {
    let client = ProtoCodec::new(false);
    // kind 5 with a count of 2 but room for no entry
    let frame = vec![0, 6, 0, 5, 0, 2];
    assert_eq!(client.decode(&frame).unwrap_err(), ProtoCodecError::BodyMalformed);
    // a count of 0 with a trailing byte is not canonical either
    let frame2 = vec![0, 7, 0, 5, 0, 0, 9];
    assert_eq!(client.decode(&frame2).unwrap_err(), ProtoCodecError::BodyMalformed);
}
