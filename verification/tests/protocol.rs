use snowglobe::scene::Scene;
use snowglobe::scene::process_client_message;
use snowglobe::wire::ClientMessage;
use snowglobe::wire::Command;
use snowglobe::wire::DecodeError;
use snowglobe::wire::Point;
use snowglobe::wire::Update;
use snowglobe::wire::decode_client_message;
use snowglobe::wire::decode_command;
use snowglobe::wire::encode_client_message;
use snowglobe::wire::encode_command;

fn point(x: f32, y: f32, z: f32) -> Point {
    Point { x: x.to_bits(), y: y.to_bits(), z: z.to_bits() }
}

#[test]
fn command_round_trip() {
    let c = Command::Move(point(1.5, -2.25, 0.0));
    let bytes = encode_command(&c);
    assert_eq!(bytes.len(), 13);
    assert_eq!(decode_command(&bytes), Ok(c));
}

#[test]
fn command_round_trip_nan_bits() {
    // a NaN with payload: the bit pattern must survive unchanged
    let c = Command::Move(Point { x: 0x7fc0_1234, y: 0xff80_0000, z: 0x8000_0000 });
    let bytes = encode_command(&c);
    assert_eq!(decode_command(&bytes), Ok(c));
}

#[test]
fn command_truncated() {
    let c = Command::Move(point(1.0, 2.0, 3.0));
    let mut bytes = encode_command(&c);
    bytes.truncate(7);
    assert_eq!(decode_command(&bytes), Err(DecodeError::Truncated));
    assert_eq!(decode_command(&[]), Err(DecodeError::Truncated));
}

#[test]
fn command_trailing_bytes() {
    let c = Command::Move(point(1.0, 2.0, 3.0));
    let mut bytes = encode_command(&c);
    bytes.push(0);
    assert_eq!(decode_command(&bytes), Err(DecodeError::TrailingBytes));
}

#[test]
fn command_unknown_tag() {
    let c = Command::Move(point(1.0, 2.0, 3.0));
    let mut bytes = encode_command(&c);
    bytes[0] = 9;
    assert_eq!(decode_command(&bytes), Err(DecodeError::UnknownTag));
}

#[test]
fn message_round_trip() {
    let m = ClientMessage {
        updates: vec![
            Update::EntityAlive {
                identity: 7,
                location: point(0.5, -1.0, 3.25),
                appearance: String::from("simple"),
            },
            Update::EntityDead { identity: 12 },
            Update::EntityAlive {
                identity: u64::MAX,
                location: point(-0.0, f32::MAX, f32::MIN_POSITIVE),
                appearance: String::from("sn\u{f6}wgl\u{f8}be \u{2603}"),
            },
        ],
    };
    let bytes = encode_client_message(&m);
    assert_eq!(decode_client_message(&bytes), Ok(m));
}

#[test]
fn message_round_trip_empty() {
    let m = ClientMessage { updates: Vec::new() };
    let bytes = encode_client_message(&m);
    assert_eq!(bytes.len(), 0);
    assert_eq!(decode_client_message(&bytes), Ok(m));
}

#[test]
fn message_truncated() {
    let m = ClientMessage {
        updates: vec![Update::EntityAlive {
            identity: 1,
            location: point(0.0, 0.0, 0.0),
            appearance: String::from("a"),
        }],
    };
    let mut bytes = encode_client_message(&m);
    bytes.pop();
    assert_eq!(decode_client_message(&bytes), Err(DecodeError::Truncated));
}

#[test]
fn message_unknown_tag_skips_whole_datagram() {
    let m = ClientMessage {
        updates: vec![Update::EntityDead { identity: 1 }, Update::EntityDead { identity: 2 }],
    };
    let mut bytes = encode_client_message(&m);
    // corrupt the second record's tag: the whole datagram is rejected
    bytes[9] = 250;
    assert_eq!(decode_client_message(&bytes), Err(DecodeError::UnknownTag));
}

#[test]
fn message_bad_utf8() {
    let m = ClientMessage {
        updates: vec![Update::EntityAlive {
            identity: 1,
            location: point(0.0, 0.0, 0.0),
            appearance: String::from("ab"),
        }],
    };
    let mut bytes = encode_client_message(&m);
    let n = bytes.len();
    bytes[n - 2] = 0xff;
    assert_eq!(decode_client_message(&bytes), Err(DecodeError::BadUtf8));
}

#[test]
fn scene_apply_is_idempotent() {
    let mut once = Scene::new();
    let mut twice = Scene::new();
    let up = Update::EntityAlive {
        identity: 3,
        location: point(1.0, 2.0, 3.0),
        appearance: String::from("simple"),
    };
    once.apply_update(&up);
    twice.apply_update(&up);
    twice.apply_update(&up);
    assert_eq!(once.len(), 1);
    assert_eq!(twice.len(), 1);
    let a = once.get(3).unwrap();
    let b = twice.get(3).unwrap();
    assert_eq!(a.location, b.location);
    assert_eq!(a.appearance, b.appearance);
}

#[test]
fn scene_dead_wins_within_one_message() {
    // scenario: an alive and a dead record for one identity in one message
    let mut scene = Scene::new();
    let m = ClientMessage {
        updates: vec![
            Update::EntityAlive {
                identity: 1,
                location: point(0.0, 0.0, 0.0),
                appearance: String::from("a"),
            },
            Update::EntityDead { identity: 1 },
        ],
    };
    scene.apply_message(&m);
    assert_eq!(scene.len(), 0);
    assert!(scene.get(1).is_none());
}

#[test]
fn scene_last_write_wins_within_one_message() {
    let mut scene = Scene::new();
    let m = ClientMessage {
        updates: vec![
            Update::EntityAlive {
                identity: 1,
                location: point(0.0, 0.0, 0.0),
                appearance: String::from("a"),
            },
            Update::EntityAlive {
                identity: 1,
                location: point(4.0, 5.0, 6.0),
                appearance: String::from("b"),
            },
        ],
    };
    scene.apply_message(&m);
    assert_eq!(scene.len(), 1);
    let e = scene.get(1).unwrap();
    assert_eq!(e.location, point(4.0, 5.0, 6.0));
    assert_eq!(e.appearance, "b");
}

#[test]
fn scene_rejects_partial_application() {
    let mut scene = Scene::new();
    let m = ClientMessage {
        updates: vec![
            Update::EntityAlive {
                identity: 1,
                location: point(0.0, 0.0, 0.0),
                appearance: String::from("a"),
            },
            Update::EntityDead { identity: 2 },
        ],
    };
    let mut bytes = encode_client_message(&m);
    // corrupt the second record: nothing of the message may be applied
    let n = bytes.len();
    bytes[n - 9] = 77;
    let r = process_client_message(&mut scene, &bytes);
    assert_eq!(r, Err(DecodeError::UnknownTag));
    assert_eq!(scene.len(), 0);

    // the intact datagram then applies fully
    let good = encode_client_message(&m);
    assert_eq!(process_client_message(&mut scene, &good), Ok(()));
    assert_eq!(scene.len(), 1);
    assert!(scene.get(1).is_some());
}
