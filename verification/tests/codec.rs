use netsync::math::{Vec2Bits, Vec3Bits, Vec4Bits};
use netsync::network::{PlayerPose, PlayerSignal, Reason, ResponseSignal, ServerResponse};
use netsync::objects::{NetworkObject, ObjectKind};
use netsync::session::{JoinResponse, JoinSessionRequest, NewSessionRequest, ServerRequest};
use netsync::wire::{frame_length, frame_message, WireError};

fn sample_snapshot() -> ResponseSignal {
    ResponseSignal {
        translation: Vec3Bits::new(0x3f800000, 0x40000000, 0x40400000),
        camera_pos: Vec3Bits::new(1, 2, 3),
        camera_target: Vec3Bits::new(4, 5, 6),
        fwd: Vec3Bits::new(0, 0, 0x3f800000),
        right: Vec3Bits::new(0x3f800000, 0, 0),
        players: vec![
            PlayerPose {
                translation: Vec3Bits::new(7, 8, 9),
                camera_pos: Vec3Bits::new(10, 11, 12),
                camera_target: Vec3Bits::new(13, 14, 15),
            },
        ],
        objects: vec![
            NetworkObject {
                position: Vec3Bits::new(16, 17, 18),
                rotation: Vec4Bits::new(19, 20, 21, 22),
                id: 7,
                kind: ObjectKind::Ball,
            },
            NetworkObject {
                position: Vec3Bits::new(23, 24, 25),
                rotation: Vec4Bits::new(26, 27, 28, 29),
                id: 8,
                kind: ObjectKind::Ring,
            },
        ],
    }
}

#[test]
fn new_session_request_round_trip() {
    let req = NewSessionRequest::new("room1", "pw");
    assert_eq!(req.player_limit, 8);
    let msg = ServerRequest::NewSession(req);
    let bytes = msg.to_bytes();
    let back = ServerRequest::from_bytes(&bytes).unwrap();
    assert_eq!(back, msg);
}

#[test]
fn join_session_request_round_trip() {
    let msg = ServerRequest::JoinSession(JoinSessionRequest::new("alpha", "secret"));
    let bytes = msg.to_bytes();
    let back = ServerRequest::from_bytes(&bytes).unwrap();
    assert_eq!(back, msg);
}

#[test]
fn new_session_request_exact_bytes() {
    let msg = ServerRequest::NewSession(NewSessionRequest::new("ab", "c"));
    let bytes = msg.to_bytes();
    assert_eq!(bytes, vec![0x1, 2, b'a', b'b', 1, b'c', 8]);
}

#[test]
fn join_session_request_exact_bytes() {
    let msg = ServerRequest::JoinSession(JoinSessionRequest::new("alpha", "secret"));
    let bytes = msg.to_bytes();
    assert_eq!(
        bytes,
        vec![0x2, 5, b'a', b'l', b'p', b'h', b'a', 6, b's', b'e', b'c', b'r', b'e', b't']
    );
}

#[test]
fn server_request_bad_discriminant() {
    let bytes = vec![0x3, 0, 0];
    assert_eq!(
        ServerRequest::from_bytes(&bytes),
        Err(WireError::MalformedMessage)
    );
}

#[test]
fn server_request_trailing_bytes_rejected() {
    let msg = ServerRequest::JoinSession(JoinSessionRequest::new("a", "b"));
    let mut bytes = msg.to_bytes();
    bytes.push(0);
    assert_eq!(
        ServerRequest::from_bytes(&bytes),
        Err(WireError::MalformedMessage)
    );
}

#[test]
fn player_signal_round_trip() {
    let sig = PlayerSignal::new(
        Vec3Bits::new(0x3f800000, 0, 0xbf800000),
        Vec2Bits::new(0x40490fdb, 0x3ea8f5c3),
        0x41200000,
    );
    let bytes = sig.to_bytes();
    assert_eq!(bytes.len(), 24);
    let back = PlayerSignal::from_bytes(&bytes).unwrap();
    assert_eq!(back, sig);
}

#[test]
fn player_signal_truncated_rejected() {
    let sig = PlayerSignal::new(Vec3Bits::zero(), Vec2Bits::new(0, 0), 0);
    let bytes = sig.to_bytes();
    assert_eq!(
        PlayerSignal::from_bytes(&bytes[..bytes.len() - 1].to_vec()),
        Err(WireError::MalformedMessage)
    );
}

#[test]
fn snapshot_round_trip() {
    let snap = sample_snapshot();
    let bytes = snap.to_bytes();
    let back = ResponseSignal::from_bytes(&bytes).unwrap();
    assert_eq!(back, snap);
}

#[test]
fn snapshot_counts_match_list_lengths() {
    let snap = sample_snapshot();
    let bytes = snap.to_bytes();
    assert_eq!(bytes[0] as usize, snap.players.len());
    assert_eq!(bytes[1] as usize, snap.objects.len());
}

#[test]
fn snapshot_falsified_count_rejected() {
    let snap = sample_snapshot();
    let mut bytes = snap.to_bytes();
    // Claim three objects while only two follow: malformed, never partial.
    bytes[1] = 3;
    assert_eq!(
        ResponseSignal::from_bytes(&bytes),
        Err(WireError::MalformedMessage)
    );
}

#[test]
fn snapshot_truncated_rejected() {
    let snap = sample_snapshot();
    let bytes = snap.to_bytes();
    for cut in 0..bytes.len() {
        assert_eq!(
            ResponseSignal::from_bytes(&bytes[..cut].to_vec()),
            Err(WireError::MalformedMessage)
        );
    }
}

#[test]
fn server_response_accepted_round_trip() {
    let msg = ServerResponse::Accepted(sample_snapshot());
    let bytes = msg.to_bytes();
    assert_eq!(bytes[0], 0x1);
    let back = ServerResponse::from_bytes(&bytes).unwrap();
    assert_eq!(back, msg);
}

#[test]
fn server_response_rejection_round_trip_all_reasons() {
    let reasons = [
        Reason::IdInUse,
        Reason::InvalidRequestFormat,
        Reason::InvalidIdFormat,
        Reason::InvalidPassword,
        Reason::IdDoesntExist,
        Reason::WrongPassword,
    ];
    for (i, reason) in reasons.iter().enumerate() {
        let msg = ServerResponse::InvalidRequest(*reason);
        let bytes = msg.to_bytes();
        assert_eq!(bytes, vec![0x2, (i + 1) as u8]);
        let back = ServerResponse::from_bytes(&bytes).unwrap();
        assert_eq!(back, msg);
    }
}

#[test]
fn server_response_bad_reason_code() {
    assert_eq!(
        ServerResponse::from_bytes(&vec![0x2, 0x7]),
        Err(WireError::MalformedMessage)
    );
    assert_eq!(
        ServerResponse::from_bytes(&vec![0x2, 0x0]),
        Err(WireError::MalformedMessage)
    );
}

#[test]
fn server_response_bad_discriminant() {
    assert_eq!(
        ServerResponse::from_bytes(&vec![0x0]),
        Err(WireError::MalformedMessage)
    );
    assert_eq!(
        ServerResponse::from_bytes(&vec![]),
        Err(WireError::MalformedMessage)
    );
}

#[test]
fn join_response_round_trip() {
    for v in [JoinResponse::Accepted, JoinResponse::WrongPassword] {
        let bytes = v.to_bytes();
        assert_eq!(JoinResponse::from_bytes(&bytes).unwrap(), v);
    }
    assert_eq!(
        JoinResponse::from_bytes(&vec![0x3]),
        Err(WireError::MalformedMessage)
    );
}

#[test]
fn frame_round_trip() {
    let payload = ServerRequest::JoinSession(JoinSessionRequest::new("x", "y")).to_bytes();
    let framed = frame_message(&payload);
    assert_eq!(framed.len(), payload.len() + 2);
    let n = frame_length(framed[0], framed[1]);
    assert_eq!(n as usize, payload.len());
    assert_eq!(&framed[2..], &payload[..]);
}

#[test]
fn frame_length_little_endian() {
    assert_eq!(frame_length(0x34, 0x12), 0x1234);
    assert_eq!(frame_length(0xff, 0x00), 255);
}

#[test]
fn default_snapshot_is_empty_origin() {
    let snap = ResponseSignal::default();
    assert_eq!(snap.translation, Vec3Bits::new(0, 0, 0));
    assert_eq!(snap.fwd, Vec3Bits::new(0, 0, 0x3f800000));
    assert_eq!(snap.right, Vec3Bits::new(0, 0, 0x3f800000));
    assert!(snap.players.is_empty());
    assert!(snap.objects.is_empty());
    let bytes = snap.to_bytes();
    let back = ResponseSignal::from_bytes(&bytes).unwrap();
    assert_eq!(back, snap);
}

#[test]
fn reason_messages() {
    assert_eq!(Reason::IdInUse.to_string(), "The given ID is already in use.");
    assert_eq!(Reason::InvalidRequestFormat.to_string(), "The request is invalid.");
    assert_eq!(Reason::InvalidIdFormat.to_string(), "The given ID is invalid");
    assert_eq!(Reason::InvalidPassword.to_string(), "The given password is invalid");
    assert_eq!(
        Reason::IdDoesntExist.to_string(),
        "There is no session with the given ID"
    );
    assert_eq!(
        Reason::WrongPassword.to_string(),
        "The given password is incorrect"
    );
}

#[test]
fn new_session_request_standalone_round_trip() {
    let req = NewSessionRequest::new("room1", "pw");
    let bytes = req.to_bytes();
    assert_eq!(bytes, vec![5, b'r', b'o', b'o', b'm', b'1', 2, b'p', b'w', 8]);
    let back = NewSessionRequest::from_bytes(&bytes).unwrap();
    assert_eq!(back, req);
}

#[test]
fn join_session_request_standalone_round_trip() {
    let req = JoinSessionRequest::new("", "");
    let bytes = req.to_bytes();
    assert_eq!(bytes, vec![0, 0]);
    let back = JoinSessionRequest::from_bytes(&bytes).unwrap();
    assert_eq!(back, req);
}

#[test]
fn new_session_request_truncated_rejected() {
    let req = NewSessionRequest::new("room1", "pw");
    let bytes = req.to_bytes();
    assert_eq!(
        NewSessionRequest::from_bytes(&bytes[..bytes.len() - 1]),
        Err(WireError::MalformedMessage)
    );
}
