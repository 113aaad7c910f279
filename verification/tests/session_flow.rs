use netsync::game::EntityTable;
use netsync::lifecycle::{classify, Recovery, SyncError};
use netsync::math::{Vec3Bits, Vec4Bits};
use netsync::network::{Reason, ResponseSignal, ServerResponse};
use netsync::objects::{NetworkObject, ObjectKind};
use netsync::session::{
    JoinSessionRequest, NewSessionRequest, SessionClient, SessionPhase,
};
use netsync::wire::WireError;

#[test]
fn rejected_join_surfaces_message_and_returns_to_idle() {
    // Client asks to join "alpha" with password "secret".
    let mut client = SessionClient::new();
    assert_eq!(client.phase, SessionPhase::Idle);
    let request_bytes = client.begin_join_session(JoinSessionRequest::new("alpha", "secret"));
    assert_eq!(client.phase, SessionPhase::AwaitingResponse);
    assert_eq!(
        request_bytes,
        vec![0x2, 5, b'a', b'l', b'p', b'h', b'a', 6, b's', b'e', b'c', b'r', b'e', b't']
    );

    // The server rejects it: wrong password.
    let response_bytes = ServerResponse::InvalidRequest(Reason::WrongPassword).to_bytes();
    let response = client.handle_response(&response_bytes).unwrap();
    assert_eq!(response, ServerResponse::InvalidRequest(Reason::WrongPassword));
    assert_eq!(client.phase, SessionPhase::Rejected(Reason::WrongPassword));

    // The explanation the user sees.
    match client.phase {
        SessionPhase::Rejected(reason) => {
            assert_eq!(reason.to_string(), "The given password is incorrect");
        },
        _ => panic!("expected a rejected session"),
    }

    // Only a fresh connection brings the exchange back to idle.
    client.connection_replaced();
    assert_eq!(client.phase, SessionPhase::Idle);
}

#[test]
fn accepted_new_session_reconciles_initial_snapshot() {
    // Client creates "room1" with password "pw" and the default capacity.
    let mut client = SessionClient::new();
    let req = NewSessionRequest::new("room1", "pw");
    assert_eq!(req.player_limit, 8);
    let request_bytes = client.begin_new_session(req);
    assert_eq!(request_bytes[0], 0x1);
    assert_eq!(*request_bytes.last().unwrap(), 8);

    // The server accepts with a snapshot holding two objects.
    let snapshot = ResponseSignal {
        translation: Vec3Bits::zero(),
        camera_pos: Vec3Bits::zero(),
        camera_target: Vec3Bits::zero(),
        fwd: Vec3Bits::forward(),
        right: Vec3Bits::right(),
        players: vec![],
        objects: vec![
            NetworkObject {
                position: Vec3Bits::new(100, 101, 102),
                rotation: Vec4Bits::zero(),
                id: 1,
                kind: ObjectKind::Ground,
            },
            NetworkObject {
                position: Vec3Bits::new(200, 201, 202),
                rotation: Vec4Bits::zero(),
                id: 2,
                kind: ObjectKind::Ball,
            },
        ],
    };
    let response_bytes = ServerResponse::Accepted(snapshot.clone()).to_bytes();
    assert_eq!(response_bytes[1] as usize, 0);
    assert_eq!(response_bytes[2] as usize, 2);
    let response = client.handle_response(&response_bytes).unwrap();
    assert_eq!(client.phase, SessionPhase::Established);
    let received = match response {
        ServerResponse::Accepted(s) => s,
        _ => panic!("expected an accepted session"),
    };
    assert_eq!(received, snapshot);

    // Reconciling an empty table against it yields exactly the two objects.
    let mut table = EntityTable::new();
    table.reconcile(&received.objects);
    assert_eq!(table.len(), 2);
    assert_eq!(table.get(1).unwrap().position, Vec3Bits::new(100, 101, 102));
    assert_eq!(table.get(2).unwrap().position, Vec3Bits::new(200, 201, 202));
    assert!(table.get(3).is_none());
}

#[test]
fn malformed_response_keeps_waiting_phase() {
    let mut client = SessionClient::new();
    let _ = client.begin_join_session(JoinSessionRequest::new("a", "b"));
    let garbage = vec![0x9, 0x9, 0x9];
    assert_eq!(client.handle_response(&garbage), Err(WireError::MalformedMessage));
    assert_eq!(client.phase, SessionPhase::AwaitingResponse);
}

#[test]
fn failure_classification_policy() {
    assert_eq!(classify(SyncError::MalformedMessage), Recovery::ReconnectAndRetry);
    assert_eq!(
        classify(SyncError::Rejected(Reason::IdInUse)),
        Recovery::SurfaceToUser
    );
    assert_eq!(classify(SyncError::ConnectFailed), Recovery::Fatal);
    assert_eq!(classify(SyncError::WriteFailed), Recovery::ReconnectAndRetry);
    assert_eq!(classify(SyncError::ReadFailed), Recovery::ReconnectAndRetry);
    assert_eq!(classify(SyncError::TimedOut), Recovery::SkipFrame);
}
