use netsync::game::{next_state, EntityTable, GameEvent, GameState};
use netsync::math::{Vec3Bits, Vec4Bits};
use netsync::network::{PlayerPose, ResponseSignal};
use netsync::objects::{model_for_kind, NetworkObject, Object, ObjectKind};
use netsync::player::Player;

fn obj(id: u32, kind: ObjectKind, p: u32, r: u32) -> NetworkObject {
    NetworkObject {
        position: Vec3Bits::new(p, p + 1, p + 2),
        rotation: Vec4Bits::new(r, r + 1, r + 2, r + 3),
        id,
        kind,
    }
}

#[test]
fn reconcile_updates_existing_entity_pose_only() {
    let mut table = EntityTable::new();
    table.reconcile(&vec![obj(1, ObjectKind::Ball, 10, 20), obj(2, ObjectKind::Ground, 30, 40)]);
    let before_other = table.get(2).unwrap();
    let before_model = table.get(1).unwrap().model;

    // A later snapshot moves only entity 1.
    table.reconcile(&vec![obj(1, ObjectKind::Ball, 100, 200)]);
    assert_eq!(table.len(), 2);
    let updated = table.get(1).unwrap();
    assert_eq!(updated.position, Vec3Bits::new(100, 101, 102));
    assert_eq!(updated.rotation, Vec4Bits::new(200, 201, 202, 203));
    assert_eq!(updated.model, before_model);
    assert_eq!(updated.kind, ObjectKind::Ball);
    // Entity 2 is untouched, byte for byte.
    assert_eq!(table.get(2).unwrap(), before_other);
}

#[test]
fn reconcile_inserts_unseen_id_once() {
    let mut table = EntityTable::new();
    table.reconcile(&vec![obj(5, ObjectKind::Ring, 7, 9)]);
    assert_eq!(table.len(), 1);
    let e = table.get(5).unwrap();
    assert_eq!(e.id, 5);
    assert_eq!(e.kind, ObjectKind::Ring);
    assert_eq!(e.model, model_for_kind(ObjectKind::Ring));
    assert_eq!(e.position, Vec3Bits::new(7, 8, 9));
    assert_eq!(e.rotation, Vec4Bits::new(9, 10, 11, 12));
}

#[test]
fn reconcile_retains_absent_entities() {
    let mut table = EntityTable::new();
    table.reconcile(&vec![obj(1, ObjectKind::Ball, 1, 1), obj(2, ObjectKind::Ground, 2, 2)]);
    let kept = table.get(2).unwrap();

    // Entity 2 is absent from the next snapshot; it must survive unchanged.
    table.reconcile(&vec![obj(1, ObjectKind::Ball, 50, 60)]);
    assert_eq!(table.len(), 2);
    assert_eq!(table.get(2).unwrap(), kept);

    // Even an empty snapshot removes nothing.
    table.reconcile(&vec![]);
    assert_eq!(table.len(), 2);
}

#[test]
fn reconcile_duplicate_id_last_occurrence_wins() {
    let mut table = EntityTable::new();
    table.reconcile(&vec![obj(3, ObjectKind::Ball, 1, 1), obj(3, ObjectKind::Ball, 90, 91)]);
    assert_eq!(table.len(), 1);
    let e = table.get(3).unwrap();
    assert_eq!(e.position, Vec3Bits::new(90, 91, 92));
}

#[test]
fn entity_table_get_missing() {
    let table = EntityTable::new();
    assert_eq!(table.len(), 0);
    assert!(table.get(42).is_none());
}

#[test]
fn object_update_keeps_identity() {
    let mut e = Object::new(9, ObjectKind::Ground, Vec3Bits::zero(), Vec4Bits::zero());
    assert_eq!(e.model, model_for_kind(ObjectKind::Ground));
    let new_state = obj(9, ObjectKind::Ground, 4, 8);
    e.update(&new_state);
    assert_eq!(e.id, 9);
    assert_eq!(e.model, model_for_kind(ObjectKind::Ground));
    assert_eq!(e.position, new_state.position);
    assert_eq!(e.rotation, new_state.rotation);
}

#[test]
fn player_set_state_replaces_transform_wholesale() {
    let body = Object::new(0, ObjectKind::Player, Vec3Bits::zero(), Vec4Bits::zero());
    let mut player = Player::new(Vec3Bits::zero(), Vec3Bits::zero(), body, Vec3Bits::zero());
    let snap = ResponseSignal {
        translation: Vec3Bits::new(1, 2, 3),
        camera_pos: Vec3Bits::new(4, 5, 6),
        camera_target: Vec3Bits::new(7, 8, 9),
        fwd: Vec3Bits::new(10, 11, 12),
        right: Vec3Bits::new(13, 14, 15),
        players: vec![PlayerPose {
            translation: Vec3Bits::zero(),
            camera_pos: Vec3Bits::zero(),
            camera_target: Vec3Bits::zero(),
        }],
        objects: vec![],
    };
    player.set_state(&snap);
    assert_eq!(player.position, snap.translation);
    assert_eq!(player.camera_pos, snap.camera_pos);
    assert_eq!(player.camera_target, snap.camera_target);
    assert_eq!(player.fwd, snap.fwd);
    assert_eq!(player.right, snap.right);
    assert_eq!(player.object, body);
}

#[test]
fn game_state_menu_navigation() {
    assert_eq!(
        next_state(GameState::MainMenu, GameEvent::CreateSelected),
        GameState::CreateMenu
    );
    assert_eq!(next_state(GameState::MainMenu, GameEvent::JoinSelected), GameState::JoinMenu);
    assert_eq!(next_state(GameState::CreateMenu, GameEvent::BackSelected), GameState::MainMenu);
    assert_eq!(next_state(GameState::JoinMenu, GameEvent::BackSelected), GameState::MainMenu);
    assert_eq!(
        next_state(GameState::JoinMenu, GameEvent::SessionAccepted),
        GameState::InGame
    );
    assert_eq!(
        next_state(GameState::CreateMenu, GameEvent::SessionRejected),
        GameState::ErrorMessage
    );
    assert_eq!(
        next_state(GameState::ErrorMessage, GameEvent::BackSelected),
        GameState::MainMenu
    );
    assert_eq!(next_state(GameState::InGame, GameEvent::BackSelected), GameState::InGame);
}
