use netsync::client::{
    Client, ClientInfo, MoveKeys, Player, PredictedFrame, RemoteCollectibleId, RemotePlayer,
    COLLECT_RANGE_SQUARED, DIVERGENCE_SQUARED, HISTORY_CAPACITY,
};
use netsync::motion::{MotionModel, PlayerState, Transform, Velocity};
use netsync::protocol::{ClientMessage, CollectibleInfo, PlayerPosition, ProtocolError, ServerMessage};
use netsync::vector::{Quat, Vec2, Vec3};

const NONE: MoveKeys = MoveKeys { up: false, down: false, left: false, right: false };
const RIGHT: MoveKeys = MoveKeys { up: false, down: false, left: false, right: true };
const UP_RIGHT: MoveKeys = MoveKeys { up: true, down: false, left: false, right: true };
const IDENTITY: Quat = Quat { x: 0, y: 0, z: 0, w: 1000 };

fn at(x: i32, y: i32) -> Vec3 {
    Vec3 { x, y, z: 0 }
}

fn correction(client_id: u64, frame: u32, position: Vec3) -> ServerMessage {
    ServerMessage::PlayerCorrection {
        client_id,
        frame,
        linvel: Vec2 { x: 11, y: 12 },
        angvel: 13,
        position,
        rotation: Quat { x: 0, y: 0, z: 707, w: 707 },
    }
}

fn frames(client: &Client) -> Vec<u32> {
    client.history().iter().map(|entry| entry.frame).collect()
}

/// A client with identifier 7 that predicted `count` inputs to the right.
fn walked(count: u32) -> Client {
    let mut client = Client::new(MotionModel::Direct);
    client.receive_one(&ServerMessage::AssignClientId { client_id: 7 });
    for _ in 0..count {
        client.move_player(RIGHT, 16_000);
    }
    client
}

#[test]
fn constants_of_the_client() {
    assert_eq!(HISTORY_CAPACITY, 256);
    assert_eq!(DIVERGENCE_SQUARED, 100 * 100);
    assert_eq!(COLLECT_RANGE_SQUARED, 40_000 * 40_000);
}

#[test]
fn a_new_client_knows_nothing() {
    let client = Client::new(MotionModel::Direct);
    assert_eq!(client.info(), ClientInfo { id: None });
    assert_eq!(ClientInfo::default(), ClientInfo { id: None });
    assert_eq!(client.state(), PlayerState::spawn(0));
    assert_eq!(client.local_player(), (Player, Transform::from_translation(at(0, 0))));
    assert!(client.history().is_empty());
    assert!(client.remote_players().is_empty());
    assert!(client.collectibles().is_empty());
    assert!(client.check_collectibles().is_empty());
}

#[test]
fn an_input_is_predicted_at_once_and_sent() {
    let mut client = Client::new(MotionModel::Direct);
    let sent = client.move_player(RIGHT, 16_000);
    assert_eq!(
        sent,
        Some(ClientMessage::MoveInput { direction: Vec2 { x: 1000, y: 0 }, frame: 0, delta: 16_000 })
    );
    assert_eq!(client.state().transform.translation, at(3200, 0));
    assert_eq!(
        client.history(),
        vec![PredictedFrame {
            frame: 0,
            input_direction: Vec2 { x: 1000, y: 0 },
            resulting_position: at(3200, 0),
        }]
    );
}

#[test]
fn a_diagonal_input_is_normalised() {
    let mut client = Client::new(MotionModel::Direct);
    let sent = client.move_player(UP_RIGHT, 16_000);
    assert_eq!(
        sent,
        Some(ClientMessage::MoveInput { direction: Vec2 { x: 707, y: 707 }, frame: 0, delta: 16_000 })
    );
    assert_eq!(client.state().transform.translation, at(2262, 2262));
    let down_left = MoveKeys { up: false, down: true, left: true, right: false };
    let sent = client.move_player(down_left, 16_000);
    assert_eq!(
        sent,
        Some(ClientMessage::MoveInput { direction: Vec2 { x: -707, y: -707 }, frame: 1, delta: 16_000 })
    );
    assert_eq!(client.state().transform.translation, at(0, 0));
}

#[test]
fn the_prediction_uses_the_model_of_the_server() {
    let mut client = Client::new(MotionModel::Acceleration);
    client.move_player(RIGHT, 16_000);
    assert_eq!(client.state().velocity.linvel, Vec2 { x: 16_000, y: 0 });
    assert_eq!(client.state().transform.translation, at(0, 0));
    let expected = PlayerState::spawn(0).apply_input(MotionModel::Acceleration, Vec2 { x: 1000, y: 0 }, 16_000);
    assert_eq!(client.state(), expected);
}

#[test]
fn frames_count_inputs_not_samples() {
    let mut client = Client::new(MotionModel::Direct);
    assert_eq!(client.move_player(NONE, 16_000), None);
    let opposite = MoveKeys { up: true, down: true, left: true, right: true };
    assert_eq!(client.move_player(opposite, 16_000), None);
    assert_eq!(client.state(), PlayerState::spawn(0));
    assert!(client.history().is_empty());
    assert!(matches!(
        client.move_player(RIGHT, 1),
        Some(ClientMessage::MoveInput { frame: 0, .. })
    ));
    assert_eq!(client.move_player(NONE, 16_000), None);
    assert!(matches!(
        client.move_player(RIGHT, 1),
        Some(ClientMessage::MoveInput { frame: 1, .. })
    ));
    assert_eq!(frames(&client), vec![0, 1]);
}

#[test]
fn the_history_is_bounded() {
    let client = walked(300);
    let history = client.history();
    assert_eq!(history.len(), 256);
    assert_eq!(history[0].frame, 44);
    assert_eq!(history[255].frame, 299);
    for pair in history.windows(2) {
        assert!(pair[0].frame < pair[1].frame);
    }
    assert_eq!(client.state().transform.translation, at(300 * 3200, 0));
}

#[test]
fn reconciliation_blends_a_diverged_prediction() {
    let mut client = walked(6);
    let p = at(19_200, 0);
    assert_eq!(client.history()[5].frame, 5);
    assert_eq!(client.history()[5].resulting_position, p);
    assert_eq!(client.state().transform.translation, p);
    let q = at(20_200, 600);
    client.receive_one(&correction(7, 5, q));
    assert_eq!(client.state().transform.translation, at(19_700, 300));
    assert!(client.history().is_empty());
}

#[test]
fn reconciliation_keeps_later_predictions() {
    let mut client = walked(8);
    assert_eq!(client.state().transform.translation, at(25_600, 0));
    client.receive_one(&correction(7, 5, at(20_200, 0)));
    assert_eq!(client.state().transform.translation, at(22_900, 0));
    assert_eq!(frames(&client), vec![6, 7]);
    assert_eq!(client.history()[0].resulting_position, at(22_400, 0));
}

#[test]
fn reconciliation_leaves_a_close_prediction_alone() {
    let mut client = walked(8);
    let live = client.state().transform.translation;
    client.receive_one(&correction(7, 5, at(19_200 + 100, 0)));
    assert_eq!(client.state().transform.translation, live);
    assert_eq!(frames(&client), vec![6, 7]);
    client.receive_one(&correction(7, 6, at(22_400, 100)));
    assert_eq!(client.state().transform.translation, live);
    assert_eq!(frames(&client), vec![7]);
    client.receive_one(&correction(7, 7, at(25_600 + 101, 0)));
    assert_eq!(client.state().transform.translation, at(25_600 + 50, 0));
    assert!(client.history().is_empty());
}

#[test]
fn reconciliation_without_the_frame_snaps() {
    let mut client = walked(8);
    let q = Vec3 { x: -5, y: 77, z: 3 };
    client.receive_one(&correction(7, 99, q));
    assert_eq!(client.state().transform.translation, q);
    assert_eq!(client.state().velocity, Velocity { linvel: Vec2 { x: 11, y: 12 }, angvel: 13 });
    assert!(client.history().is_empty());
    client.receive_one(&correction(7, 3, at(1, 1)));
    assert_eq!(client.state().transform.translation, at(1, 1));
}

#[test]
fn reconciliation_of_a_forgotten_frame_snaps() {
    let mut client = walked(8);
    client.receive_one(&correction(7, 5, at(19_200, 0)));
    assert_eq!(frames(&client), vec![6, 7]);
    client.receive_one(&correction(7, 5, at(40, 40)));
    assert_eq!(client.state().transform.translation, at(40, 40));
    assert!(client.history().is_empty());
}

#[test]
fn reconcile_can_be_called_directly() {
    let mut client = walked(2);
    client.reconcile(1, Vec2 { x: 0, y: 0 }, 0, at(6400 + 2000, 0), IDENTITY);
    assert_eq!(client.state().transform.translation, at(7400, 0));
    assert!(client.history().is_empty());
}

#[test]
fn a_correction_turns_the_player_as_the_server_says() {
    let mut client = walked(3);
    client.receive_one(&correction(7, 1, at(6400, 0)));
    assert_eq!(client.state().transform.rotation, Quat { x: 0, y: 0, z: 707, w: 707 });
    assert_eq!(client.state().velocity, Velocity::at_rest());
}

#[test]
fn the_identifier_is_assigned() {
    let mut client = Client::new(MotionModel::Direct);
    client.receive_one(&correction(7, 0, at(5, 5)));
    assert_eq!(client.remote_players().len(), 1);
    assert_eq!(client.state().transform.translation, at(0, 0));
    client.receive_one(&ServerMessage::AssignClientId { client_id: 7 });
    assert_eq!(client.info(), ClientInfo { id: Some(7) });
    assert_eq!(client.state().client_id, 7);
    assert!(client.remote_players().is_empty());
}

#[test]
fn a_broadcast_replaces_what_is_known_of_the_others() {
    let mut client = walked(2);
    let live = client.state();
    let history = client.history();
    let turn = Quat { x: 0, y: 0, z: 1000, w: 0 };
    client.receive_one(&ServerMessage::PlayerPositions(vec![
        PlayerPosition { client_id: 8, position: at(1, 1), rotation: IDENTITY },
        PlayerPosition { client_id: 7, position: at(999_999, 999_999), rotation: turn },
        PlayerPosition { client_id: 9, position: at(2, 2), rotation: turn },
        PlayerPosition { client_id: 8, position: at(3, 3), rotation: turn },
    ]));
    assert_eq!(
        client.remote_players(),
        vec![
            (RemotePlayer { client_id: 8 }, Transform { translation: at(3, 3), rotation: turn }),
            (RemotePlayer { client_id: 9 }, Transform { translation: at(2, 2), rotation: turn }),
        ]
    );
    assert_eq!(client.state(), live);
    assert_eq!(client.history(), history);
    client.receive_one(&ServerMessage::PlayerPositions(vec![PlayerPosition {
        client_id: 9,
        position: at(4, 4),
        rotation: IDENTITY,
    }]));
    assert_eq!(
        client.remote_players(),
        vec![(RemotePlayer { client_id: 9 }, Transform { translation: at(4, 4), rotation: IDENTITY })]
    );
    client.receive_one(&ServerMessage::PlayerPositions(Vec::new()));
    assert!(client.remote_players().is_empty());
}

#[test]
fn a_correction_of_another_player_updates_that_player() {
    let mut client = walked(2);
    let live = client.state();
    client.receive_one(&correction(8, 1, at(50, 60)));
    assert_eq!(
        client.remote_players(),
        vec![(
            RemotePlayer { client_id: 8 },
            Transform { translation: at(50, 60), rotation: Quat { x: 0, y: 0, z: 707, w: 707 } }
        )]
    );
    assert_eq!(client.state(), live);
    assert_eq!(frames(&client), vec![0, 1]);
}

#[test]
fn collectibles_come_and_go() {
    let mut client = Client::new(MotionModel::Direct);
    client.receive_one(&ServerMessage::SpawnCollectibles(vec![
        CollectibleInfo { id: 1, position: at(10, 0) },
        CollectibleInfo { id: 2, position: at(20, 0) },
        CollectibleInfo { id: 1, position: at(30, 0) },
    ]));
    assert_eq!(
        client.collectibles(),
        vec![
            (RemoteCollectibleId(1), Transform::from_translation(at(30, 0))),
            (RemoteCollectibleId(2), Transform::from_translation(at(20, 0))),
        ]
    );
    client.receive_one(&ServerMessage::DespawnCollectible { id: 1 });
    client.receive_one(&ServerMessage::DespawnCollectible { id: 99 });
    assert_eq!(
        client.collectibles(),
        vec![(RemoteCollectibleId(2), Transform::from_translation(at(20, 0)))]
    );
    client.receive_one(&ServerMessage::SpawnCollectibles(vec![CollectibleInfo { id: 3, position: at(-1, -1) }]));
    assert_eq!(client.collectibles().len(), 2);
}

#[test]
fn a_batch_is_received_to_the_end() {
    let mut client = Client::new(MotionModel::Direct);
    let batch = vec![
        Ok(ServerMessage::AssignClientId { client_id: 7 }),
        Err(ProtocolError::Malformed),
        Ok(correction(7, 0, at(100, 100))),
        Ok(ServerMessage::PlayerPositions(vec![
            PlayerPosition { client_id: 7, position: at(0, 0), rotation: IDENTITY },
            PlayerPosition { client_id: 8, position: at(1, 1), rotation: IDENTITY },
        ])),
        Err(ProtocolError::Malformed),
        Ok(ServerMessage::SpawnCollectibles(vec![CollectibleInfo { id: 5, position: at(9, 9) }])),
    ];
    client.receive_messages(&batch);
    assert_eq!(client.info(), ClientInfo { id: Some(7) });
    assert_eq!(client.state().transform.translation, at(100, 100));
    assert_eq!(client.remote_players().len(), 1);
    assert_eq!(client.collectibles().len(), 1);
}

#[test]
fn collectibles_within_reach_are_asked_for() {
    let mut client = Client::new(MotionModel::Direct);
    client.receive_one(&ServerMessage::SpawnCollectibles(vec![
        CollectibleInfo { id: 1, position: at(39_999, 0) },
        CollectibleInfo { id: 2, position: at(40_000, 0) },
        CollectibleInfo { id: 3, position: at(0, -39_999) },
        CollectibleInfo { id: 4, position: at(28_285, 28_285) },
        CollectibleInfo { id: 5, position: at(28_284, 28_284) },
        CollectibleInfo { id: 6, position: Vec3 { x: 0, y: 0, z: 40_000 } },
        CollectibleInfo { id: 7, position: at(0, 0) },
    ]));
    assert_eq!(
        client.check_collectibles(),
        vec![
            ClientMessage::AttemptCollect { id: 1 },
            ClientMessage::AttemptCollect { id: 3 },
            ClientMessage::AttemptCollect { id: 5 },
            ClientMessage::AttemptCollect { id: 7 },
        ]
    );
}

#[test]
fn a_tick_receives_before_it_predicts() {
    let mut client = walked(2);
    let batch = vec![Ok(correction(7, 50, at(1000, 0)))];
    let out = client.tick(&batch, RIGHT, 16_000);
    assert_eq!(client.state().transform.translation, at(4200, 0));
    assert_eq!(frames(&client), vec![2]);
    assert_eq!(
        out,
        vec![ClientMessage::MoveInput { direction: Vec2 { x: 1000, y: 0 }, frame: 2, delta: 16_000 }]
    );
}

#[test]
fn a_tick_sends_the_input_before_the_requests() {
    let mut client = Client::new(MotionModel::Direct);
    let batch = vec![Ok(ServerMessage::SpawnCollectibles(vec![CollectibleInfo {
        id: 4,
        position: at(43_000, 0),
    }]))];
    let out = client.tick(&batch, NONE, 16_000);
    assert!(out.is_empty());
    let out = client.tick(&Vec::new(), RIGHT, 16_000);
    assert_eq!(
        out,
        vec![
            ClientMessage::MoveInput { direction: Vec2 { x: 1000, y: 0 }, frame: 0, delta: 16_000 },
            ClientMessage::AttemptCollect { id: 4 },
        ]
    );
}
