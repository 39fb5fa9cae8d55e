use netsync::authority::{
    Consumed, Inbound, Outbound, PlayerRecord, ServerEvent, Target, BROADCAST_INTERVAL_MILLIS,
};
use netsync::motion::{MotionModel, PlayerState, Transform, Velocity};
use netsync::protocol::{
    ClientMessage, CollectibleInfo, PlayerPosition, ProtocolError, ServerChannel, ServerMessage,
};
use netsync::random::{random_position, FIELD_HALF_HEIGHT, FIELD_HALF_WIDTH};
use netsync::server::{LastPlayerPosition, Server};
use netsync::vector::{Quat, Vec2, Vec3};

fn at(x: i32, y: i32) -> Vec3 {
    Vec3 { x, y, z: 0 }
}

fn sorted(mut list: Vec<CollectibleInfo>) -> Vec<CollectibleInfo> {
    list.sort_by_key(|info| info.id);
    list
}

fn to_all(message: ServerMessage) -> Outbound {
    Outbound { target: Target::Everyone, channel: ServerChannel::World, message }
}

fn to_one(client_id: u64, message: ServerMessage) -> Outbound {
    Outbound { target: Target::Client(client_id), channel: ServerChannel::World, message }
}

fn collect(client_id: u64, id: u64) -> Inbound {
    Inbound { client_id, payload: Ok(ClientMessage::AttemptCollect { id }) }
}

fn input(client_id: u64, x: i32, y: i32, frame: u32, delta: u32) -> Inbound {
    Inbound {
        client_id,
        payload: Ok(ClientMessage::MoveInput { direction: Vec2 { x, y }, frame, delta }),
    }
}

fn mentions(message: &ServerMessage, client_id: u64) -> bool {
    match message {
        ServerMessage::SpawnCollectibles(_) => false,
        ServerMessage::DespawnCollectible { .. } => false,
        ServerMessage::PlayerPositions(list) => list.iter().any(|p| p.client_id == client_id),
        ServerMessage::AssignClientId { client_id: id } => *id == client_id,
        ServerMessage::PlayerCorrection { client_id: id, .. } => *id == client_id,
    }
}

fn world_of_three(model: MotionModel) -> Server {
    let mut server = Server::new(model);
    server.setup_world();
    server
}

#[test]
fn a_new_server_is_empty() {
    let server = Server::new(MotionModel::Acceleration);
    assert_eq!(server.snapshot(), Vec::new());
    assert_eq!(server.player_records(), Vec::new());
    assert_eq!(server.player(0), None);
    assert!(!server.is_live(0));
    assert_eq!(LastPlayerPosition::default(), LastPlayerPosition { time: 0 });
    assert_eq!(BROADCAST_INTERVAL_MILLIS, 33);
}

#[test]
fn the_world_starts_with_three_collectibles() {
    let server = world_of_three(MotionModel::Acceleration);
    assert_eq!(
        sorted(server.snapshot()),
        vec![
            CollectibleInfo { id: 0, position: at(100_000, 0) },
            CollectibleInfo { id: 1, position: at(200_000, 0) },
            CollectibleInfo { id: 2, position: at(300_000, 0) },
        ]
    );
    assert!(server.is_live(0) && server.is_live(1) && server.is_live(2));
    assert!(!server.is_live(3));
}

#[test]
fn spawn_initial_places_as_many_as_asked() {
    let mut server = Server::new(MotionModel::Direct);
    server.spawn_initial(0);
    assert_eq!(server.snapshot().len(), 0);
    server.spawn_initial(5);
    let list = sorted(server.snapshot());
    assert_eq!(list.len(), 5);
    assert_eq!(list[4], CollectibleInfo { id: 4, position: at(500_000, 0) });
}

#[test]
fn place_gives_out_the_next_identifier() {
    let mut server = world_of_three(MotionModel::Direct);
    assert_eq!(server.place(at(7, 8)), Some(CollectibleInfo { id: 3, position: at(7, 8) }));
    assert_eq!(server.place(at(7, 8)), Some(CollectibleInfo { id: 4, position: at(7, 8) }));
    assert_eq!(server.snapshot().len(), 5);
}

#[test]
fn connecting_spawns_a_player_at_rest() {
    let mut server = Server::new(MotionModel::Acceleration);
    assert!(server.connect(7));
    assert_eq!(
        server.player(7),
        Some(PlayerRecord { state: PlayerState::spawn(7), frame: None })
    );
    assert_eq!(server.player(8), None);
    assert!(!server.connect(7));
    assert_eq!(server.player_records().len(), 1);
}

#[test]
fn disconnecting_removes_the_player() {
    let mut server = Server::new(MotionModel::Acceleration);
    assert!(server.connect(7));
    assert!(server.connect(8));
    assert!(server.disconnect(7));
    assert!(!server.disconnect(7));
    assert_eq!(server.player(7), None);
    assert!(server.player(8).is_some());
    assert_eq!(server.player_records().len(), 1);
    assert!(server.connect(7));
    assert_eq!(server.player_records().len(), 2);
}

#[test]
fn a_newcomer_is_sent_its_identifier_and_then_the_collectibles() {
    let mut server = world_of_three(MotionModel::Acceleration);
    let out = server.handle_client_connects(&vec![ServerEvent::ClientConnected { client_id: 7 }]);
    assert_eq!(out.len(), 2);
    assert_eq!(out[0], to_one(7, ServerMessage::AssignClientId { client_id: 7 }));
    assert_eq!(out[1].target, Target::Client(7));
    match &out[1].message {
        ServerMessage::SpawnCollectibles(list) => {
            assert_eq!(sorted(list.clone()), sorted(server.snapshot()));
            assert_eq!(list.len(), 3);
        }
        other => panic!("unexpected message {:?}", other),
    }
}

#[test]
fn only_new_connections_are_greeted() {
    let mut server = world_of_three(MotionModel::Acceleration);
    let events = vec![
        ServerEvent::ClientConnected { client_id: 1 },
        ServerEvent::ClientConnected { client_id: 1 },
        ServerEvent::ClientDisconnected { client_id: 9 },
        ServerEvent::ClientConnected { client_id: 2 },
        ServerEvent::ClientDisconnected { client_id: 1 },
        ServerEvent::ClientConnected { client_id: 1 },
    ];
    let out = server.handle_client_connects(&events);
    let greeted: Vec<u64> = out
        .iter()
        .filter_map(|o| match o.message {
            ServerMessage::AssignClientId { client_id } => Some(client_id),
            _ => None,
        })
        .collect();
    assert_eq!(greeted, vec![1, 2, 1]);
    assert_eq!(out.len(), 6);
    assert!(server.player(1).is_some());
    assert!(server.player(2).is_some());
    for o in &out {
        assert!(matches!(o.target, Target::Client(_)));
    }
}

#[test]
fn an_input_accelerates_the_player() {
    let mut server = Server::new(MotionModel::Acceleration);
    server.connect(7);
    let out = server.receive_from_clients(&vec![input(7, 1000, 0, 0, 16_000)]);
    assert!(out.is_empty());
    let record = server.player(7).unwrap();
    assert_eq!(record.state.velocity.linvel, Vec2 { x: 16_000, y: 0 });
    assert_eq!(record.state.transform.translation, at(0, 0));
    assert_eq!(record.frame, Some(0));
}

#[test]
fn inputs_are_applied_in_arrival_order_and_the_last_frame_is_kept() {
    let mut server = Server::new(MotionModel::Direct);
    server.connect(7);
    server.connect(8);
    let batch = vec![
        input(7, 1000, 0, 0, 16_000),
        input(8, 0, 1000, 5, 10_000),
        input(7, 1000, 0, 1, 16_000),
        input(7, 3000, 4000, 2, 1_000_000),
    ];
    server.receive_from_clients(&batch);
    let seven = server.player(7).unwrap();
    assert_eq!(seven.state.transform.translation, at(6400 + 120_000, 160_000));
    assert_eq!(seven.frame, Some(2));
    let eight = server.player(8).unwrap();
    assert_eq!(eight.state.transform.translation, at(0, 2000));
    assert_eq!(eight.frame, Some(5));
}

#[test]
fn the_server_moves_a_player_as_replaying_its_inputs_does() {
    let mut server = Server::new(MotionModel::Direct);
    server.connect(7);
    let batch = vec![input(7, 1000, 0, 0, 16_000), input(7, 707, 707, 1, 16_667), input(7, 0, -1000, 2, 33_000)];
    server.receive_from_clients(&batch);
    let mut expected = PlayerState::spawn(7);
    expected = expected.apply_input(MotionModel::Direct, Vec2 { x: 1000, y: 0 }, 16_000);
    expected = expected.apply_input(MotionModel::Direct, Vec2 { x: 707, y: 707 }, 16_667);
    expected = expected.apply_input(MotionModel::Direct, Vec2 { x: 0, y: -1000 }, 33_000);
    assert_eq!(server.player(7).unwrap().state, expected);
}

#[test]
fn an_input_without_a_session_is_ignored() {
    let mut server = Server::new(MotionModel::Acceleration);
    server.connect(7);
    let out = server.receive_from_clients(&vec![input(9, 1000, 0, 0, 16_000)]);
    assert!(out.is_empty());
    assert_eq!(server.player(9), None);
    assert_eq!(server.player(7), Some(PlayerRecord { state: PlayerState::spawn(7), frame: None }));
    assert!(!server.apply_move(9, Vec2 { x: 1000, y: 0 }, 0, 16_000));
}

#[test]
fn a_malformed_payload_is_dropped_and_the_rest_is_received() {
    let mut server = Server::new(MotionModel::Acceleration);
    server.connect(7);
    let batch = vec![
        Inbound { client_id: 7, payload: Err(ProtocolError::Malformed) },
        input(7, 1000, 0, 3, 16_000),
        Inbound { client_id: 7, payload: Err(ProtocolError::Malformed) },
    ];
    let out = server.receive_from_clients(&batch);
    assert!(out.is_empty());
    let record = server.player(7).unwrap();
    assert_eq!(record.state.velocity.linvel, Vec2 { x: 16_000, y: 0 });
    assert_eq!(record.frame, Some(3));
}

#[test]
fn a_pickup_at_a_given_place_is_exact() {
    let mut server = world_of_three(MotionModel::Acceleration);
    let outcome = server.consume_at(1, 7, at(5, 6));
    assert_eq!(
        outcome,
        Some(Consumed {
            id: 1,
            collector: 7,
            replacement: Some(CollectibleInfo { id: 3, position: at(5, 6) }),
        })
    );
    assert_eq!(
        sorted(server.snapshot()),
        vec![
            CollectibleInfo { id: 0, position: at(100_000, 0) },
            CollectibleInfo { id: 2, position: at(300_000, 0) },
            CollectibleInfo { id: 3, position: at(5, 6) },
        ]
    );
    assert_eq!(server.consume_at(1, 8, at(9, 9)), None);
    assert_eq!(server.snapshot().len(), 3);
}

#[test]
fn a_pickup_puts_the_replacement_inside_the_field() {
    let mut server = world_of_three(MotionModel::Acceleration);
    for round in 0..50u64 {
        let id = round;
        let outcome = server.attempt_consume(id, 7).unwrap();
        assert_eq!(outcome.id, id);
        assert_eq!(outcome.collector, 7);
        let info = outcome.replacement.unwrap();
        assert_eq!(info.id, round + 3);
        assert!(-FIELD_HALF_WIDTH <= info.position.x && info.position.x <= FIELD_HALF_WIDTH);
        assert!(-FIELD_HALF_HEIGHT <= info.position.y && info.position.y <= FIELD_HALF_HEIGHT);
        assert_eq!(info.position.z, 0);
        assert!(!server.is_live(id));
        assert!(server.is_live(info.id));
        assert_eq!(server.snapshot().len(), 3);
    }
}

#[test]
fn random_positions_lie_inside_the_field_and_vary() {
    let mut generator = rand::rng();
    let mut seen = Vec::new();
    for _ in 0..200 {
        let p = random_position(&mut generator);
        assert!(-600_000 <= p.x && p.x <= 600_000);
        assert!(-300_000 <= p.y && p.y <= 300_000);
        assert_eq!(p.z, 0);
        if !seen.contains(&p) {
            seen.push(p);
        }
    }
    assert!(seen.len() > 1);
    assert!(seen.iter().any(|p| p.x != -600_000));
    assert!(seen.iter().any(|p| p.y != -300_000));
}

#[test]
fn of_two_requests_in_one_tick_exactly_one_succeeds() {
    let mut server = world_of_three(MotionModel::Acceleration);
    server.connect(1);
    server.connect(2);
    let out = server.receive_from_clients(&vec![collect(1, 0), collect(2, 0)]);
    assert_eq!(out.len(), 2);
    assert_eq!(out[0], to_all(ServerMessage::DespawnCollectible { id: 0 }));
    match &out[1].message {
        ServerMessage::SpawnCollectibles(list) => {
            assert_eq!(list.len(), 1);
            assert_eq!(list[0].id, 3);
        }
        other => panic!("unexpected message {:?}", other),
    }
    assert_eq!(out[1].target, Target::Everyone);
    assert!(!server.is_live(0));
    assert!(server.snapshot().iter().all(|info| info.id != 0));
}

#[test]
fn after_a_pickup_one_new_collectible_is_listed() {
    let mut server = world_of_three(MotionModel::Acceleration);
    server.connect(1);
    let before = sorted(server.snapshot());
    let out = server.receive_one_at(collect(1, 2), at(-4, 4));
    assert_eq!(
        out,
        vec![
            to_all(ServerMessage::DespawnCollectible { id: 2 }),
            to_all(ServerMessage::SpawnCollectibles(vec![CollectibleInfo {
                id: 3,
                position: at(-4, 4)
            }])),
        ]
    );
    let after = sorted(server.snapshot());
    let new: Vec<&CollectibleInfo> = after.iter().filter(|info| !before.contains(info)).collect();
    assert_eq!(new, vec![&CollectibleInfo { id: 3, position: at(-4, 4) }]);
    assert!(before.iter().all(|info| info.id != 3));
    assert_eq!(after.len(), 3);
}

#[test]
fn a_consumed_identifier_never_comes_back() {
    let mut server = world_of_three(MotionModel::Acceleration);
    server.connect(1);
    let mut taken = Vec::new();
    for round in 0..40u64 {
        let id = sorted(server.snapshot())[0].id;
        let out = server.receive_from_clients(&vec![collect(1, id)]);
        assert_eq!(out.len(), 2, "round {}", round);
        taken.push(id);
        for info in server.snapshot() {
            assert!(!taken.contains(&info.id));
        }
    }
}

#[test]
fn a_request_for_a_collectible_that_is_gone_is_ignored() {
    let mut server = world_of_three(MotionModel::Acceleration);
    server.connect(1);
    let before = sorted(server.snapshot());
    assert!(server.receive_from_clients(&vec![collect(1, 999)]).is_empty());
    assert_eq!(server.attempt_consume(999, 1), None);
    assert!(!server.takes(collect(1, 999)));
    assert!(server.takes(collect(1, 0)));
    assert_eq!(sorted(server.snapshot()), before);
}

#[test]
fn a_request_without_a_session_is_ignored() {
    let mut server = world_of_three(MotionModel::Acceleration);
    server.connect(7);
    server.disconnect(7);
    let before = sorted(server.snapshot());
    assert!(!server.takes(collect(7, 0)));
    assert!(server.receive_from_clients(&vec![collect(7, 0), collect(7, 12345)]).is_empty());
    assert_eq!(sorted(server.snapshot()), before);
}

#[test]
fn the_scheduler_waits_for_more_than_the_interval() {
    let mut server = Server::new(MotionModel::Acceleration);
    server.connect(7);
    assert!(server.broadcast_player_positions(0).is_empty());
    assert!(server.broadcast_player_positions(33).is_empty());
    assert_eq!(server.broadcast_player_positions(34).len(), 1);
    assert!(server.broadcast_player_positions(34).is_empty());
    assert!(server.broadcast_player_positions(60).is_empty());
    assert!(server.broadcast_player_positions(67).is_empty());
    assert_eq!(server.broadcast_player_positions(68).len(), 1);
    assert!(server.broadcast_player_positions(5).is_empty());
    assert_eq!(server.broadcast_player_positions(u64::MAX).len(), 1);
    assert!(server.broadcast_player_positions(u64::MAX).is_empty());
}

#[test]
fn a_broadcast_lists_every_player_once() {
    let mut server = Server::new(MotionModel::Direct);
    server.connect(3);
    server.connect(1);
    server.connect(2);
    server.receive_from_clients(&vec![input(1, 1000, 0, 0, 16_000)]);
    let out = server.broadcast_player_positions(100);
    assert_eq!(out[0].target, Target::Everyone);
    let mut ids: Vec<u64> = match &out[0].message {
        ServerMessage::PlayerPositions(list) => {
            for p in list {
                let record = server.player(p.client_id).unwrap();
                assert_eq!(p.position, record.state.transform.translation);
                assert_eq!(p.rotation, record.state.transform.rotation);
            }
            list.iter().map(|p| p.client_id).collect()
        }
        other => panic!("unexpected message {:?}", other),
    };
    ids.sort();
    assert_eq!(ids, vec![1, 2, 3]);
}

#[test]
fn a_correction_reports_each_input_frame_once() {
    let mut server = Server::new(MotionModel::Acceleration);
    server.connect(7);
    server.connect(8);
    server.receive_from_clients(&vec![input(7, 1000, 0, 4, 16_000)]);
    let out = server.broadcast_player_positions(50);
    assert_eq!(out.len(), 2);
    assert_eq!(
        out[1],
        to_one(
            7,
            ServerMessage::PlayerCorrection {
                client_id: 7,
                frame: 4,
                linvel: Vec2 { x: 16_000, y: 0 },
                angvel: 0,
                position: at(0, 0),
                rotation: Quat { x: 0, y: 0, z: 0, w: 1000 },
            }
        )
    );
    assert_eq!(server.player(7).unwrap().frame, None);
    let out = server.broadcast_player_positions(100);
    assert_eq!(out.len(), 1);
    server.receive_from_clients(&vec![input(7, 1000, 0, 5, 16_000), input(8, 0, 1000, 0, 16_000)]);
    let out = server.broadcast_player_positions(150);
    assert_eq!(out.len(), 3);
    let mut targets: Vec<Target> = out[1..].iter().map(|o| o.target).collect();
    targets.sort_by_key(|t| match t {
        Target::Client(id) => *id,
        Target::Everyone => u64::MAX,
    });
    assert_eq!(targets, vec![Target::Client(7), Target::Client(8)]);
}

#[test]
fn end_to_end_with_acceleration() {
    let mut server = world_of_three(MotionModel::Acceleration);
    let out = server.tick(&vec![ServerEvent::ClientConnected { client_id: 7 }], &Vec::new(), 10);
    assert_eq!(out.len(), 2);
    assert_eq!(out[0], to_one(7, ServerMessage::AssignClientId { client_id: 7 }));
    assert!(matches!(out[1].message, ServerMessage::SpawnCollectibles(_)));
    let spawn = server.player(7).unwrap().state;
    let out = server.tick(&Vec::new(), &vec![input(7, 1000, 0, 0, 16_000)], 40);
    assert_eq!(
        out[0],
        to_all(ServerMessage::PlayerPositions(vec![PlayerPosition {
            client_id: 7,
            position: spawn.transform.translation,
            rotation: spawn.transform.rotation,
        }]))
    );
    assert_eq!(
        out[1],
        to_one(
            7,
            ServerMessage::PlayerCorrection {
                client_id: 7,
                frame: 0,
                linvel: Vec2 { x: spawn.velocity.linvel.x + 16_000, y: 0 },
                angvel: 0,
                position: spawn.transform.translation,
                rotation: spawn.transform.rotation,
            }
        )
    );
    assert_eq!(out.len(), 2);
}

#[test]
fn end_to_end_with_direct_movement() {
    let mut server = world_of_three(MotionModel::Direct);
    let out = server.tick(&vec![ServerEvent::ClientConnected { client_id: 7 }], &Vec::new(), 10);
    assert_eq!(out.len(), 2);
    assert_eq!(out[0], to_one(7, ServerMessage::AssignClientId { client_id: 7 }));
    assert!(matches!(out[1].message, ServerMessage::SpawnCollectibles(_)));
    let spawn = server.player(7).unwrap().state.transform.translation;
    let out = server.tick(&Vec::new(), &vec![input(7, 1000, 0, 0, 16_000)], 40);
    assert_eq!(
        out[0],
        to_all(ServerMessage::PlayerPositions(vec![PlayerPosition {
            client_id: 7,
            position: Vec3 { x: spawn.x + 3200, y: spawn.y, z: spawn.z },
            rotation: Quat { x: 0, y: 0, z: 0, w: 1000 },
        }]))
    );
}

#[test]
fn a_tick_sends_greetings_then_announcements_then_the_broadcast() {
    let mut server = world_of_three(MotionModel::Direct);
    server.connect(1);
    let out = server.tick(
        &vec![ServerEvent::ClientConnected { client_id: 2 }],
        &vec![collect(2, 0), input(1, 0, 1000, 9, 1000)],
        1000,
    );
    assert_eq!(out.len(), 6);
    assert_eq!(out[0], to_one(2, ServerMessage::AssignClientId { client_id: 2 }));
    assert!(matches!(out[1].message, ServerMessage::SpawnCollectibles(_)));
    assert_eq!(out[2], to_all(ServerMessage::DespawnCollectible { id: 0 }));
    assert!(matches!(out[3].message, ServerMessage::SpawnCollectibles(_)));
    assert!(matches!(out[4].message, ServerMessage::PlayerPositions(_)));
    assert!(matches!(out[5].message, ServerMessage::PlayerCorrection { client_id: 1, frame: 9, .. }));
}

#[test]
fn after_a_disconnect_nothing_speaks_of_the_client() {
    let mut server = world_of_three(MotionModel::Acceleration);
    server.tick(
        &vec![
            ServerEvent::ClientConnected { client_id: 7 },
            ServerEvent::ClientConnected { client_id: 8 },
        ],
        &vec![input(7, 1000, 0, 0, 16_000), input(8, 1000, 0, 0, 16_000)],
        1,
    );
    let out = server.tick(&vec![ServerEvent::ClientDisconnected { client_id: 7 }], &Vec::new(), 100);
    assert!(!out.is_empty());
    for o in &out {
        assert!(!mentions(&o.message, 7));
        assert_ne!(o.target, Target::Client(7));
    }
    let out = server.tick(&Vec::new(), &vec![collect(7, 0), input(7, 1000, 0, 1, 16_000), collect(8, 777)], 200);
    for o in &out {
        assert!(!mentions(&o.message, 7));
        assert_ne!(o.target, Target::Client(7));
    }
    assert!(server.is_live(0));
    assert_eq!(server.player(7), None);
    assert_eq!(server.snapshot().len(), 3);
}

#[test]
fn the_engine_writes_the_state_of_a_player_back() {
    let mut server = Server::new(MotionModel::Acceleration);
    server.connect(7);
    server.receive_from_clients(&vec![input(7, 1000, 0, 2, 16_000)]);
    let transform = Transform { translation: at(12, 34), rotation: Quat { x: 1, y: 2, z: 3, w: 4 } };
    let velocity = Velocity { linvel: Vec2 { x: 5, y: 6 }, angvel: 7 };
    assert!(server.write_back(7, transform, velocity));
    assert!(!server.write_back(8, transform, velocity));
    assert_eq!(
        server.player(7),
        Some(PlayerRecord { state: PlayerState { client_id: 7, transform, velocity }, frame: Some(2) })
    );
}

#[test]
fn slots_of_players_that_left_are_taken_again() {
    let mut server = world_of_three(MotionModel::Acceleration);
    for round in 0..100u64 {
        assert!(server.connect(round));
        assert!(server.connect(round + 1000));
        assert!(server.disconnect(round));
        assert_eq!(server.player(round), None);
        assert_eq!(server.player_records().len() as u64, round + 1);
        assert_eq!(server.snapshot().len(), 3);
    }
}
