use netsync::authority::{Inbound, Outbound, ServerEvent, Target};
use netsync::client::{Client, ClientInfo, MoveKeys};
use netsync::motion::MotionModel;
use netsync::protocol::{ClientMessage, ServerMessage};
use netsync::server::Server;
use netsync::vector::Vec3;

const RIGHT: MoveKeys = MoveKeys { up: false, down: false, left: false, right: true };
const NONE: MoveKeys = MoveKeys { up: false, down: false, left: false, right: false };

fn deliver(out: &[Outbound], client_id: u64) -> Vec<Result<ServerMessage, netsync::protocol::ProtocolError>> {
    out.iter()
        .filter(|o| o.target == Target::Everyone || o.target == Target::Client(client_id))
        .map(|o| Ok(o.message.clone()))
        .collect()
}

fn uplink(client_id: u64, messages: Vec<ClientMessage>) -> Vec<Inbound> {
    messages.into_iter().map(|m| Inbound { client_id, payload: Ok(m) }).collect()
}

#[test]
fn prediction_and_server_agree_when_nothing_is_lost() {
    let mut server = Server::new(MotionModel::Direct);
    server.setup_world();
    let mut client = Client::new(MotionModel::Direct);
    let out = server.tick(&vec![ServerEvent::ClientConnected { client_id: 7 }], &Vec::new(), 0);
    client.receive_messages(&deliver(&out, 7));
    assert_eq!(client.info(), ClientInfo { id: Some(7) });
    assert_eq!(client.collectibles().len(), 3);
    let mut now = 0u64;
    for _ in 0..20 {
        now += 40;
        let sent = client.tick(&Vec::new(), RIGHT, 16_000);
        let out = server.tick(&Vec::new(), &uplink(7, sent), now);
        let before = client.state();
        client.receive_messages(&deliver(&out, 7));
        assert_eq!(client.state().transform.translation, before.transform.translation);
        assert_eq!(
            client.state().transform.translation,
            server.player(7).unwrap().state.transform.translation
        );
        assert!(client.history().is_empty());
        assert!(client.remote_players().is_empty());
    }
    assert_eq!(client.state().transform.translation, Vec3 { x: 64_000, y: 0, z: 0 });
}

#[test]
fn walking_into_a_collectible_picks_it_up_once() {
    let mut server = Server::new(MotionModel::Direct);
    server.setup_world();
    let mut client = Client::new(MotionModel::Direct);
    let out = server.tick(&vec![ServerEvent::ClientConnected { client_id: 7 }], &Vec::new(), 0);
    client.receive_messages(&deliver(&out, 7));
    let mut despawns = 0;
    let mut now = 0u64;
    for _ in 0..40 {
        now += 40;
        let sent = client.tick(&Vec::new(), RIGHT, 16_000);
        let out = server.tick(&Vec::new(), &uplink(7, sent), now);
        despawns += out
            .iter()
            .filter(|o| matches!(o.message, ServerMessage::DespawnCollectible { id: 0 }))
            .count();
        client.receive_messages(&deliver(&out, 7));
        if despawns > 0 {
            break;
        }
    }
    assert_eq!(despawns, 1);
    assert!(!server.is_live(0));
    assert!(server.is_live(3));
    assert_eq!(client.collectibles().len(), 3);
    assert!(client.collectibles().iter().all(|(id, _)| id.0 != 0));
    assert!(client.state().transform.translation.x > 60_000);
}

#[test]
fn two_clients_see_each_other() {
    let mut server = Server::new(MotionModel::Direct);
    let mut a = Client::new(MotionModel::Direct);
    let mut b = Client::new(MotionModel::Direct);
    let out = server.tick(
        &vec![
            ServerEvent::ClientConnected { client_id: 1 },
            ServerEvent::ClientConnected { client_id: 2 },
        ],
        &Vec::new(),
        0,
    );
    a.receive_messages(&deliver(&out, 1));
    b.receive_messages(&deliver(&out, 2));
    let sent = a.tick(&Vec::new(), RIGHT, 16_000);
    let out = server.tick(&Vec::new(), &uplink(1, sent), 40);
    a.receive_messages(&deliver(&out, 1));
    b.receive_messages(&deliver(&out, 2));
    assert_eq!(a.remote_players().len(), 1);
    assert_eq!(a.remote_players()[0].0.client_id, 2);
    assert_eq!(b.remote_players().len(), 1);
    assert_eq!(b.remote_players()[0].0.client_id, 1);
    assert_eq!(b.remote_players()[0].1.translation, Vec3 { x: 3200, y: 0, z: 0 });
    assert_eq!(b.tick(&Vec::new(), NONE, 16_000), Vec::new());
    let out = server.tick(&vec![ServerEvent::ClientDisconnected { client_id: 1 }], &Vec::new(), 80);
    b.receive_messages(&deliver(&out, 2));
    assert!(b.remote_players().is_empty());
}
