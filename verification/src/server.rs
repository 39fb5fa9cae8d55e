//! The server: the entity arena, the tables that find a session's player and
//! a collectible's entity in it, and the operations of one tick. Every
//! operation keeps arena and tables in step and does to the state what
//! `ServerModel` says.

use vstd::prelude::*;

use crate::authority::{
    correction_of, gathers_corrections, greets, lemma_events_change_sessions_only,
    lemma_gather_correction, lemma_gathered_broadcast, lemma_received_ignores_later,
    lists_collectibles, lists_records, outbound_views, position_of, reported, ticks, to_client,
    to_everyone, Consumed, Inbound, Outbound, OutboundView, PlayerRecord, ServerEvent, ServerModel,
    Target, BROADCAST_INTERVAL_MILLIS,
};
use crate::entity::{
    body_in, handle_in, live_in, Body, BoxCollectable, CollectibleId, Entity, Player, Slot, World,
};
use crate::motion::{MotionModel, PlayerState, Transform, Velocity};
use crate::protocol::{
    ClientMessage, CollectibleInfo, PlayerPosition, ServerChannel, ServerMessage,
    ServerMessageView,
};
use crate::random::{in_field, random_position};
use crate::table::{CollectibleEntityMap, PlayerEntityMap};
use crate::vector::{Vec2, Vec3};

verus! {

/// When the players' positions were broadcast last, in milliseconds of a
/// monotonic clock that starts with the server.
#[derive(Clone, Copy, Debug, PartialEq, Eq, Structural)]
pub struct LastPlayerPosition {
    pub time: u64,
}

impl Default for LastPlayerPosition {
    fn default() -> (last: LastPlayerPosition)
        ensures
            last.time == 0,
    {
        LastPlayerPosition { time: 0 }
    }
}

/// The server's state.
pub struct Server {
    model: MotionModel,
    world: World,
    players: PlayerEntityMap,
    collectibles: CollectibleEntityMap,
    next_collectible_id: u64,
    last_player_position: LastPlayerPosition,
}

/// Whether `entity` is the live player of `client_id`.
pub open spec fn holds_player(slots: Seq<Slot>, entity: Entity, client_id: u64) -> bool {
    &&& live_in(slots, entity)
    &&& body_in(slots, entity) matches Body::Player { player, .. }
    &&& player.client_id == client_id
}

/// Whether `entity` is the live collectible `id`.
pub open spec fn holds_collectible(slots: Seq<Slot>, entity: Entity, id: u64) -> bool {
    &&& live_in(slots, entity)
    &&& body_in(slots, entity) matches Body::Collectible { id: held, .. }
    &&& held.0 == id
}

/// Whether the entity in slot `index`, if there is one, is found in its
/// table under its identifier.
pub open spec fn indexed(
    slots: Seq<Slot>,
    players: Map<u64, Entity>,
    collectibles: Map<u64, Entity>,
    index: int,
) -> bool {
    match slots[index].body {
        None => true,
        Some(Body::Player { player, .. }) => players.contains_key(player.client_id)
            && players[player.client_id] == handle_in(slots, index),
        Some(Body::Collectible { id, .. }) => collectibles.contains_key(id.0) && collectibles[id.0]
            == handle_in(slots, index),
    }
}

/// Whether arena and tables are in step: every table entry names the live
/// entity that carries its identifier, every entity is in its table, and
/// every collectible's identifier was given out.
pub open spec fn consistent(
    slots: Seq<Slot>,
    players: Map<u64, Entity>,
    collectibles: Map<u64, Entity>,
    next_id: u64,
) -> bool {
    &&& forall|id: u64| #[trigger]
        players.contains_key(id) ==> holds_player(slots, players[id], id)
    &&& forall|id: u64| #[trigger]
        collectibles.contains_key(id) ==> holds_collectible(slots, collectibles[id], id) && id
            < next_id
    &&& forall|i: int| 0 <= i < slots.len() ==> #[trigger] indexed(slots, players, collectibles, i)
}

/// What the server keeps of the player in `body`.
pub open spec fn record_of(body: Body) -> PlayerRecord {
    PlayerRecord { state: body.player_state(), frame: body->frame }
}

/// The sessions that `players` finds in `slots`, each with its player.
pub open spec fn players_of(slots: Seq<Slot>, players: Map<u64, Entity>) -> Map<u64, PlayerRecord> {
    Map::new(|id: u64| players.contains_key(id), |id: u64| record_of(body_in(slots, players[id])))
}

/// The collectibles that `collectibles` finds in `slots`, each with its
/// position.
pub open spec fn collectibles_of(slots: Seq<Slot>, collectibles: Map<u64, Entity>) -> Map<u64, Vec3> {
    Map::new(
        |id: u64| collectibles.contains_key(id),
        |id: u64| body_in(slots, collectibles[id])->Collectible_transform.translation,
    )
}

impl View for Server {
    type V = ServerModel;

    closed spec fn view(&self) -> ServerModel {
        ServerModel {
            model: self.model,
            players: players_of(self.world@, self.players@),
            collectibles: collectibles_of(self.world@, self.collectibles@),
            next_id: self.next_collectible_id,
            last_broadcast: self.last_player_position.time,
        }
    }
}

impl Server {
    /// Whether arena and tables are in step.
    pub closed spec fn wf(&self) -> bool {
        consistent(self.world@, self.players@, self.collectibles@, self.next_collectible_id)
    }

    /// A server whose arena and tables are in step is in a valid state.
    pub proof fn lemma_wf_is_valid(&self)
        requires
            self.wf(),
        ensures
            self@.valid(),
    {
        assert forall|id: u64| #[trigger] self@.players.contains_key(id) implies self@.players[id].state.client_id
            == id by {
            assert(self.players@.contains_key(id));
        }
        assert forall|id: u64| #[trigger] self@.collectibles.contains_key(id) implies id
            < self@.next_id by {
            assert(self.collectibles@.contains_key(id));
        }
    }

    /// A server without sessions or collectibles that simulates by `model`.
    pub fn new(model: MotionModel) -> (server: Server)
        ensures
            server.wf(),
            server@ == ServerModel::initial(model),
    {
        let server = Server {
            model,
            world: World::new(),
            players: PlayerEntityMap::new(),
            collectibles: CollectibleEntityMap::new(),
            next_collectible_id: 0,
            last_player_position: LastPlayerPosition::default(),
        };
        assert(server@.players =~= Map::<u64, PlayerRecord>::empty());
        assert(server@.collectibles =~= Map::<u64, Vec3>::empty());
        server
    }

    /// Takes the connection of `client_id` and says whether it did: a new
    /// player stands at rest at the origin. A session that exists is left
    /// as it is.
    pub fn connect(&mut self, client_id: u64) -> (accepted: bool)
        requires
            old(self).wf(),
        ensures
            final(self).wf(),
            accepted == !old(self)@.players.contains_key(client_id),
            final(self)@ == old(self)@.connected(client_id),
    {
        match self.players.get(client_id) {
            Some(_) => false,
            None => {
                let state = PlayerState::spawn(client_id);
                let body = Body::Player {
                    player: Player { client_id },
                    transform: state.transform,
                    velocity: state.velocity,
                    frame: None,
                };
                let ghost before = self.world@;
                let entity = self.world.spawn(body);
                self.players.insert(client_id, entity);
                proof {
                    old(self).world.lemma_addressable();
                    lemma_spawn_player(
                        before,
                        old(self).players@,
                        old(self).collectibles@,
                        self.next_collectible_id,
                        client_id,
                        body,
                    );
                    assert(self@.players =~= old(self)@.connected(client_id).players);
                    assert(self@.collectibles =~= old(self)@.collectibles);
                }
                true
            },
        }
    }

    /// Ends the session of `client_id` and says whether there was one: its
    /// player is despawned.
    pub fn disconnect(&mut self, client_id: u64) -> (ended: bool)
        requires
            old(self).wf(),
        ensures
            final(self).wf(),
            ended == old(self)@.players.contains_key(client_id),
            final(self)@ == old(self)@.disconnected(client_id),
    {
        match self.players.remove(client_id) {
            None => {
                proof {
                    assert(self.players@ =~= old(self).players@);
                    assert(self@.players =~= old(self)@.disconnected(client_id).players);
                }
                false
            },
            Some(entity) => {
                let ghost before = self.world@;
                self.world.despawn(entity);
                proof {
                    old(self).world.lemma_addressable();
                    lemma_despawn_player(
                        before,
                        old(self).players@,
                        old(self).collectibles@,
                        self.next_collectible_id,
                        client_id,
                    );
                    assert(self@.players =~= old(self)@.disconnected(client_id).players);
                    assert(self@.collectibles =~= old(self)@.collectibles);
                }
                true
            },
        }
    }

    /// What the server keeps of the player of `client_id`.
    pub fn player(&self, client_id: u64) -> (found: Option<PlayerRecord>)
        requires
            self.wf(),
        ensures
            found == (if self@.players.contains_key(client_id) {
                Some(self@.players[client_id])
            } else {
                None
            }),
    {
        match self.players.get(client_id) {
            None => None,
            Some(entity) => match self.world.get(entity) {
                Some(Body::Player { player, transform, velocity, frame }) => Some(
                    PlayerRecord {
                        state: PlayerState { client_id: player.client_id, transform, velocity },
                        frame,
                    },
                ),
                _ => None,
            },
        }
    }

    /// Applies one input of `client_id` to its player and says whether the
    /// client has a session.
    pub fn apply_move(&mut self, client_id: u64, direction: Vec2, frame: u32, delta: u32) -> (applied: bool)
        requires
            old(self).wf(),
        ensures
            final(self).wf(),
            applied == old(self)@.players.contains_key(client_id),
            final(self)@ == old(self)@.moved(client_id, direction, frame, delta),
    {
        match self.player(client_id) {
            None => false,
            Some(record) => {
                let next = record.state.apply_input(self.model, direction, delta);
                self.put_player(client_id, next, Some(frame));
                true
            },
        }
    }

    /// Takes over the transform and velocity that the physics engine gave
    /// the player of `client_id`, and says whether the client has a session.
    pub fn write_back(&mut self, client_id: u64, transform: Transform, velocity: Velocity) -> (written: bool)
        requires
            old(self).wf(),
        ensures
            final(self).wf(),
            written == old(self)@.players.contains_key(client_id),
            final(self)@ == old(self)@.written_back(client_id, transform, velocity),
    {
        match self.player(client_id) {
            None => false,
            Some(record) => {
                self.put_player(client_id, PlayerState { client_id, transform, velocity }, record.frame);
                true
            },
        }
    }

    /// Replaces the state and pending frame of the player of a session.
    fn put_player(&mut self, client_id: u64, state: PlayerState, frame: Option<u32>)
        requires
            old(self).wf(),
            old(self)@.players.contains_key(client_id),
            state.client_id == client_id,
        ensures
            final(self).wf(),
            final(self)@ == (ServerModel {
                players: old(self)@.players.insert(client_id, PlayerRecord { state, frame }),
                ..old(self)@
            }),
    {
        let found = self.players.get(client_id);
        let entity = found.unwrap();
        let body = Body::Player {
            player: Player { client_id },
            transform: state.transform,
            velocity: state.velocity,
            frame,
        };
        let ghost before = self.world@;
        self.world.replace(entity, body);
        proof {
            old(self).world.lemma_addressable();
            lemma_replace_body(
                before,
                self.players@,
                self.collectibles@,
                self.next_collectible_id,
                entity,
                body,
            );
            assert(self@.players =~= old(self)@.players.insert(
                client_id,
                PlayerRecord { state, frame },
            ));
            assert(self@.collectibles =~= old(self)@.collectibles);
        }
    }

    /// Places a collectible at `position` under the next identifier and
    /// hands back what clients are told of it; nothing where no identifier
    /// is left.
    pub fn place(&mut self, position: Vec3) -> (placed: Option<CollectibleInfo>)
        requires
            old(self).wf(),
        ensures
            final(self).wf(),
            final(self)@ == old(self)@.placed(position),
            placed == (if old(self)@.can_mint() {
                Some(CollectibleInfo { id: old(self)@.next_id, position })
            } else {
                None
            }),
    {
        if self.next_collectible_id == u64::MAX {
            return None;
        }
        let id: u64 = self.next_collectible_id;
        let body = Body::Collectible {
            marker: BoxCollectable,
            id: CollectibleId(id),
            transform: Transform::from_translation(position),
        };
        let ghost before = self.world@;
        let entity = self.world.spawn(body);
        self.collectibles.insert(id, entity);
        self.next_collectible_id = id + 1;
        proof {
            old(self).world.lemma_addressable();
            lemma_spawn_collectible(
                before,
                old(self).players@,
                old(self).collectibles@,
                id,
                body,
            );
            assert(self@.players =~= old(self)@.players);
            assert(self@.collectibles =~= old(self)@.placed(position).collectibles);
        }
        Some(CollectibleInfo { id, position })
    }

    /// Places the first `count` collectibles of a new world, the `n`-th one
    /// `n` hundred world units along x. Nothing is sent: a client gets the
    /// full set when it connects.
    pub fn spawn_initial(&mut self, count: u32)
        requires
            old(self).wf(),
        ensures
            final(self).wf(),
            final(self)@ == old(self)@.after_initial(count as nat),
    {
        let mut n: u32 = 0;
        while n < count
            invariant
                n <= count,
                self.wf(),
                self@ == old(self)@.after_initial(n as nat),
            decreases count - n,
        {
            n = n + 1;
            let x: i64 = n as i64 * 100_000;
            let x: i32 = if x > 2147483647 {
                i32::MAX
            } else {
                x as i32
            };
            self.place(Vec3 { x, y: 0, z: 0 });
        }
    }

    /// Places the three collectibles that a world starts with.
    pub fn setup_world(&mut self)
        requires
            old(self).wf(),
        ensures
            final(self).wf(),
            final(self)@ == old(self)@.after_initial(3),
    {
        self.spawn_initial(3)
    }

    /// Takes the collectible `id` for `collector` where it is live, puts a
    /// replacement at `position`, and reports both. A request for a
    /// collectible that is gone changes nothing and is answered with
    /// nothing.
    pub fn consume_at(&mut self, id: u64, collector: u64, position: Vec3) -> (outcome: Option<Consumed>)
        requires
            old(self).wf(),
        ensures
            final(self).wf(),
            final(self)@ == old(self)@.consumed(id, position),
            outcome == old(self)@.consume_outcome(id, collector, position),
    {
        match self.collectibles.remove(id) {
            None => {
                proof {
                    assert(self.collectibles@ =~= old(self).collectibles@);
                }
                None
            },
            Some(entity) => {
                let ghost before = self.world@;
                self.world.despawn(entity);
                proof {
                    old(self).world.lemma_addressable();
                    lemma_despawn_collectible(
                        before,
                        old(self).players@,
                        old(self).collectibles@,
                        self.next_collectible_id,
                        id,
                    );
                    assert(self@.players =~= old(self)@.players);
                    assert(self@.collectibles =~= old(self)@.collectibles.remove(id));
                }
                let replacement = self.place(position);
                Some(Consumed { id, collector, replacement })
            },
        }
    }

    /// Whether the collectible `id` is live.
    pub fn is_live(&self, id: u64) -> (live: bool)
        requires
            self.wf(),
        ensures
            live == self@.collectibles.contains_key(id),
    {
        self.collectibles.get(id).is_some()
    }

    /// Takes the collectible `id` for `requesting_client` where it is live
    /// and puts a replacement at a random place inside the play field. Of
    /// any number of requests for one collectible the first is accepted and
    /// the others find it gone.
    pub fn attempt_consume(&mut self, id: u64, requesting_client: u64) -> (outcome: Option<Consumed>)
        requires
            old(self).wf(),
        ensures
            final(self).wf(),
            outcome is Some == old(self)@.collectibles.contains_key(id),
            exists|position: Vec3| #[trigger]
                in_field(position) && final(self)@ == old(self)@.consumed(id, position) && outcome
                    == old(self)@.consume_outcome(id, requesting_client, position),
    {
        if self.is_live(id) {
            let mut generator = rand::rng();
            let position = random_position(&mut generator);
            self.consume_at(id, requesting_client, position)
        } else {
            assert(in_field(Vec3::origin()));
            None
        }
    }

    /// The live collectibles, each once, to bring a client that just
    /// connected up to date.
    pub fn snapshot(&self) -> (list: Vec<CollectibleInfo>)
        requires
            self.wf(),
        ensures
            lists_collectibles(list@, self@.collectibles),
    {
        let mut list: Vec<CollectibleInfo> = Vec::new();
        let ghost mut origin: Seq<int> = Seq::empty();
        let mut i: usize = 0;
        while i < self.world.len()
            invariant
                i <= self.world@.len(),
                gathers_collectibles(self.world@, list@, origin, i as int),
            decreases self.world@.len() - i,
        {
            let slot = self.world.slot(i);
            let ghost listed = list@;
            let ghost slots_of = origin;
            match slot.body {
                Some(Body::Collectible { id, transform, .. }) => {
                    list.push(CollectibleInfo { id: id.0, position: transform.translation });
                    proof {
                        origin = origin.push(i as int);
                    }
                },
                _ => {},
            }
            proof {
                lemma_gather_collectible(self.world@, listed, slots_of, i as int);
            }
            i = i + 1;
        }
        proof {
            self.world.lemma_addressable();
            lemma_gathered_collectibles(
                self.world@,
                self.players@,
                self.collectibles@,
                self.next_collectible_id,
                list@,
                origin,
            );
        }
        list
    }

    /// Takes the connections and disconnections that the transport reported,
    /// in order. Each client whose connection is taken is sent its
    /// identifier and then the live collectibles; nothing is sent to anyone
    /// else, and nothing at all for a disconnection.
    pub fn handle_client_connects(&mut self, events: &Vec<ServerEvent>) -> (out: Vec<Outbound>)
        requires
            old(self).wf(),
        ensures
            final(self).wf(),
            final(self)@ == old(self)@.after_events(events@, events@.len()),
            greets(
                outbound_views(out@),
                old(self)@.newcomers(events@, events@.len()),
                old(self)@.collectibles,
            ),
    {
        let mut out: Vec<Outbound> = Vec::new();
        let mut i: usize = 0;
        while i < events.len()
            invariant
                i <= events.len(),
                self.wf(),
                self@ == old(self)@.after_events(events@, i as nat),
                greets(
                    outbound_views(out@),
                    old(self)@.newcomers(events@, i as nat),
                    old(self)@.collectibles,
                ),
            decreases events.len() - i,
        {
            proof {
                lemma_events_change_sessions_only(old(self)@, events@, i as nat);
            }
            let ghost sent = outbound_views(out@);
            match events[i] {
                ServerEvent::ClientConnected { client_id } => {
                    if self.connect(client_id) {
                        out.push(
                            Outbound {
                                target: Target::Client(client_id),
                                channel: ServerChannel::World,
                                message: ServerMessage::AssignClientId { client_id },
                            },
                        );
                        let list = self.snapshot();
                        out.push(
                            Outbound {
                                target: Target::Client(client_id),
                                channel: ServerChannel::World,
                                message: ServerMessage::SpawnCollectibles(list),
                            },
                        );
                        proof {
                            let views = outbound_views(out@);
                            assert forall|k: int| 0 <= k < sent.len() implies views[k]
                                == sent[k] by {}
                        }
                    }
                },
                ServerEvent::ClientDisconnected { client_id } => {
                    self.disconnect(client_id);
                },
            }
            i = i + 1;
        }
        out
    }

    /// Receives one payload, a replacement standing at `position` where the
    /// payload takes a collectible, and hands back what is to be sent. A
    /// malformed payload is dropped, and so is a message of a client
    /// without a session.
    pub fn receive_one_at(&mut self, inbound: Inbound, position: Vec3) -> (out: Vec<Outbound>)
        requires
            old(self).wf(),
        ensures
            final(self).wf(),
            final(self)@ == old(self)@.received_one(inbound, position),
            outbound_views(out@) == old(self)@.replies_one(inbound, position),
    {
        let mut out: Vec<Outbound> = Vec::new();
        match inbound.payload {
            Err(_) => {},
            Ok(ClientMessage::MoveInput { direction, frame, delta }) => {
                self.apply_move(inbound.client_id, direction, frame, delta);
            },
            Ok(ClientMessage::AttemptCollect { id }) => {
                if self.player(inbound.client_id).is_some() {
                    match self.consume_at(id, inbound.client_id, position) {
                        None => {},
                        Some(consumed) => {
                            out.push(
                                Outbound {
                                    target: Target::Everyone,
                                    channel: ServerChannel::World,
                                    message: ServerMessage::DespawnCollectible { id: consumed.id },
                                },
                            );
                            match consumed.replacement {
                                None => {},
                                Some(info) => {
                                    let mut list: Vec<CollectibleInfo> = Vec::new();
                                    list.push(info);
                                    assert(list@ =~= seq![info]);
                                    out.push(
                                        Outbound {
                                            target: Target::Everyone,
                                            channel: ServerChannel::World,
                                            message: ServerMessage::SpawnCollectibles(list),
                                        },
                                    );
                                },
                            }
                        },
                    }
                }
            },
        }
        assert(outbound_views(out@) =~= old(self)@.replies_one(inbound, position));
        out
    }

    /// Whether receiving `inbound` would take a collectible.
    pub fn takes(&self, inbound: Inbound) -> (taken: bool)
        requires
            self.wf(),
        ensures
            taken == self@.takes(inbound),
    {
        match inbound.payload {
            Ok(ClientMessage::AttemptCollect { id }) => self.player(inbound.client_id).is_some()
                && self.is_live(id),
            _ => false,
        }
    }

    /// Receives the payloads that arrived since the last tick, in order,
    /// and hands back what is to be sent. Each accepted pickup puts its
    /// replacement at a random place inside the play field.
    pub fn receive_from_clients(&mut self, inbound: &Vec<Inbound>) -> (out: Vec<Outbound>)
        requires
            old(self).wf(),
        ensures
            final(self).wf(),
            exists|positions: Seq<Vec3>|
                {
                    &&& positions.len() == inbound@.len()
                    &&& forall|k: int| 0 <= k < positions.len() ==> in_field(#[trigger] positions[k])
                    &&& final(self)@ == #[trigger] old(self)@.received(
                        inbound@,
                        positions,
                        inbound@.len(),
                    )
                    &&& outbound_views(out@) == old(self)@.replies(
                        inbound@,
                        positions,
                        inbound@.len(),
                    )
                },
    {
        let mut out: Vec<Outbound> = Vec::new();
        let ghost mut positions: Seq<Vec3> = Seq::empty();
        let mut i: usize = 0;
        assert(outbound_views(out@) =~= Seq::<OutboundView>::empty());
        while i < inbound.len()
            invariant
                i <= inbound.len(),
                self.wf(),
                positions.len() == i,
                forall|k: int| 0 <= k < positions.len() ==> in_field(#[trigger] positions[k]),
                self@ == old(self)@.received(inbound@, positions, i as nat),
                outbound_views(out@) == old(self)@.replies(inbound@, positions, i as nat),
            decreases inbound.len() - i,
        {
            let position = if self.takes(inbound[i]) {
                let mut generator = rand::rng();
                random_position(&mut generator)
            } else {
                Vec3 { x: 0, y: 0, z: 0 }
            };
            let ghost sent = outbound_views(out@);
            let ghost earlier = positions;
            let mut replies = self.receive_one_at(inbound[i], position);
            let ghost added = outbound_views(replies@);
            out.append(&mut replies);
            proof {
                positions = positions.push(position);
                lemma_received_ignores_later(old(self)@, inbound@, earlier, positions, i as nat);
                assert(outbound_views(out@) =~= sent + added);
            }
            i = i + 1;
        }
        out
    }

    /// What the server keeps of every session's player, each once.
    pub fn player_records(&self) -> (list: Vec<PlayerRecord>)
        requires
            self.wf(),
        ensures
            lists_records(list@, self@.players),
    {
        let mut list: Vec<PlayerRecord> = Vec::new();
        let ghost mut origin: Seq<int> = Seq::empty();
        let mut i: usize = 0;
        while i < self.world.len()
            invariant
                i <= self.world@.len(),
                gathers_players(self.world@, list@, origin, i as int),
            decreases self.world@.len() - i,
        {
            let slot = self.world.slot(i);
            let ghost listed = list@;
            let ghost slots_of = origin;
            match slot.body {
                Some(Body::Player { player, transform, velocity, frame }) => {
                    list.push(
                        PlayerRecord {
                            state: PlayerState { client_id: player.client_id, transform, velocity },
                            frame,
                        },
                    );
                    proof {
                        origin = origin.push(i as int);
                    }
                },
                _ => {},
            }
            proof {
                lemma_gather_player(self.world@, listed, slots_of, i as int);
            }
            i = i + 1;
        }
        proof {
            self.world.lemma_addressable();
            lemma_gathered_players(
                self.world@,
                self.players@,
                self.collectibles@,
                self.next_collectible_id,
                list@,
                origin,
            );
        }
        list
    }

    /// Runs the broadcast scheduler at `now`, in milliseconds of the
    /// server's monotonic clock. Until more than the interval has passed
    /// since the last broadcast nothing happens. Then the positions of all
    /// players go to everyone, and to each client whose input waits to be
    /// reported goes the correction of its player.
    pub fn broadcast_player_positions(&mut self, now: u64) -> (out: Vec<Outbound>)
        requires
            old(self).wf(),
        ensures
            final(self).wf(),
            final(self)@ == old(self)@.after_broadcast(now),
            !old(self)@.broadcast_due(now) ==> out@.len() == 0,
            old(self)@.broadcast_due(now) ==> old(self)@.broadcasts(outbound_views(out@)),
    {
        let mut out: Vec<Outbound> = Vec::new();
        if now <= self.last_player_position.time || now - self.last_player_position.time
            <= BROADCAST_INTERVAL_MILLIS {
            return out;
        }
        self.last_player_position.time = now;
        let records = self.player_records();
        let mut positions: Vec<PlayerPosition> = Vec::new();
        let mut corrections: Vec<Outbound> = Vec::new();
        let ghost mut origin: Seq<int> = Seq::empty();
        let mut k: usize = 0;
        assert(self@.players =~= reported(old(self)@.players, records@, 0));
        assert(outbound_views(corrections@) =~= Seq::<OutboundView>::empty());
        while k < records.len()
            invariant
                k <= records.len(),
                self.wf(),
                lists_records(records@, old(self)@.players),
                self@ == (ServerModel {
                    players: reported(old(self)@.players, records@, k as int),
                    last_broadcast: now,
                    ..old(self)@
                }),
                positions@.len() == k,
                forall|j: int| 0 <= j < k ==> #[trigger] positions@[j] == position_of(records@[j].state),
                gathers_corrections(records@, outbound_views(corrections@), origin, k as int),
            decreases records.len() - k,
        {
            let record = records[k];
            let state = record.state;
            let ghost sent = outbound_views(corrections@);
            let ghost sources = origin;
            positions.push(
                PlayerPosition {
                    client_id: state.client_id,
                    position: state.transform.translation,
                    rotation: state.transform.rotation,
                },
            );
            proof {
                lemma_gather_correction(records@, sent, sources, k as int);
                assert(old(self)@.players.contains_key(state.client_id));
                assert forall|j: int| 0 <= j < k implies (#[trigger] records@[j]).state.client_id
                    != state.client_id by {}
            }
            match record.frame {
                None => {
                    assert(reported(old(self)@.players, records@, k as int) =~= reported(
                        old(self)@.players,
                        records@,
                        k as int + 1,
                    ));
                },
                Some(frame) => {
                    corrections.push(
                        Outbound {
                            target: Target::Client(state.client_id),
                            channel: ServerChannel::World,
                            message: ServerMessage::PlayerCorrection {
                                client_id: state.client_id,
                                frame,
                                linvel: state.velocity.linvel,
                                angvel: state.velocity.angvel,
                                position: state.transform.translation,
                                rotation: state.transform.rotation,
                            },
                        },
                    );
                    self.put_player(state.client_id, state, None);
                    proof {
                        origin = origin.push(k as int);
                        assert(outbound_views(corrections@) =~= sent.push(
                            to_client(state.client_id, correction_of(state, frame)),
                        ));
                        assert(self@.players =~= reported(
                            old(self)@.players,
                            records@,
                            k as int + 1,
                        ));
                    }
                },
            }
            k = k + 1;
        }
        let ghost reports = outbound_views(corrections@);
        out.push(
            Outbound {
                target: Target::Everyone,
                channel: ServerChannel::World,
                message: ServerMessage::PlayerPositions(positions),
            },
        );
        out.append(&mut corrections);
        proof {
            lemma_gathered_broadcast(old(self)@, records@, positions@, reports, origin);
            assert(outbound_views(out@) =~= seq![
                to_everyone(ServerMessageView::PlayerPositions(positions@)),
            ] + reports);
            assert(old(self)@.broadcast_due(now));
        }
        out
    }

    /// One tick of the server: takes the events of the transport, receives
    /// the payloads that arrived, and runs the broadcast scheduler at `now`.
    /// Handed back is everything to send, in that order.
    pub fn tick(&mut self, events: &Vec<ServerEvent>, inbound: &Vec<Inbound>, now: u64) -> (out: Vec<
        Outbound,
    >)
        requires
            old(self).wf(),
        ensures
            final(self).wf(),
            exists|positions: Seq<Vec3>, greetings: Seq<OutboundView>, news: Seq<OutboundView>| #[trigger]
                ticks(
                    old(self)@,
                    events@,
                    inbound@,
                    now,
                    positions,
                    greetings,
                    news,
                    final(self)@,
                    outbound_views(out@),
                ),
    {
        let mut out = self.handle_client_connects(events);
        let ghost greetings = outbound_views(out@);
        let ghost joined = self@;
        let mut replies = self.receive_from_clients(inbound);
        let ghost answered = outbound_views(replies@);
        let ghost played = self@;
        let ghost positions = choose|positions: Seq<Vec3>|
            {
                &&& positions.len() == inbound@.len()
                &&& forall|k: int| 0 <= k < positions.len() ==> in_field(#[trigger] positions[k])
                &&& played == #[trigger] joined.received(inbound@, positions, inbound@.len())
                &&& answered == joined.replies(inbound@, positions, inbound@.len())
            };
        let mut news = self.broadcast_player_positions(now);
        let ghost told = outbound_views(news@);
        out.append(&mut replies);
        out.append(&mut news);
        proof {
            assert(outbound_views(out@) =~= greetings + answered + told);
            assert(ticks(
                old(self)@,
                events@,
                inbound@,
                now,
                positions,
                greetings,
                told,
                self@,
                outbound_views(out@),
            ));
        }
        out
    }
}

/// Spawning the player of a client without a session, and entering it in
/// the table, keeps arena and tables in step and changes no other entity.
proof fn lemma_spawn_player(
    slots: Seq<Slot>,
    players: Map<u64, Entity>,
    collectibles: Map<u64, Entity>,
    next_id: u64,
    client_id: u64,
    body: Body,
)
    requires
        slots.len() <= usize::MAX,
        consistent(slots, players, collectibles, next_id),
        !players.contains_key(client_id),
        body matches Body::Player { player, .. } && player.client_id == client_id,
    ensures
        consistent(
            crate::entity::spawned_in(slots, body),
            players.insert(client_id, crate::entity::next_entity_in(slots)),
            collectibles,
            next_id,
        ),
        body_in(crate::entity::spawned_in(slots, body), crate::entity::next_entity_in(slots))
            == body,
        forall|entity: Entity| #[trigger]
            live_in(slots, entity) ==> live_in(crate::entity::spawned_in(slots, body), entity)
                && body_in(crate::entity::spawned_in(slots, body), entity) == body_in(slots, entity),
{
    crate::entity::lemma_first_reusable(slots, 0);
    let after = crate::entity::spawned_in(slots, body);
    let entity = crate::entity::next_entity_in(slots);
    let table = players.insert(client_id, entity);
    assert forall|id: u64| #[trigger] table.contains_key(id) implies holds_player(
        after,
        table[id],
        id,
    ) by {
        if id != client_id {
            assert(players.contains_key(id));
        }
    }
    assert forall|id: u64| #[trigger] collectibles.contains_key(id) implies holds_collectible(
        after,
        collectibles[id],
        id,
    ) && id < next_id by {}
    assert forall|i: int| 0 <= i < after.len() implies #[trigger] indexed(
        after,
        table,
        collectibles,
        i,
    ) by {
        if i != entity.index {
            assert(indexed(slots, players, collectibles, i));
        }
    }
}

/// Taking the player of a session out of table and arena keeps them in
/// step and changes no other entity.
proof fn lemma_despawn_player(
    slots: Seq<Slot>,
    players: Map<u64, Entity>,
    collectibles: Map<u64, Entity>,
    next_id: u64,
    client_id: u64,
)
    requires
        slots.len() <= usize::MAX,
        consistent(slots, players, collectibles, next_id),
        players.contains_key(client_id),
    ensures
        consistent(
            crate::entity::despawned_in(slots, players[client_id]),
            players.remove(client_id),
            collectibles,
            next_id,
        ),
        forall|entity: Entity|
            #[trigger] live_in(slots, entity) && entity != players[client_id] ==> live_in(
                crate::entity::despawned_in(slots, players[client_id]),
                entity,
            ) && body_in(crate::entity::despawned_in(slots, players[client_id]), entity) == body_in(
                slots,
                entity,
            ),
{
    let gone = players[client_id];
    let after = crate::entity::despawned_in(slots, gone);
    let table = players.remove(client_id);
    assert(holds_player(slots, gone, client_id));
    assert(indexed(slots, players, collectibles, gone.index as int));
    assert forall|id: u64| #[trigger] table.contains_key(id) implies holds_player(
        after,
        table[id],
        id,
    ) by {
        assert(players.contains_key(id));
        assert(indexed(slots, players, collectibles, players[id].index as int));
    }
    assert forall|id: u64| #[trigger] collectibles.contains_key(id) implies holds_collectible(
        after,
        collectibles[id],
        id,
    ) && id < next_id by {
        assert(indexed(slots, players, collectibles, collectibles[id].index as int));
    }
    assert forall|i: int| 0 <= i < after.len() implies #[trigger] indexed(
        after,
        table,
        collectibles,
        i,
    ) by {
        if i != gone.index {
            assert(indexed(slots, players, collectibles, i));
        }
    }
}

/// Replacing the body of a live entity by one of the same kind under the
/// same identifier keeps arena and tables in step and changes no other
/// entity.
proof fn lemma_replace_body(
    slots: Seq<Slot>,
    players: Map<u64, Entity>,
    collectibles: Map<u64, Entity>,
    next_id: u64,
    entity: Entity,
    body: Body,
)
    requires
        slots.len() <= usize::MAX,
        consistent(slots, players, collectibles, next_id),
        live_in(slots, entity),
        match body {
            Body::Player { player, .. } => body_in(slots, entity) matches Body::Player {
                player: held,
                ..
            } && held.client_id == player.client_id,
            Body::Collectible { id, .. } => body_in(slots, entity) matches Body::Collectible {
                id: held,
                ..
            } && held.0 == id.0,
        },
    ensures
        consistent(crate::entity::replaced_in(slots, entity, body), players, collectibles, next_id),
        body_in(crate::entity::replaced_in(slots, entity, body), entity) == body,
        forall|other: Entity|
            #[trigger] live_in(slots, other) && other != entity ==> live_in(
                crate::entity::replaced_in(slots, entity, body),
                other,
            ) && body_in(crate::entity::replaced_in(slots, entity, body), other) == body_in(
                slots,
                other,
            ),
{
    let after = crate::entity::replaced_in(slots, entity, body);
    assert(indexed(slots, players, collectibles, entity.index as int));
    assert forall|id: u64| #[trigger] players.contains_key(id) implies holds_player(
        after,
        players[id],
        id,
    ) by {
        assert(indexed(slots, players, collectibles, players[id].index as int));
    }
    assert forall|id: u64| #[trigger] collectibles.contains_key(id) implies holds_collectible(
        after,
        collectibles[id],
        id,
    ) && id < next_id by {
        assert(indexed(slots, players, collectibles, collectibles[id].index as int));
    }
    assert forall|i: int| 0 <= i < after.len() implies #[trigger] indexed(
        after,
        players,
        collectibles,
        i,
    ) by {
        assert(indexed(slots, players, collectibles, i));
    }
}

/// Spawning a collectible under the next identifier, and entering it in the
/// table, keeps arena and tables in step and changes no other entity.
proof fn lemma_spawn_collectible(
    slots: Seq<Slot>,
    players: Map<u64, Entity>,
    collectibles: Map<u64, Entity>,
    next_id: u64,
    body: Body,
)
    requires
        slots.len() <= usize::MAX,
        consistent(slots, players, collectibles, next_id),
        next_id < u64::MAX,
        body matches Body::Collectible { id, .. } && id.0 == next_id,
    ensures
        consistent(
            crate::entity::spawned_in(slots, body),
            players,
            collectibles.insert(next_id, crate::entity::next_entity_in(slots)),
            (next_id + 1) as u64,
        ),
        body_in(crate::entity::spawned_in(slots, body), crate::entity::next_entity_in(slots))
            == body,
        !collectibles.contains_key(next_id),
        forall|entity: Entity| #[trigger]
            live_in(slots, entity) ==> live_in(crate::entity::spawned_in(slots, body), entity)
                && body_in(crate::entity::spawned_in(slots, body), entity) == body_in(slots, entity),
{
    crate::entity::lemma_first_reusable(slots, 0);
    let after = crate::entity::spawned_in(slots, body);
    let entity = crate::entity::next_entity_in(slots);
    let table = collectibles.insert(next_id, entity);
    assert forall|id: u64| #[trigger] players.contains_key(id) implies holds_player(
        after,
        players[id],
        id,
    ) by {}
    assert forall|id: u64| #[trigger] table.contains_key(id) implies holds_collectible(
        after,
        table[id],
        id,
    ) && id < (next_id + 1) as u64 by {
        if id != next_id {
            assert(collectibles.contains_key(id));
        }
    }
    assert forall|i: int| 0 <= i < after.len() implies #[trigger] indexed(
        after,
        players,
        table,
        i,
    ) by {
        if i != entity.index {
            assert(indexed(slots, players, collectibles, i));
        }
    }
}

/// Taking a live collectible out of table and arena keeps them in step and
/// changes no other entity.
proof fn lemma_despawn_collectible(
    slots: Seq<Slot>,
    players: Map<u64, Entity>,
    collectibles: Map<u64, Entity>,
    next_id: u64,
    id: u64,
)
    requires
        slots.len() <= usize::MAX,
        consistent(slots, players, collectibles, next_id),
        collectibles.contains_key(id),
    ensures
        consistent(
            crate::entity::despawned_in(slots, collectibles[id]),
            players,
            collectibles.remove(id),
            next_id,
        ),
        forall|entity: Entity|
            #[trigger] live_in(slots, entity) && entity != collectibles[id] ==> live_in(
                crate::entity::despawned_in(slots, collectibles[id]),
                entity,
            ) && body_in(crate::entity::despawned_in(slots, collectibles[id]), entity) == body_in(
                slots,
                entity,
            ),
{
    let gone = collectibles[id];
    let after = crate::entity::despawned_in(slots, gone);
    let table = collectibles.remove(id);
    assert(holds_collectible(slots, gone, id));
    assert(indexed(slots, players, collectibles, gone.index as int));
    assert forall|key: u64| #[trigger] players.contains_key(key) implies holds_player(
        after,
        players[key],
        key,
    ) by {
        assert(indexed(slots, players, collectibles, players[key].index as int));
    }
    assert forall|key: u64| #[trigger] table.contains_key(key) implies holds_collectible(
        after,
        table[key],
        key,
    ) && key < next_id by {
        assert(collectibles.contains_key(key));
        assert(indexed(slots, players, collectibles, collectibles[key].index as int));
    }
    assert forall|i: int| 0 <= i < after.len() implies #[trigger] indexed(
        after,
        players,
        table,
        i,
    ) by {
        if i != gone.index {
            assert(indexed(slots, players, collectibles, i));
        }
    }
}

/// Whether `list` holds the collectibles of the first `upto` slots in the
/// order of their slots, `origin` naming the slot of each.
pub open spec fn gathers_collectibles(
    slots: Seq<Slot>,
    list: Seq<CollectibleInfo>,
    origin: Seq<int>,
    upto: int,
) -> bool {
    &&& origin.len() == list.len()
    &&& forall|k: int|
        0 <= k < list.len() ==> {
            &&& 0 <= #[trigger] origin[k] < upto
            &&& slots[origin[k]].holds_collectible()
            &&& list[k] == slots[origin[k]].body->0.collectible_info()
        }
    &&& forall|k: int, l: int| 0 <= k < l < list.len() ==> #[trigger] origin[k] < #[trigger] origin[l]
    &&& forall|s: int|
        0 <= s < upto && (#[trigger] slots[s]).holds_collectible() ==> exists|k: int|
            0 <= k < list.len() && #[trigger] origin[k] == s
}

/// Looking at one more slot, and listing its collectible if it holds one,
/// keeps the list in the order of the slots.
proof fn lemma_gather_collectible(
    slots: Seq<Slot>,
    list: Seq<CollectibleInfo>,
    origin: Seq<int>,
    upto: int,
)
    requires
        0 <= upto < slots.len(),
        gathers_collectibles(slots, list, origin, upto),
    ensures
        slots[upto].holds_collectible() ==> gathers_collectibles(
            slots,
            list.push(slots[upto].body->0.collectible_info()),
            origin.push(upto),
            upto + 1,
        ),
        !slots[upto].holds_collectible() ==> gathers_collectibles(slots, list, origin, upto + 1),
{
    if slots[upto].holds_collectible() {
        let longer = list.push(slots[upto].body->0.collectible_info());
        let sources = origin.push(upto);
        assert forall|s: int|
            0 <= s < upto + 1 && (#[trigger] slots[s]).holds_collectible() implies exists|k: int|
            0 <= k < longer.len() && #[trigger] sources[k] == s by {
            if s < upto {
                let k = choose|k: int| 0 <= k < list.len() && #[trigger] origin[k] == s;
                assert(sources[k] == s);
            } else {
                assert(sources[list.len() as int] == s);
            }
        }
        assert forall|k: int| 0 <= k < longer.len() implies {
            &&& 0 <= #[trigger] sources[k] < upto + 1
            &&& slots[sources[k]].holds_collectible()
            &&& longer[k] == slots[sources[k]].body->0.collectible_info()
        } by {
            if k < list.len() {
                assert(sources[k] == origin[k]);
            }
        }
        assert forall|k: int, l: int| 0 <= k < l < longer.len() implies #[trigger] sources[k]
            < #[trigger] sources[l] by {
            assert(sources[k] == origin[k]);
            if l < list.len() {
                assert(sources[l] == origin[l]);
            }
        }
    } else {
        assert forall|s: int|
            0 <= s < upto + 1 && (#[trigger] slots[s]).holds_collectible() implies exists|k: int|
            0 <= k < list.len() && #[trigger] origin[k] == s by {
            let k = choose|k: int| 0 <= k < list.len() && #[trigger] origin[k] == s;
            assert(origin[k] == s);
        }
    }
}

/// A list gathered from all slots names each live collectible once.
proof fn lemma_gathered_collectibles(
    slots: Seq<Slot>,
    players: Map<u64, Entity>,
    collectibles: Map<u64, Entity>,
    next_id: u64,
    list: Seq<CollectibleInfo>,
    origin: Seq<int>,
)
    requires
        slots.len() <= usize::MAX,
        consistent(slots, players, collectibles, next_id),
        gathers_collectibles(slots, list, origin, slots.len() as int),
    ensures
        lists_collectibles(list, collectibles_of(slots, collectibles)),
{
    let live = collectibles_of(slots, collectibles);
    assert forall|i: int| 0 <= i < list.len() implies live.contains_key(#[trigger] list[i].id)
        && live[list[i].id] == list[i].position by {
        assert(indexed(slots, players, collectibles, origin[i]));
    }
    assert forall|i: int, j: int| 0 <= i < j < list.len() implies (#[trigger] list[i]).id != (
    #[trigger] list[j]).id by {
        assert(indexed(slots, players, collectibles, origin[i]));
        assert(indexed(slots, players, collectibles, origin[j]));
        assert(origin[i] < origin[j]);
    }
    assert forall|id: u64| #[trigger] live.contains_key(id) implies exists|i: int|
        0 <= i < list.len() && (#[trigger] list[i]).id == id by {
        assert(collectibles.contains_key(id));
        let entity = collectibles[id];
        assert(holds_collectible(slots, entity, id));
        let s = entity.index as int;
        assert(slots[s].body is Some);
        let k = choose|k: int| 0 <= k < list.len() && #[trigger] origin[k] == s;
        assert(list[k].id == id);
    }
}

/// Whether `list` holds the players of the first `upto` slots in the order
/// of their slots, `origin` naming the slot of each.
pub open spec fn gathers_players(
    slots: Seq<Slot>,
    list: Seq<PlayerRecord>,
    origin: Seq<int>,
    upto: int,
) -> bool {
    &&& origin.len() == list.len()
    &&& forall|k: int|
        0 <= k < list.len() ==> {
            &&& 0 <= #[trigger] origin[k] < upto
            &&& slots[origin[k]].holds_player()
            &&& list[k] == record_of(slots[origin[k]].body->0)
        }
    &&& forall|k: int, l: int| 0 <= k < l < list.len() ==> #[trigger] origin[k] < #[trigger] origin[l]
    &&& forall|s: int|
        0 <= s < upto && (#[trigger] slots[s]).holds_player() ==> exists|k: int|
            0 <= k < list.len() && #[trigger] origin[k] == s
}

/// Looking at one more slot, and listing its player if it holds one, keeps
/// the list in the order of the slots.
proof fn lemma_gather_player(slots: Seq<Slot>, list: Seq<PlayerRecord>, origin: Seq<int>, upto: int)
    requires
        0 <= upto < slots.len(),
        gathers_players(slots, list, origin, upto),
    ensures
        slots[upto].holds_player() ==> gathers_players(
            slots,
            list.push(record_of(slots[upto].body->0)),
            origin.push(upto),
            upto + 1,
        ),
        !slots[upto].holds_player() ==> gathers_players(slots, list, origin, upto + 1),
{
    if slots[upto].holds_player() {
        let longer = list.push(record_of(slots[upto].body->0));
        let sources = origin.push(upto);
        assert forall|s: int|
            0 <= s < upto + 1 && (#[trigger] slots[s]).holds_player() implies exists|k: int|
            0 <= k < longer.len() && #[trigger] sources[k] == s by {
            if s < upto {
                let k = choose|k: int| 0 <= k < list.len() && #[trigger] origin[k] == s;
                assert(sources[k] == s);
            } else {
                assert(sources[list.len() as int] == s);
            }
        }
        assert forall|k: int| 0 <= k < longer.len() implies {
            &&& 0 <= #[trigger] sources[k] < upto + 1
            &&& slots[sources[k]].holds_player()
            &&& longer[k] == record_of(slots[sources[k]].body->0)
        } by {
            if k < list.len() {
                assert(sources[k] == origin[k]);
            }
        }
        assert forall|k: int, l: int| 0 <= k < l < longer.len() implies #[trigger] sources[k]
            < #[trigger] sources[l] by {
            assert(sources[k] == origin[k]);
            if l < list.len() {
                assert(sources[l] == origin[l]);
            }
        }
    } else {
        assert forall|s: int|
            0 <= s < upto + 1 && (#[trigger] slots[s]).holds_player() implies exists|k: int|
            0 <= k < list.len() && #[trigger] origin[k] == s by {
            let k = choose|k: int| 0 <= k < list.len() && #[trigger] origin[k] == s;
            assert(origin[k] == s);
        }
    }
}

/// A list gathered from all slots names each session's player once.
proof fn lemma_gathered_players(
    slots: Seq<Slot>,
    players: Map<u64, Entity>,
    collectibles: Map<u64, Entity>,
    next_id: u64,
    list: Seq<PlayerRecord>,
    origin: Seq<int>,
)
    requires
        slots.len() <= usize::MAX,
        consistent(slots, players, collectibles, next_id),
        gathers_players(slots, list, origin, slots.len() as int),
    ensures
        lists_records(list, players_of(slots, players)),
{
    let live = players_of(slots, players);
    assert forall|i: int| 0 <= i < list.len() implies live.contains_key(
        (#[trigger] list[i]).state.client_id,
    ) && live[list[i].state.client_id] == list[i] by {
        assert(indexed(slots, players, collectibles, origin[i]));
    }
    assert forall|i: int, j: int| 0 <= i < j < list.len() implies (
    #[trigger] list[i]).state.client_id != (#[trigger] list[j]).state.client_id by {
        assert(indexed(slots, players, collectibles, origin[i]));
        assert(indexed(slots, players, collectibles, origin[j]));
        assert(origin[i] < origin[j]);
    }
    assert forall|id: u64| #[trigger] live.contains_key(id) implies exists|i: int|
        0 <= i < list.len() && (#[trigger] list[i]).state.client_id == id by {
        assert(players.contains_key(id));
        let entity = players[id];
        assert(holds_player(slots, entity, id));
        let s = entity.index as int;
        assert(slots[s].holds_player());
        let k = choose|k: int| 0 <= k < list.len() && #[trigger] origin[k] == s;
        assert(list[k].state.client_id == id);
    }
}

} // verus!
