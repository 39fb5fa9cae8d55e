//! What the server is, stated over plain maps: the sessions with the state
//! of their players, the live collectibles, and how each event changes them.
//! The server's operations are held to these definitions, and the laws of
//! the simulation are proved of them.

use vstd::prelude::*;

use crate::motion::{MotionModel, PlayerState, Transform, Velocity};
use crate::protocol::{
    ClientMessage, CollectibleInfo, PlayerPosition, ProtocolError, ServerChannel, ServerMessage,
    ServerMessageView,
};
use crate::vector::{Vec2, Vec3};

verus! {

/// The least time between two broadcasts of the players' positions, in
/// milliseconds.
pub const BROADCAST_INTERVAL_MILLIS: u64 = 33;

/// What the server keeps of one session's player.
#[derive(Clone, Copy, Debug, PartialEq, Eq)]
pub struct PlayerRecord {
    pub state: PlayerState,
    /// The input frame applied last, until it is reported to the client.
    pub frame: Option<u32>,
}

/// What the transport reports of a session.
#[derive(Clone, Copy, Debug, PartialEq, Eq, Structural)]
pub enum ServerEvent {
    ClientConnected { client_id: u64 },
    ClientDisconnected { client_id: u64 },
}

/// To whom a message goes.
#[derive(Clone, Copy, Debug, PartialEq, Eq, Structural)]
pub enum Target {
    /// To the session of one client.
    Client(u64),
    /// To every session.
    Everyone,
}

/// A message for the transport to send.
#[derive(Clone, Debug, PartialEq, Eq)]
pub struct Outbound {
    pub target: Target,
    pub channel: ServerChannel,
    pub message: ServerMessage,
}

/// An outbound message with its lists as sequences.
pub struct OutboundView {
    pub target: Target,
    pub channel: ServerChannel,
    pub message: ServerMessageView,
}

impl View for Outbound {
    type V = OutboundView;

    open spec fn view(&self) -> OutboundView {
        OutboundView { target: self.target, channel: self.channel, message: self.message@ }
    }
}

/// The messages of a list, each by its view.
pub open spec fn outbound_views(list: Seq<Outbound>) -> Seq<OutboundView> {
    Seq::new(list.len(), |i: int| list[i]@)
}

/// A payload received from a client, decoded or found malformed.
#[derive(Clone, Copy, Debug, PartialEq, Eq)]
pub struct Inbound {
    pub client_id: u64,
    pub payload: Result<ClientMessage, ProtocolError>,
}

/// An accepted pickup: the collectible that left, who took it, and the one
/// that took its place.
#[derive(Clone, Copy, Debug, PartialEq, Eq)]
pub struct Consumed {
    pub id: u64,
    pub collector: u64,
    pub replacement: Option<CollectibleInfo>,
}

/// The state of the server.
pub struct ServerModel {
    pub model: MotionModel,
    /// The sessions, each with its player.
    pub players: Map<u64, PlayerRecord>,
    /// The live collectibles, each with its position.
    pub collectibles: Map<u64, Vec3>,
    /// The identifier of the next collectible; every identifier given out so
    /// far is smaller.
    pub next_id: u64,
    /// The time of the last broadcast, in milliseconds of a monotonic clock.
    pub last_broadcast: u64,
}

/// A message to one client.
pub open spec fn to_client(client_id: u64, message: ServerMessageView) -> OutboundView {
    OutboundView { target: Target::Client(client_id), channel: ServerChannel::World, message }
}

/// A message to every client.
pub open spec fn to_everyone(message: ServerMessageView) -> OutboundView {
    OutboundView { target: Target::Everyone, channel: ServerChannel::World, message }
}

/// Whether `list` names each live collectible once, with its position, and
/// nothing else.
pub open spec fn lists_collectibles(list: Seq<CollectibleInfo>, live: Map<u64, Vec3>) -> bool {
    &&& forall|i: int|
        0 <= i < list.len() ==> live.contains_key(#[trigger] list[i].id) && live[list[i].id]
            == list[i].position
    &&& forall|i: int, j: int|
        0 <= i < j < list.len() ==> (#[trigger] list[i]).id != (#[trigger] list[j]).id
    &&& forall|id: u64| #[trigger]
        live.contains_key(id) ==> exists|i: int| 0 <= i < list.len() && (#[trigger] list[i]).id == id
}

/// Whether `list` names each session once, with where its player stands, and
/// nothing else.
pub open spec fn lists_players(list: Seq<PlayerPosition>, players: Map<u64, PlayerRecord>) -> bool {
    &&& forall|i: int|
        0 <= i < list.len() ==> players.contains_key(#[trigger] list[i].client_id) && list[i]
            == position_of(players[list[i].client_id].state)
    &&& forall|i: int, j: int|
        0 <= i < j < list.len() ==> (#[trigger] list[i]).client_id != (#[trigger] list[j]).client_id
    &&& forall|id: u64| #[trigger]
        players.contains_key(id) ==> exists|i: int|
            0 <= i < list.len() && (#[trigger] list[i]).client_id == id
}

/// Whether `list` holds what the server keeps of each session's player,
/// once, and nothing else.
pub open spec fn lists_records(list: Seq<PlayerRecord>, players: Map<u64, PlayerRecord>) -> bool {
    &&& forall|i: int|
        0 <= i < list.len() ==> players.contains_key((#[trigger] list[i]).state.client_id)
            && players[list[i].state.client_id] == list[i]
    &&& forall|i: int, j: int|
        0 <= i < j < list.len() ==> (#[trigger] list[i]).state.client_id != (
        #[trigger] list[j]).state.client_id
    &&& forall|id: u64| #[trigger]
        players.contains_key(id) ==> exists|i: int|
            0 <= i < list.len() && (#[trigger] list[i]).state.client_id == id
}

/// Whether `out` greets each of `newcomers` in turn: its identifier, then
/// the live collectibles.
pub open spec fn greets(out: Seq<OutboundView>, newcomers: Seq<u64>, live: Map<u64, Vec3>) -> bool {
    &&& out.len() == 2 * newcomers.len()
    &&& forall|k: int|
        0 <= k < newcomers.len() ==> {
            &&& out[2 * k] == to_client(
                #[trigger] newcomers[k],
                ServerMessageView::AssignClientId { client_id: newcomers[k] },
            )
            &&& out[2 * k + 1].target == Target::Client(newcomers[k])
            &&& out[2 * k + 1].channel == ServerChannel::World
            &&& out[2 * k + 1].message matches ServerMessageView::SpawnCollectibles(list)
            &&& lists_collectibles(list, live)
        }
}

/// Where a player stands, as it is broadcast.
pub open spec fn position_of(state: PlayerState) -> PlayerPosition {
    PlayerPosition {
        client_id: state.client_id,
        position: state.transform.translation,
        rotation: state.transform.rotation,
    }
}

/// The correction that reports `state` after input `frame` to its client.
pub open spec fn correction_of(state: PlayerState, frame: u32) -> ServerMessageView {
    ServerMessageView::PlayerCorrection {
        client_id: state.client_id,
        frame,
        linvel: state.velocity.linvel,
        angvel: state.velocity.angvel,
        position: state.transform.translation,
        rotation: state.transform.rotation,
    }
}

/// Whether `message` speaks of the session `client_id`.
pub open spec fn mentions(message: ServerMessageView, client_id: u64) -> bool {
    match message {
        ServerMessageView::SpawnCollectibles(_) => false,
        ServerMessageView::DespawnCollectible { .. } => false,
        ServerMessageView::PlayerPositions(list) => exists|i: int|
            0 <= i < list.len() && (#[trigger] list[i]).client_id == client_id,
        ServerMessageView::AssignClientId { client_id: assigned } => assigned == client_id,
        ServerMessageView::PlayerCorrection { client_id: corrected, .. } => corrected == client_id,
    }
}

impl ServerModel {
    /// A server without sessions or collectibles, at the start of its clock.
    pub open spec fn initial(model: MotionModel) -> ServerModel {
        ServerModel {
            model,
            players: Map::empty(),
            collectibles: Map::empty(),
            next_id: 0,
            last_broadcast: 0,
        }
    }

    /// What holds of every state the server reaches: a player belongs to
    /// the session it is kept under, and every live collectible has an
    /// identifier that was given out.
    pub open spec fn valid(self) -> bool {
        &&& forall|id: u64| #[trigger]
            self.players.contains_key(id) ==> self.players[id].state.client_id == id
        &&& forall|id: u64| #[trigger] self.collectibles.contains_key(id) ==> id < self.next_id
    }

    /// Whether an identifier is left for another collectible.
    pub open spec fn can_mint(self) -> bool {
        self.next_id < u64::MAX
    }

    /// Whether the collectible `id` was given out and is gone.
    pub open spec fn retired(self, id: u64) -> bool {
        id < self.next_id && !self.collectibles.contains_key(id)
    }

    /// After `client_id` connected: a new player at rest at the origin. A
    /// session that exists is left as it is.
    pub open spec fn connected(self, client_id: u64) -> ServerModel {
        if self.players.contains_key(client_id) {
            self
        } else {
            ServerModel {
                players: self.players.insert(
                    client_id,
                    PlayerRecord { state: PlayerState::spawned(client_id), frame: None },
                ),
                ..self
            }
        }
    }

    /// After `client_id` disconnected: its session and player are gone.
    pub open spec fn disconnected(self, client_id: u64) -> ServerModel {
        ServerModel { players: self.players.remove(client_id), ..self }
    }

    /// After one event of the transport.
    pub open spec fn after_event(self, event: ServerEvent) -> ServerModel {
        match event {
            ServerEvent::ClientConnected { client_id } => self.connected(client_id),
            ServerEvent::ClientDisconnected { client_id } => self.disconnected(client_id),
        }
    }

    /// After the first `count` of `events`.
    pub open spec fn after_events(self, events: Seq<ServerEvent>, count: nat) -> ServerModel
        decreases count,
    {
        if count == 0 || count > events.len() {
            self
        } else {
            self.after_events(events, (count - 1) as nat).after_event(events[count - 1])
        }
    }

    /// The clients whose connection is taken among the first `count` of
    /// `events`, in order: those that connect without having a session.
    pub open spec fn newcomers(self, events: Seq<ServerEvent>, count: nat) -> Seq<u64>
        decreases count,
    {
        if count == 0 || count > events.len() {
            Seq::empty()
        } else {
            let earlier = self.newcomers(events, (count - 1) as nat);
            match events[count - 1] {
                ServerEvent::ClientConnected { client_id } => if self.after_events(
                    events,
                    (count - 1) as nat,
                ).players.contains_key(client_id) {
                    earlier
                } else {
                    earlier.push(client_id)
                },
                ServerEvent::ClientDisconnected { .. } => earlier,
            }
        }
    }

    /// After an input of `client_id`: its player moved by the input, and the
    /// input's frame is kept to be reported. Without a session nothing
    /// changes.
    pub open spec fn moved(self, client_id: u64, direction: Vec2, frame: u32, delta: u32) -> ServerModel {
        if self.players.contains_key(client_id) {
            ServerModel {
                players: self.players.insert(
                    client_id,
                    PlayerRecord {
                        state: self.players[client_id].state.after_input(self.model, direction, delta),
                        frame: Some(frame),
                    },
                ),
                ..self
            }
        } else {
            self
        }
    }

    /// After a collectible was placed at `position`, where an identifier was
    /// left for it.
    pub open spec fn placed(self, position: Vec3) -> ServerModel {
        if self.can_mint() {
            ServerModel {
                collectibles: self.collectibles.insert(self.next_id, position),
                next_id: (self.next_id + 1) as u64,
                ..self
            }
        } else {
            self
        }
    }

    /// Where the `n`-th collectible of a new world stands: `n` hundred world
    /// units along x.
    pub open spec fn initial_position(n: nat) -> Vec3 {
        Vec3 { x: crate::vector::saturate(n as int * 100_000) as i32, y: 0, z: 0 }
    }

    /// After the first `n` collectibles of a new world were placed.
    pub open spec fn after_initial(self, n: nat) -> ServerModel
        decreases n,
    {
        if n == 0 {
            self
        } else {
            self.after_initial((n - 1) as nat).placed(ServerModel::initial_position(n))
        }
    }

    /// After a request for the collectible `id`: where it is live it is
    /// gone, and a replacement stands at `position`.
    pub open spec fn consumed(self, id: u64, position: Vec3) -> ServerModel {
        if self.collectibles.contains_key(id) {
            ServerModel { collectibles: self.collectibles.remove(id), ..self }.placed(position)
        } else {
            self
        }
    }

    /// What a request for the collectible `id` by `collector` is answered
    /// with, where a replacement would stand at `position`.
    pub open spec fn consume_outcome(self, id: u64, collector: u64, position: Vec3) -> Option<Consumed> {
        if self.collectibles.contains_key(id) {
            Some(
                Consumed {
                    id,
                    collector,
                    replacement: if self.can_mint() {
                        Some(CollectibleInfo { id: self.next_id, position })
                    } else {
                        None
                    },
                },
            )
        } else {
            None
        }
    }

    /// What an accepted pickup is announced with.
    pub open spec fn announcement(outcome: Option<Consumed>) -> Seq<OutboundView> {
        match outcome {
            None => Seq::empty(),
            Some(consumed) => match consumed.replacement {
                None => seq![
                    to_everyone(ServerMessageView::DespawnCollectible { id: consumed.id }),
                ],
                Some(info) => seq![
                    to_everyone(ServerMessageView::DespawnCollectible { id: consumed.id }),
                    to_everyone(ServerMessageView::SpawnCollectibles(seq![info])),
                ],
            },
        }
    }

    /// Whether receiving `inbound` takes a collectible.
    pub open spec fn takes(self, inbound: Inbound) -> bool {
        &&& inbound.payload matches Ok(ClientMessage::AttemptCollect { id })
        &&& self.players.contains_key(inbound.client_id)
        &&& self.collectibles.contains_key(id)
    }

    /// After one payload was received. A malformed payload, and a message of
    /// a client without a session, change nothing.
    pub open spec fn received_one(self, inbound: Inbound, position: Vec3) -> ServerModel {
        match inbound.payload {
            Err(_) => self,
            Ok(ClientMessage::MoveInput { direction, frame, delta }) => self.moved(
                inbound.client_id,
                direction,
                frame,
                delta,
            ),
            Ok(ClientMessage::AttemptCollect { id }) => if self.players.contains_key(
                inbound.client_id,
            ) {
                self.consumed(id, position)
            } else {
                self
            },
        }
    }

    /// What receiving one payload makes the server send.
    pub open spec fn replies_one(self, inbound: Inbound, position: Vec3) -> Seq<OutboundView> {
        if self.takes(inbound) {
            ServerModel::announcement(
                self.consume_outcome(
                    inbound.payload->Ok_0->id,
                    inbound.client_id,
                    position,
                ),
            )
        } else {
            Seq::empty()
        }
    }

    /// After the first `count` payloads of `inbound`, the replacement of the
    /// `i`-th standing at `positions[i]` where it takes a collectible.
    pub open spec fn received(self, inbound: Seq<Inbound>, positions: Seq<Vec3>, count: nat) -> ServerModel
        decreases count,
    {
        if count == 0 || count > inbound.len() {
            self
        } else {
            self.received(inbound, positions, (count - 1) as nat).received_one(
                inbound[count - 1],
                positions[count - 1],
            )
        }
    }

    /// What receiving the first `count` payloads of `inbound` makes the
    /// server send.
    pub open spec fn replies(self, inbound: Seq<Inbound>, positions: Seq<Vec3>, count: nat) -> Seq<OutboundView>
        decreases count,
    {
        if count == 0 || count > inbound.len() {
            Seq::empty()
        } else {
            self.replies(inbound, positions, (count - 1) as nat) + self.received(
                inbound,
                positions,
                (count - 1) as nat,
            ).replies_one(inbound[count - 1], positions[count - 1])
        }
    }

    /// After the physics engine wrote the transform and velocity of the
    /// player of `client_id` back.
    pub open spec fn written_back(self, client_id: u64, transform: Transform, velocity: Velocity) -> ServerModel {
        if self.players.contains_key(client_id) {
            ServerModel {
                players: self.players.insert(
                    client_id,
                    PlayerRecord {
                        state: PlayerState { client_id, transform, velocity },
                        frame: self.players[client_id].frame,
                    },
                ),
                ..self
            }
        } else {
            self
        }
    }

    /// Whether a broadcast is due at `now`: more than the interval has
    /// passed since the last one.
    pub open spec fn broadcast_due(self, now: u64) -> bool {
        now - self.last_broadcast > BROADCAST_INTERVAL_MILLIS
    }

    /// After the scheduler ran at `now`: where a broadcast was due, the clock
    /// of the last broadcast is `now` and no frame waits to be reported.
    pub open spec fn after_broadcast(self, now: u64) -> ServerModel {
        if self.broadcast_due(now) {
            ServerModel {
                players: Map::new(
                    |id: u64| self.players.contains_key(id),
                    |id: u64| PlayerRecord { state: self.players[id].state, frame: None },
                ),
                last_broadcast: now,
                ..self
            }
        } else {
            self
        }
    }

    /// Whether `out` is what a broadcast of this state sends: first the
    /// positions of all players to everyone, then to each client whose
    /// input waits to be reported, once, the correction of its player.
    pub open spec fn broadcasts(self, out: Seq<OutboundView>) -> bool {
        &&& out.len() >= 1
        &&& out[0].target == Target::Everyone
        &&& out[0].channel == ServerChannel::World
        &&& out[0].message matches ServerMessageView::PlayerPositions(list)
        &&& lists_players(list, self.players)
        &&& forall|i: int|
            1 <= i < out.len() ==> self.corrects(#[trigger] out[i])
        &&& forall|i: int, j: int|
            1 <= i < j < out.len() ==> (#[trigger] out[i]).target != (#[trigger] out[j]).target
        &&& forall|id: u64|
            self.players.contains_key(id) && (#[trigger] self.players[id]).frame is Some ==> exists|i: int|
                1 <= i < out.len() && (#[trigger] out[i]).target == Target::Client(id)
    }

    /// Whether `message` is the correction owed to a client.
    pub open spec fn corrects(self, message: OutboundView) -> bool {
        &&& message.target matches Target::Client(id)
        &&& message.channel == ServerChannel::World
        &&& self.players.contains_key(id)
        &&& self.players[id].frame matches Some(frame)
        &&& message.message == correction_of(self.players[id].state, frame)
    }
}

/// The sessions after the frames of the first `upto` players of `list` were
/// reported.
pub open spec fn reported(players: Map<u64, PlayerRecord>, list: Seq<PlayerRecord>, upto: int) -> Map<
    u64,
    PlayerRecord,
> {
    Map::new(
        |id: u64| players.contains_key(id),
        |id: u64|
            if exists|j: int| 0 <= j < upto && (#[trigger] list[j]).state.client_id == id {
                PlayerRecord { state: players[id].state, frame: None }
            } else {
                players[id]
            },
    )
}

/// Whether `corrections` holds, in the order of `list`, the correction of
/// each of its first `upto` players whose frame waits to be reported,
/// `origin` naming the place of each in `list`.
pub open spec fn gathers_corrections(
    list: Seq<PlayerRecord>,
    corrections: Seq<OutboundView>,
    origin: Seq<int>,
    upto: int,
) -> bool {
    &&& origin.len() == corrections.len()
    &&& forall|k: int|
        0 <= k < corrections.len() ==> {
            &&& 0 <= #[trigger] origin[k] < upto
            &&& list[origin[k]].frame is Some
            &&& corrections[k] == to_client(
                list[origin[k]].state.client_id,
                correction_of(list[origin[k]].state, list[origin[k]].frame->0),
            )
        }
    &&& forall|k: int, l: int|
        0 <= k < l < corrections.len() ==> #[trigger] origin[k] < #[trigger] origin[l]
    &&& forall|j: int|
        0 <= j < upto && (#[trigger] list[j]).frame is Some ==> exists|k: int|
            0 <= k < corrections.len() && #[trigger] origin[k] == j
}

/// The positions of all players followed by the corrections gathered from
/// all of them are what a broadcast sends, and reporting every frame leaves
/// none waiting.
pub proof fn lemma_gathered_broadcast(
    model: ServerModel,
    list: Seq<PlayerRecord>,
    positions: Seq<PlayerPosition>,
    corrections: Seq<OutboundView>,
    origin: Seq<int>,
)
    requires
        lists_records(list, model.players),
        positions.len() == list.len(),
        forall|j: int| 0 <= j < list.len() ==> #[trigger] positions[j] == position_of(list[j].state),
        gathers_corrections(list, corrections, origin, list.len() as int),
    ensures
        model.broadcasts(
            seq![to_everyone(ServerMessageView::PlayerPositions(positions))] + corrections,
        ),
        reported(model.players, list, list.len() as int) == Map::new(
            |id: u64| model.players.contains_key(id),
            |id: u64| PlayerRecord { state: model.players[id].state, frame: None },
        ),
{
    let out = seq![to_everyone(ServerMessageView::PlayerPositions(positions))] + corrections;
    assert(out[0] == to_everyone(ServerMessageView::PlayerPositions(positions)));
    assert(lists_players(positions, model.players)) by {
        assert forall|i: int| 0 <= i < positions.len() implies model.players.contains_key(
            #[trigger] positions[i].client_id,
        ) && positions[i] == position_of(model.players[positions[i].client_id].state) by {
            assert(model.players.contains_key(list[i].state.client_id));
        }
        assert forall|i: int, j: int| 0 <= i < j < positions.len() implies (
        #[trigger] positions[i]).client_id != (#[trigger] positions[j]).client_id by {
            assert(list[i].state.client_id != list[j].state.client_id);
        }
        assert forall|id: u64| #[trigger] model.players.contains_key(id) implies exists|i: int|
            0 <= i < positions.len() && (#[trigger] positions[i]).client_id == id by {
            let i = choose|i: int| 0 <= i < list.len() && (#[trigger] list[i]).state.client_id == id;
            assert(positions[i].client_id == id);
        }
    }
    assert forall|i: int| 1 <= i < out.len() implies model.corrects(#[trigger] out[i]) by {
        assert(out[i] == corrections[i - 1]);
        let j = origin[i - 1];
        assert(model.players.contains_key(list[j].state.client_id));
    }
    assert forall|i: int, j: int| 1 <= i < j < out.len() implies (#[trigger] out[i]).target != (
    #[trigger] out[j]).target by {
        assert(out[i] == corrections[i - 1]);
        assert(out[j] == corrections[j - 1]);
        assert(origin[i - 1] < origin[j - 1]);
        assert(list[origin[i - 1]].state.client_id != list[origin[j - 1]].state.client_id);
    }
    assert forall|id: u64|
        model.players.contains_key(id) && (#[trigger] model.players[id]).frame is Some implies exists|
        i: int,
    |
        1 <= i < out.len() && (#[trigger] out[i]).target == Target::Client(id) by {
        let j = choose|j: int| 0 <= j < list.len() && (#[trigger] list[j]).state.client_id == id;
        assert(list[j] == model.players[id]);
        let k = choose|k: int| 0 <= k < corrections.len() && #[trigger] origin[k] == j;
        assert(out[k + 1] == corrections[k]);
    }
    assert(reported(model.players, list, list.len() as int) =~= Map::new(
        |id: u64| model.players.contains_key(id),
        |id: u64| PlayerRecord { state: model.players[id].state, frame: None },
    )) by {
        assert forall|id: u64| model.players.contains_key(id) implies reported(
            model.players,
            list,
            list.len() as int,
        )[id] == (PlayerRecord { state: model.players[id].state, frame: None }) by {
            let j = choose|j: int| 0 <= j < list.len() && (#[trigger] list[j]).state.client_id == id;
            assert(list[j].state.client_id == id);
        }
    }
}

/// Looking at one more player, and listing its correction if its frame
/// waits to be reported, keeps the corrections in the order of the players.
pub proof fn lemma_gather_correction(
    list: Seq<PlayerRecord>,
    corrections: Seq<OutboundView>,
    origin: Seq<int>,
    upto: int,
)
    requires
        0 <= upto < list.len(),
        gathers_corrections(list, corrections, origin, upto),
    ensures
        list[upto].frame is Some ==> gathers_corrections(
            list,
            corrections.push(
                to_client(
                    list[upto].state.client_id,
                    correction_of(list[upto].state, list[upto].frame->0),
                ),
            ),
            origin.push(upto),
            upto + 1,
        ),
        list[upto].frame is None ==> gathers_corrections(list, corrections, origin, upto + 1),
{
    if list[upto].frame is Some {
        let longer = corrections.push(
            to_client(
                list[upto].state.client_id,
                correction_of(list[upto].state, list[upto].frame->0),
            ),
        );
        let sources = origin.push(upto);
        assert forall|j: int| 0 <= j < upto + 1 && (#[trigger] list[j]).frame is Some implies exists|
            k: int,
        |
            0 <= k < longer.len() && #[trigger] sources[k] == j by {
            if j < upto {
                let k = choose|k: int| 0 <= k < corrections.len() && #[trigger] origin[k] == j;
                assert(sources[k] == j);
            } else {
                assert(sources[corrections.len() as int] == j);
            }
        }
        assert forall|k: int| 0 <= k < longer.len() implies {
            &&& 0 <= #[trigger] sources[k] < upto + 1
            &&& list[sources[k]].frame is Some
            &&& longer[k] == to_client(
                list[sources[k]].state.client_id,
                correction_of(list[sources[k]].state, list[sources[k]].frame->0),
            )
        } by {
            if k < corrections.len() {
                assert(sources[k] == origin[k]);
            }
        }
        assert forall|k: int, l: int| 0 <= k < l < longer.len() implies #[trigger] sources[k]
            < #[trigger] sources[l] by {
            assert(sources[k] == origin[k]);
            if l < corrections.len() {
                assert(sources[l] == origin[l]);
            }
        }
    } else {
        assert forall|j: int| 0 <= j < upto + 1 && (#[trigger] list[j]).frame is Some implies exists|
            k: int,
        |
            0 <= k < corrections.len() && #[trigger] origin[k] == j by {
            let k = choose|k: int| 0 <= k < corrections.len() && #[trigger] origin[k] == j;
            assert(origin[k] == j);
        }
    }
}

/// Connections and disconnections change nothing but the sessions.
pub proof fn lemma_events_change_sessions_only(model: ServerModel, events: Seq<ServerEvent>, count: nat)
    ensures
        model.after_events(events, count) == (ServerModel {
            players: model.after_events(events, count).players,
            ..model
        }),
    decreases count,
{
    if count != 0 && count <= events.len() {
        lemma_events_change_sessions_only(model, events, (count - 1) as nat);
    }
}

/// What the first `count` payloads do depends on no position behind them.
pub proof fn lemma_received_ignores_later(
    model: ServerModel,
    inbound: Seq<Inbound>,
    positions: Seq<Vec3>,
    others: Seq<Vec3>,
    count: nat,
)
    requires
        forall|k: int| 0 <= k < count ==> positions[k] == others[k],
    ensures
        model.received(inbound, positions, count) == model.received(inbound, others, count),
        model.replies(inbound, positions, count) == model.replies(inbound, others, count),
    decreases count,
{
    if count != 0 && count <= inbound.len() {
        lemma_received_ignores_later(model, inbound, positions, others, (count - 1) as nat);
    }
}

/// Whether one tick takes the server from `before` to `after` and sends
/// `out`: the events of the transport are taken first, then the payloads are
/// received, a replacement standing at `positions[i]` where the `i`-th takes
/// a collectible, then the broadcast scheduler runs at `now`. What is sent
/// is the greetings of the newcomers, then the announcements of the
/// pickups, then the broadcast `news`, if one was due.
pub open spec fn ticks(
    before: ServerModel,
    events: Seq<ServerEvent>,
    inbound: Seq<Inbound>,
    now: u64,
    positions: Seq<Vec3>,
    greetings: Seq<OutboundView>,
    news: Seq<OutboundView>,
    after: ServerModel,
    out: Seq<OutboundView>,
) -> bool {
    let joined = before.after_events(events, events.len());
    let played = joined.received(inbound, positions, inbound.len());
    &&& positions.len() == inbound.len()
    &&& forall|k: int| 0 <= k < positions.len() ==> crate::random::in_field(#[trigger] positions[k])
    &&& greets(greetings, before.newcomers(events, events.len()), before.collectibles)
    &&& if played.broadcast_due(now) {
        played.broadcasts(news)
    } else {
        news.len() == 0
    }
    &&& after == played.after_broadcast(now)
    &&& out == greetings + joined.replies(inbound, positions, inbound.len()) + news
}

/// One thing that happens to the server.
pub enum ServerStep {
    /// The transport reported a connection or a disconnection.
    Event(ServerEvent),
    /// A payload was received, a replacement standing at `position` where it
    /// takes a collectible.
    Receive { inbound: Inbound, position: Vec3 },
    /// The broadcast scheduler ran at `now`.
    Broadcast { now: u64 },
    /// A collectible was placed at `position`.
    Place { position: Vec3 },
    /// The physics engine wrote the state of a player back.
    WriteBack { client_id: u64, transform: Transform, velocity: Velocity },
}

impl ServerModel {
    /// The state after `step`.
    pub open spec fn after(self, step: ServerStep) -> ServerModel {
        match step {
            ServerStep::Event(event) => self.after_event(event),
            ServerStep::Receive { inbound, position } => self.received_one(inbound, position),
            ServerStep::Broadcast { now } => self.after_broadcast(now),
            ServerStep::Place { position } => self.placed(position),
            ServerStep::WriteBack { client_id, transform, velocity } => self.written_back(
                client_id,
                transform,
                velocity,
            ),
        }
    }

    /// The state after the first `count` of `steps`.
    pub open spec fn after_steps(self, steps: Seq<ServerStep>, count: nat) -> ServerModel
        decreases count,
    {
        if count == 0 || count > steps.len() {
            self
        } else {
            self.after_steps(steps, (count - 1) as nat).after(steps[count - 1])
        }
    }
}

/// A new server is in a valid state.
pub proof fn lemma_initial_valid(model: MotionModel)
    ensures
        ServerModel::initial(model).valid(),
{
}

/// Whatever happens to a server in a valid state leaves it in a valid
/// state: there is never more than one player for a session, and never a
/// collectible under an identifier that was not given out.
pub proof fn lemma_step_keeps_valid(model: ServerModel, step: ServerStep)
    requires
        model.valid(),
    ensures
        model.after(step).valid(),
        model.after(step).next_id >= model.next_id,
        model.after(step).model == model.model,
{
}

/// An identifier that was given out and whose collectible is gone never
/// names a collectible again, whatever happens: a replacement gets a new
/// identifier.
pub proof fn lemma_retired_stays_retired(model: ServerModel, id: u64, steps: Seq<ServerStep>, count: nat)
    requires
        model.valid(),
        model.retired(id),
    ensures
        model.after_steps(steps, count).valid(),
        model.after_steps(steps, count).retired(id),
    decreases count,
{
    if count != 0 && count <= steps.len() {
        lemma_retired_stays_retired(model, id, steps, (count - 1) as nat);
        lemma_step_keeps_valid(model.after_steps(steps, (count - 1) as nat), steps[count - 1]);
    }
}

/// Of two requests for one live collectible that arrive in the same tick,
/// from clients with sessions, the first is accepted and the second finds
/// the collectible gone; afterwards no collectible has that identifier, and
/// what the first request left is what both leave.
pub proof fn lemma_one_of_two_requests_wins(
    model: ServerModel,
    id: u64,
    first: u64,
    second: u64,
    positions: Seq<Vec3>,
)
    requires
        model.valid(),
        model.collectibles.contains_key(id),
        model.players.contains_key(first),
        model.players.contains_key(second),
    ensures
        ({
            let request = |client: u64|
                Inbound { client_id: client, payload: Ok(ClientMessage::AttemptCollect { id }) };
            let batch = seq![request(first), request(second)];
            let between = model.received_one(request(first), positions[0]);
            let after = model.received(batch, positions, 2);
            &&& model.takes(request(first))
            &&& model.consume_outcome(id, first, positions[0]) is Some
            &&& !between.takes(request(second))
            &&& between.consume_outcome(id, second, positions[1]) is None
            &&& between.replies_one(request(second), positions[1]).len() == 0
            &&& after == between
            &&& !after.collectibles.contains_key(id)
            &&& after.retired(id)
        }),
{
    let request = |client: u64|
        Inbound { client_id: client, payload: Ok(ClientMessage::AttemptCollect { id }) };
    let batch = seq![request(first), request(second)];
    let between = model.received_one(request(first), positions[0]);
    assert(model.received(batch, positions, 0) == model);
    assert(model.received(batch, positions, 1) == between);
    assert(model.received(batch, positions, 2) == between.received_one(
        request(second),
        positions[1],
    ));
}

/// A request for a collectible that is not live changes nothing and is
/// answered with nothing.
pub proof fn lemma_stale_request_is_ignored(model: ServerModel, id: u64, collector: u64, position: Vec3)
    requires
        !model.collectibles.contains_key(id),
    ensures
        model.consumed(id, position) == model,
        model.consume_outcome(id, collector, position) is None,
        ServerModel::announcement(model.consume_outcome(id, collector, position)).len() == 0,
{
}

/// An accepted pickup takes the collectible away and puts exactly one new
/// one in its place, under an identifier that no collectible had before;
/// it is announced to everyone by a despawn of the old identifier and then
/// a spawn of the new collectible.
pub proof fn lemma_pickup_replaces(model: ServerModel, id: u64, collector: u64, position: Vec3)
    requires
        model.valid(),
        model.collectibles.contains_key(id),
        model.can_mint(),
    ensures
        ({
            let after = model.consumed(id, position);
            let fresh = model.next_id;
            &&& after.valid()
            &&& !model.collectibles.contains_key(fresh)
            &&& !after.collectibles.contains_key(id)
            &&& after.collectibles == model.collectibles.remove(id).insert(fresh, position)
            &&& forall|other: u64|
                after.collectibles.contains_key(other) && !model.collectibles.contains_key(other)
                    <==> other == fresh
            &&& model.consume_outcome(id, collector, position) == Some(
                Consumed {
                    id,
                    collector,
                    replacement: Some(CollectibleInfo { id: fresh, position }),
                },
            )
            &&& ServerModel::announcement(model.consume_outcome(id, collector, position)) == seq![
                to_everyone(ServerMessageView::DespawnCollectible { id }),
                to_everyone(
                    ServerMessageView::SpawnCollectibles(
                        seq![CollectibleInfo { id: fresh, position }],
                    ),
                ),
            ]
        }),
{
}

/// A listing of the collectibles after an accepted pickup names the
/// replacement once and the collectible that was taken not at all.
pub proof fn lemma_snapshot_after_pickup(
    model: ServerModel,
    id: u64,
    position: Vec3,
    list: Seq<CollectibleInfo>,
)
    requires
        model.valid(),
        model.collectibles.contains_key(id),
        model.can_mint(),
        lists_collectibles(list, model.consumed(id, position).collectibles),
    ensures
        forall|i: int| 0 <= i < list.len() ==> (#[trigger] list[i]).id != id,
        exists|i: int|
            0 <= i < list.len() && #[trigger] list[i] == (CollectibleInfo {
                id: model.next_id,
                position,
            }),
        forall|i: int, j: int|
            0 <= i < list.len() && 0 <= j < list.len() && (#[trigger] list[i]).id == model.next_id
                && (#[trigger] list[j]).id == model.next_id ==> i == j,
{
    let after = model.consumed(id, position);
    assert(after.collectibles.contains_key(model.next_id));
    let i = choose|i: int| 0 <= i < list.len() && (#[trigger] list[i]).id == model.next_id;
    assert(after.collectibles.contains_key(list[i].id));
    assert forall|a: int, b: int|
        0 <= a < list.len() && 0 <= b < list.len() && (#[trigger] list[a]).id == model.next_id && (
        #[trigger] list[b]).id == model.next_id implies a == b by {
        if a < b {
            assert(list[a].id != list[b].id);
        }
        if b < a {
            assert(list[b].id != list[a].id);
        }
    }
    assert forall|k: int| 0 <= k < list.len() implies (#[trigger] list[k]).id != id by {
        assert(after.collectibles.contains_key(list[k].id));
    }
}

/// A client without a session stays without one whatever happens, short of
/// its connecting.
pub proof fn lemma_absent_stays_absent(model: ServerModel, client_id: u64, step: ServerStep)
    requires
        !model.players.contains_key(client_id),
        step != ServerStep::Event(ServerEvent::ClientConnected { client_id }),
    ensures
        !model.after(step).players.contains_key(client_id),
{
}

/// After a client disconnected it has no session.
pub proof fn lemma_disconnected_is_absent(model: ServerModel, client_id: u64)
    ensures
        !model.disconnected(client_id).players.contains_key(client_id),
        forall|other: u64|
            other != client_id ==> (#[trigger] model.disconnected(client_id).players.contains_key(
                other,
            ) == model.players.contains_key(other)),
{
}

/// A broadcast speaks of no client without a session, and goes to none.
pub proof fn lemma_broadcast_names_sessions_only(model: ServerModel, out: Seq<OutboundView>, client_id: u64)
    requires
        model.broadcasts(out),
        !model.players.contains_key(client_id),
    ensures
        forall|i: int|
            0 <= i < out.len() ==> !mentions((#[trigger] out[i]).message, client_id)
                && out[i].target != Target::Client(client_id),
{
    assert forall|i: int| 0 <= i < out.len() implies !mentions(
        (#[trigger] out[i]).message,
        client_id,
    ) && out[i].target != Target::Client(client_id) by {
        if i == 0 {
            let list = out[0].message->PlayerPositions_0;
            assert forall|k: int| 0 <= k < list.len() implies (#[trigger] list[k]).client_id
                != client_id by {
                assert(model.players.contains_key(list[k].client_id));
            }
        } else {
            assert(model.corrects(out[i]));
        }
    }
}

/// A broadcast tells everyone of every session, so a client that just
/// connected is known to all others after the next one.
pub proof fn lemma_broadcast_names_every_session(model: ServerModel, out: Seq<OutboundView>, client_id: u64)
    requires
        model.broadcasts(out),
        model.players.contains_key(client_id),
    ensures
        out[0].target == Target::Everyone,
        mentions(out[0].message, client_id),
{
}

/// What a received payload makes the server send speaks of no client.
pub proof fn lemma_replies_name_nobody(model: ServerModel, inbound: Inbound, position: Vec3, client_id: u64)
    ensures
        forall|i: int|
            0 <= i < model.replies_one(inbound, position).len() ==> !mentions(
                (#[trigger] model.replies_one(inbound, position)[i]).message,
                client_id,
            ) && model.replies_one(inbound, position)[i].target == Target::Everyone,
{
}

/// The inputs of one client, received in order, move its player as
/// replaying them from where it stood does, whatever their frames are.
pub proof fn lemma_inputs_replay(
    model: ServerModel,
    client_id: u64,
    commands: Seq<crate::motion::InputCommand>,
    positions: Seq<Vec3>,
    count: nat,
)
    requires
        model.players.contains_key(client_id),
        count <= commands.len(),
    ensures
        ({
            let batch = Seq::new(
                commands.len(),
                |i: int|
                    Inbound {
                        client_id,
                        payload: Ok(
                            ClientMessage::MoveInput {
                                direction: commands[i].direction,
                                frame: commands[i].frame,
                                delta: commands[i].delta,
                            },
                        ),
                    },
            );
            let after = model.received(batch, positions, count);
            &&& after.players.contains_key(client_id)
            &&& after.players[client_id].state == model.players[client_id].state.after_inputs(
                model.model,
                commands,
                count,
            )
            &&& after.model == model.model
            &&& after.collectibles == model.collectibles
        }),
    decreases count,
{
    if count != 0 {
        lemma_inputs_replay(model, client_id, commands, positions, (count - 1) as nat);
    }
}

} // verus!
