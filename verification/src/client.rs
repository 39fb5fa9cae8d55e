//! The client: it predicts the movement of its own player as soon as an
//! input is sampled, remembers what it predicted, and reconciles with the
//! server's corrections. What it knows of other players and of the
//! collectibles is what the server told it last.

use vstd::prelude::*;

use crate::motion::{MotionModel, PlayerState, Transform, Velocity};
use crate::protocol::{
    ClientMessage, CollectibleInfo, PlayerPosition, ProtocolError, ServerMessage,
    ServerMessageView,
};
use crate::roster::{distinct, holds, lemma_upserted, lemma_without, upserted, without, Roster};
use crate::vector::{lemma_normalized_within_unit, Quat, Vec2, Vec3, UNIT};

verus! {

/// The number of predicted frames a client remembers; the oldest is
/// forgotten when one more is predicted.
pub const HISTORY_CAPACITY: usize = 256;

/// The square of the distance, a tenth of a world unit, beyond which a
/// prediction counts as diverged from the server.
pub const DIVERGENCE_SQUARED: u128 = 10_000;

/// The square of the distance, forty world units, within which a client
/// asks for a collectible.
pub const COLLECT_RANGE_SQUARED: u128 = 1_600_000_000;

/// Marks the entity of the client's own player.
#[derive(Clone, Copy, Debug, PartialEq, Eq, Structural)]
pub struct Player;

/// Marks the entity of another client's player.
#[derive(Clone, Copy, Debug, PartialEq, Eq, Structural)]
pub struct RemotePlayer {
    pub client_id: u64,
}

/// The identifier of a collectible the server told of.
#[derive(Clone, Copy, Debug, PartialEq, Eq, Structural)]
pub struct RemoteCollectibleId(pub u64);

/// What the client knows of its own session.
#[derive(Clone, Copy, Debug, PartialEq, Eq)]
pub struct ClientInfo {
    /// The identifier the server assigned, once it did.
    pub id: Option<u64>,
}

impl Default for ClientInfo {
    fn default() -> (info: ClientInfo)
        ensures
            info.id is None,
    {
        ClientInfo { id: None }
    }
}

/// One prediction: the input of `frame` and where it took the player.
#[derive(Clone, Copy, Debug, PartialEq, Eq, Structural)]
pub struct PredictedFrame {
    pub frame: u32,
    pub input_direction: Vec2,
    pub resulting_position: Vec3,
}

/// The movement keys that are held down.
#[derive(Clone, Copy, Debug, PartialEq, Eq, Structural)]
pub struct MoveKeys {
    pub up: bool,
    pub down: bool,
    pub left: bool,
    pub right: bool,
}

/// The state of a client.
pub struct ClientModel {
    pub info: ClientInfo,
    pub model: MotionModel,
    /// The predicted state of the client's own player.
    pub state: PlayerState,
    /// The frame of the next input.
    pub next_frame: u32,
    /// The predictions that the server has not acknowledged, oldest first.
    pub history: Seq<PredictedFrame>,
    /// Where the server saw every other player last.
    pub remotes: Seq<(u64, Transform)>,
    /// The collectibles the server told of.
    pub collectibles: Seq<(u64, Transform)>,
}

/// Whether the frames of `history` increase strictly.
pub open spec fn increasing(history: Seq<PredictedFrame>) -> bool {
    forall|i: int, j: int|
        0 <= i < j < history.len() ==> (#[trigger] history[i]).frame < (#[trigger] history[j]).frame
}

/// The first place from `start` on whose frame is later than `frame`, or the
/// length of `history` where there is none.
pub open spec fn kept_from(history: Seq<PredictedFrame>, frame: u32, start: int) -> int
    decreases history.len() - start,
{
    if start < 0 || start >= history.len() {
        history.len() as int
    } else if history[start].frame > frame {
        start
    } else {
        kept_from(history, frame, start + 1)
    }
}

/// The predictions later than `frame`.
pub open spec fn pruned(history: Seq<PredictedFrame>, frame: u32) -> Seq<PredictedFrame> {
    history.subrange(kept_from(history, frame, 0), history.len() as int)
}

/// The prediction of `frame`, if it is remembered.
pub open spec fn acknowledged(history: Seq<PredictedFrame>, frame: u32) -> Option<PredictedFrame> {
    let kept = kept_from(history, frame, 0);
    if kept > 0 && history[kept - 1].frame == frame {
        Some(history[kept - 1])
    } else {
        None
    }
}

/// The history with one more prediction, the oldest forgotten where the
/// history was full.
pub open spec fn remembered(history: Seq<PredictedFrame>, entry: PredictedFrame) -> Seq<
    PredictedFrame,
> {
    if history.len() >= HISTORY_CAPACITY {
        history.remove(0).push(entry)
    } else {
        history.push(entry)
    }
}

/// Whether a prediction lies farther from the authoritative position than
/// a tenth of a world unit.
pub open spec fn diverges(predicted: Vec3, authoritative: Vec3) -> bool {
    predicted.distance_squared(authoritative) > DIVERGENCE_SQUARED
}

/// Whether a collectible at `place` is within reach of a player at
/// `position`: nearer than forty world units.
pub open spec fn within_reach(position: Vec3, place: Vec3) -> bool {
    position.distance_squared(place) < COLLECT_RANGE_SQUARED
}

/// What two opposite keys ask for along their axis.
pub open spec fn axis(forward: bool, backward: bool) -> int {
    (if forward {
        UNIT as int
    } else {
        0
    }) - (if backward {
        UNIT as int
    } else {
        0
    })
}

/// The direction that the held keys ask for, one world unit per axis.
pub open spec fn key_direction(keys: MoveKeys) -> Vec2 {
    Vec2 { x: axis(keys.right, keys.left) as i32, y: axis(keys.up, keys.down) as i32 }
}

/// The other players after the first `count` entries of a broadcast of all
/// players' positions, seen by the client of `own`: the broadcast names
/// everyone, so nobody else is left, and the client's own entry is passed
/// over.
pub open spec fn seen(list: Seq<PlayerPosition>, own: Option<u64>, count: nat) -> Seq<(u64, Transform)>
    decreases count,
{
    if count == 0 || count > list.len() {
        Seq::empty()
    } else {
        let earlier = seen(list, own, (count - 1) as nat);
        let entry = list[count - 1];
        if own == Some(entry.client_id) {
            earlier
        } else {
            upserted(
                earlier,
                entry.client_id,
                Transform { translation: entry.position, rotation: entry.rotation },
            )
        }
    }
}

/// The collectibles after the first `count` of `list` were added.
pub open spec fn added(collectibles: Seq<(u64, Transform)>, list: Seq<CollectibleInfo>, count: nat) -> Seq<
    (u64, Transform),
>
    decreases count,
{
    if count == 0 || count > list.len() {
        collectibles
    } else {
        upserted(
            added(collectibles, list, (count - 1) as nat),
            list[count - 1].id,
            Transform::at(list[count - 1].position),
        )
    }
}

/// The requests of a player at `position` for those of the first `count`
/// collectibles that are within reach, in their order.
pub open spec fn requests(collectibles: Seq<(u64, Transform)>, position: Vec3, count: nat) -> Seq<
    ClientMessage,
>
    decreases count,
{
    if count == 0 || count > collectibles.len() {
        Seq::empty()
    } else {
        let earlier = requests(collectibles, position, (count - 1) as nat);
        let entry = collectibles[count - 1];
        if within_reach(position, entry.1.translation) {
            earlier.push(ClientMessage::AttemptCollect { id: entry.0 })
        } else {
            earlier
        }
    }
}

impl ClientModel {
    /// A client that was told nothing yet, its player at rest at the
    /// origin.
    pub open spec fn initial(model: MotionModel) -> ClientModel {
        ClientModel {
            info: ClientInfo { id: None },
            model,
            state: PlayerState::spawned(0),
            next_frame: 0,
            history: Seq::empty(),
            remotes: Seq::empty(),
            collectibles: Seq::empty(),
        }
    }

    /// What holds of every state a client reaches: the history is bounded,
    /// its frames increase strictly and lie before the next frame, no
    /// player and no collectible is known twice, and the client's own
    /// player is not among the others.
    pub open spec fn valid(self) -> bool {
        &&& self.history.len() <= HISTORY_CAPACITY
        &&& increasing(self.history)
        &&& forall|i: int|
            0 <= i < self.history.len() ==> (#[trigger] self.history[i]).frame < self.next_frame
        &&& distinct(self.remotes)
        &&& distinct(self.collectibles)
        &&& self.info.id matches Some(id) ==> self.state.client_id == id && !holds(self.remotes, id)
    }

    /// Whether an input with these keys is predicted and sent: a direction
    /// is held and a frame is left to count it.
    pub open spec fn predicts(self, keys: MoveKeys) -> bool {
        key_direction(keys) != Vec2::zero() && self.next_frame < u32::MAX
    }

    /// After the keys were sampled `delta` microseconds after the previous
    /// input: where a direction is held, the player moved as the server will
    /// move it, and the prediction is remembered under the next frame.
    pub open spec fn predicted(self, keys: MoveKeys, delta: u32) -> ClientModel {
        if self.predicts(keys) {
            let direction = key_direction(keys).normalized();
            let state = self.state.after_input(self.model, direction, delta);
            ClientModel {
                state,
                next_frame: (self.next_frame + 1) as u32,
                history: remembered(
                    self.history,
                    PredictedFrame {
                        frame: self.next_frame,
                        input_direction: direction,
                        resulting_position: state.transform.translation,
                    },
                ),
                ..self
            }
        } else {
            self
        }
    }

    /// What sampling the keys sends to the server.
    pub open spec fn input_of(self, keys: MoveKeys, delta: u32) -> Option<ClientMessage> {
        if self.predicts(keys) {
            Some(
                ClientMessage::MoveInput {
                    direction: key_direction(keys).normalized(),
                    frame: self.next_frame,
                    delta,
                },
            )
        } else {
            None
        }
    }

    /// After the server's correction of the client's own player for
    /// `frame`. Where that frame is remembered, the player moves halfway to
    /// the server's position if the prediction had diverged and stays
    /// otherwise, and the predictions up to that frame are forgotten. Where
    /// it is not remembered, the player is put at the server's position
    /// with the server's velocity, and all predictions are forgotten. The
    /// player is turned as the server says.
    pub open spec fn corrected(
        self,
        frame: u32,
        linvel: Vec2,
        angvel: i32,
        position: Vec3,
        rotation: Quat,
    ) -> ClientModel {
        match acknowledged(self.history, frame) {
            Some(entry) => ClientModel {
                state: PlayerState {
                    transform: Transform {
                        translation: if diverges(entry.resulting_position, position) {
                            self.state.transform.translation.halfway(position)
                        } else {
                            self.state.transform.translation
                        },
                        rotation,
                    },
                    ..self.state
                },
                history: pruned(self.history, frame),
                ..self
            },
            None => ClientModel {
                state: PlayerState {
                    transform: Transform { translation: position, rotation },
                    velocity: Velocity { linvel, angvel },
                    ..self.state
                },
                history: Seq::empty(),
                ..self
            },
        }
    }

    /// After one message of the server.
    pub open spec fn received_one(self, message: ServerMessageView) -> ClientModel {
        match message {
            ServerMessageView::AssignClientId { client_id } => ClientModel {
                info: ClientInfo { id: Some(client_id) },
                state: PlayerState { client_id, ..self.state },
                remotes: without(self.remotes, client_id),
                ..self
            },
            ServerMessageView::PlayerPositions(list) => ClientModel {
                remotes: seen(list, self.info.id, list.len()),
                ..self
            },
            ServerMessageView::SpawnCollectibles(list) => ClientModel {
                collectibles: added(self.collectibles, list, list.len()),
                ..self
            },
            ServerMessageView::DespawnCollectible { id } => ClientModel {
                collectibles: without(self.collectibles, id),
                ..self
            },
            ServerMessageView::PlayerCorrection {
                client_id,
                frame,
                linvel,
                angvel,
                position,
                rotation,
            } => if self.info.id == Some(client_id) {
                self.corrected(frame, linvel, angvel, position, rotation)
            } else {
                ClientModel {
                    remotes: upserted(
                        self.remotes,
                        client_id,
                        Transform { translation: position, rotation },
                    ),
                    ..self
                }
            },
        }
    }

    /// After the first `count` payloads of a batch, each decoded or found
    /// malformed. A malformed payload changes nothing, and the payloads
    /// behind it are received all the same.
    pub open spec fn received(self, batch: Seq<Result<ServerMessage, ProtocolError>>, count: nat) -> ClientModel
        decreases count,
    {
        if count == 0 || count > batch.len() {
            self
        } else {
            let earlier = self.received(batch, (count - 1) as nat);
            match batch[count - 1] {
                Ok(message) => earlier.received_one(message@),
                Err(_) => earlier,
            }
        }
    }

    /// What a client in this state asks the server to let it collect.
    pub open spec fn collects(self) -> Seq<ClientMessage> {
        requests(self.collectibles, self.state.transform.translation, self.collectibles.len())
    }
}

/// `kept_from` parts a history whose frames increase: the frames before it
/// are not later than `frame`, the frames from it on are.
pub proof fn lemma_kept_from(history: Seq<PredictedFrame>, frame: u32, start: int)
    requires
        increasing(history),
        0 <= start <= history.len(),
    ensures
        start <= kept_from(history, frame, start) <= history.len(),
        forall|i: int|
            start <= i < kept_from(history, frame, start) ==> (#[trigger] history[i]).frame <= frame,
        forall|i: int|
            kept_from(history, frame, start) <= i < history.len() ==> (#[trigger] history[i]).frame
                > frame,
    decreases history.len() - start,
{
    if start < history.len() {
        if history[start].frame > frame {
            assert forall|i: int| start <= i < history.len() implies (#[trigger] history[i]).frame
                > frame by {
                if i > start {
                    assert(history[start].frame < history[i].frame);
                }
            }
        } else {
            lemma_kept_from(history, frame, start + 1);
        }
    }
}

/// Pruning keeps exactly the predictions later than `frame`, in their
/// order, and the prediction of `frame` is found wherever it is remembered.
pub proof fn lemma_pruned(history: Seq<PredictedFrame>, frame: u32)
    requires
        increasing(history),
    ensures
        increasing(pruned(history, frame)),
        pruned(history, frame).len() <= history.len(),
        forall|i: int|
            0 <= i < pruned(history, frame).len() ==> (#[trigger] pruned(history, frame)[i]).frame
                > frame,
        forall|i: int|
            0 <= i < history.len() && (#[trigger] history[i]).frame > frame ==> pruned(
                history,
                frame,
            ).contains(history[i]),
        forall|i: int|
            0 <= i < pruned(history, frame).len() ==> history.contains(
                #[trigger] pruned(history, frame)[i],
            ),
        forall|i: int|
            0 <= i < history.len() && (#[trigger] history[i]).frame == frame ==> acknowledged(
                history,
                frame,
            ) == Some(history[i]),
        acknowledged(history, frame) matches Some(entry) ==> entry.frame == frame
            && history.contains(entry),
{
    lemma_kept_from(history, frame, 0);
    let kept = kept_from(history, frame, 0);
    let rest = pruned(history, frame);
    assert forall|i: int| 0 <= i < rest.len() implies (#[trigger] rest[i]).frame > frame
        && history.contains(rest[i]) by {
        assert(rest[i] == history[kept + i]);
    }
    assert forall|i: int, j: int| 0 <= i < j < rest.len() implies (#[trigger] rest[i]).frame < (
    #[trigger] rest[j]).frame by {
        assert(rest[i] == history[kept + i]);
        assert(rest[j] == history[kept + j]);
    }
    assert forall|i: int| 0 <= i < history.len() && (#[trigger] history[i]).frame > frame implies rest.contains(
        history[i],
    ) by {
        assert(i >= kept);
        assert(rest[i - kept] == history[i]);
    }
    assert forall|i: int|
        0 <= i < history.len() && (#[trigger] history[i]).frame == frame implies acknowledged(
        history,
        frame,
    ) == Some(history[i]) by {
        assert(i < kept);
        if i < kept - 1 {
            assert(history[i].frame < history[kept - 1].frame);
        }
    }
    if kept > 0 {
        assert(history.contains(history[kept - 1]));
    }
}

/// Remembering a prediction of a frame later than all remembered ones keeps
/// the history bounded and its frames increasing.
pub proof fn lemma_remembered(history: Seq<PredictedFrame>, entry: PredictedFrame)
    requires
        history.len() <= HISTORY_CAPACITY,
        increasing(history),
        forall|i: int| 0 <= i < history.len() ==> (#[trigger] history[i]).frame < entry.frame,
    ensures
        remembered(history, entry).len() <= HISTORY_CAPACITY,
        increasing(remembered(history, entry)),
        forall|i: int|
            0 <= i < remembered(history, entry).len() ==> (#[trigger] remembered(
                history,
                entry,
            )[i]).frame <= entry.frame,
        remembered(history, entry).last() == entry,
{
    let after = remembered(history, entry);
    let shift: int = if history.len() >= HISTORY_CAPACITY {
        1
    } else {
        0
    };
    assert forall|i: int| 0 <= i < after.len() - 1 implies #[trigger] after[i] == history[i
        + shift] by {}
    assert forall|i: int, j: int| 0 <= i < j < after.len() implies (#[trigger] after[i]).frame < (
    #[trigger] after[j]).frame by {
        assert(after[i] == history[i + shift]);
        if j < after.len() - 1 {
            assert(after[j] == history[j + shift]);
        }
    }
    assert forall|i: int| 0 <= i < after.len() implies (#[trigger] after[i]).frame
        <= entry.frame by {
        if i < after.len() - 1 {
            assert(after[i] == history[i + shift]);
        }
    }
}

/// What a client sees of a broadcast never holds a key twice, and never
/// its own player.
pub proof fn lemma_seen(list: Seq<PlayerPosition>, own: Option<u64>, count: nat)
    ensures
        distinct(seen(list, own, count)),
        own matches Some(id) ==> !holds(seen(list, own, count), id),
    decreases count,
{
    if count != 0 && count <= list.len() {
        lemma_seen(list, own, (count - 1) as nat);
        let earlier = seen(list, own, (count - 1) as nat);
        let entry = list[count - 1];
        if own != Some(entry.client_id) {
            let value = Transform { translation: entry.position, rotation: entry.rotation };
            lemma_upserted(earlier, entry.client_id, value);
            if own is Some {
                let id = own->0;
                lemma_holds_value(earlier, id);
                lemma_holds_value(upserted(earlier, entry.client_id, value), id);
            }
        }
    }
}

/// A client knows, after a broadcast, every player that the broadcast names
/// but its own.
pub proof fn lemma_seen_holds_listed(list: Seq<PlayerPosition>, own: Option<u64>, count: nat, index: int)
    requires
        0 <= index < count <= list.len(),
        own != Some(list[index].client_id),
    ensures
        holds(seen(list, own, count), list[index].client_id),
    decreases count,
{
    let earlier = seen(list, own, (count - 1) as nat);
    let entry = list[count - 1];
    let value = Transform { translation: entry.position, rotation: entry.rotation };
    lemma_seen(list, own, (count - 1) as nat);
    if own != Some(entry.client_id) {
        lemma_upserted(earlier, entry.client_id, value);
    }
    if index < count - 1 {
        lemma_seen_holds_listed(list, own, (count - 1) as nat, index);
        lemma_holds_value(earlier, list[index].client_id);
        lemma_holds_value(seen(list, own, count), list[index].client_id);
    } else {
        lemma_holds_value(seen(list, own, count), list[index].client_id);
    }
}

/// A key is held exactly where it has a value.
pub proof fn lemma_holds_value<V>(entries: Seq<(u64, V)>, key: u64)
    ensures
        holds(entries, key) == (crate::roster::value_of(entries, key) is Some),
{
}

/// Adding collectibles never makes a key occur twice.
pub proof fn lemma_added(collectibles: Seq<(u64, Transform)>, list: Seq<CollectibleInfo>, count: nat)
    requires
        distinct(collectibles),
    ensures
        distinct(added(collectibles, list, count)),
    decreases count,
{
    if count != 0 && count <= list.len() {
        lemma_added(collectibles, list, (count - 1) as nat);
        lemma_upserted(
            added(collectibles, list, (count - 1) as nat),
            list[count - 1].id,
            Transform::at(list[count - 1].position),
        );
    }
}

/// Every message leaves the client in a state that is valid again.
pub proof fn lemma_received_one_valid(model: ClientModel, message: ServerMessageView)
    requires
        model.valid(),
    ensures
        model.received_one(message).valid(),
{
    match message {
        ServerMessageView::AssignClientId { client_id } => {
            lemma_without(model.remotes, client_id);
            lemma_holds_value(without(model.remotes, client_id), client_id);
        },
        ServerMessageView::PlayerPositions(list) => {
            lemma_seen(list, model.info.id, list.len());
        },
        ServerMessageView::SpawnCollectibles(list) => {
            lemma_added(model.collectibles, list, list.len());
        },
        ServerMessageView::DespawnCollectible { id } => {
            lemma_without(model.collectibles, id);
        },
        ServerMessageView::PlayerCorrection {
            client_id,
            frame,
            linvel,
            angvel,
            position,
            rotation,
        } => {
            if model.info.id == Some(client_id) {
                lemma_corrected_valid(model, frame, linvel, angvel, position, rotation);
            } else {
                let value = Transform { translation: position, rotation };
                lemma_upserted(model.remotes, client_id, value);
                if model.info.id is Some {
                    let id = model.info.id->0;
                    lemma_holds_value(model.remotes, id);
                    lemma_holds_value(upserted(model.remotes, client_id, value), id);
                }
            }
        },
    }
}

/// The client.
pub struct Client {
    info: ClientInfo,
    model: MotionModel,
    state: PlayerState,
    next_frame: u32,
    history: Vec<PredictedFrame>,
    remotes: Roster<Transform>,
    collectibles: Roster<Transform>,
}

impl View for Client {
    type V = ClientModel;

    closed spec fn view(&self) -> ClientModel {
        ClientModel {
            info: self.info,
            model: self.model,
            state: self.state,
            next_frame: self.next_frame,
            history: self.history@,
            remotes: self.remotes@,
            collectibles: self.collectibles@,
        }
    }
}

impl Client {
    /// Whether the client's state is valid.
    pub open spec fn wf(&self) -> bool {
        self@.valid()
    }

    /// A client that was told nothing yet and predicts by `model`, its
    /// player at rest at the origin.
    pub fn new(model: MotionModel) -> (client: Client)
        ensures
            client.wf(),
            client@ == ClientModel::initial(model),
    {
        Client {
            info: ClientInfo::default(),
            model,
            state: PlayerState::spawn(0),
            next_frame: 0,
            history: Vec::new(),
            remotes: Roster::new(),
            collectibles: Roster::new(),
        }
    }

    /// What the client knows of its own session.
    pub fn info(&self) -> (info: ClientInfo)
        ensures
            info == self@.info,
    {
        self.info
    }

    /// The client's own player: its marker and where it is predicted to be.
    pub fn local_player(&self) -> (player: (Player, Transform))
        ensures
            player.1 == self@.state.transform,
    {
        (Player, self.state.transform)
    }

    /// The predicted state of the client's own player.
    pub fn state(&self) -> (state: PlayerState)
        ensures
            state == self@.state,
    {
        self.state
    }

    /// The predictions that the server has not acknowledged, oldest first.
    pub fn history(&self) -> (history: Vec<PredictedFrame>)
        ensures
            history@ == self@.history,
    {
        let mut history: Vec<PredictedFrame> = Vec::new();
        let mut i: usize = 0;
        while i < self.history.len()
            invariant
                i <= self.history.len(),
                history@ == self.history@.subrange(0, i as int),
            decreases self.history.len() - i,
        {
            history.push(self.history[i]);
            assert(history@ =~= self.history@.subrange(0, i as int + 1));
            i = i + 1;
        }
        assert(history@ =~= self.history@);
        history
    }

    /// The other players, each with where the server saw it last.
    pub fn remote_players(&self) -> (list: Vec<(RemotePlayer, Transform)>)
        ensures
            list@.len() == self@.remotes.len(),
            forall|i: int|
                0 <= i < list@.len() ==> (#[trigger] list@[i]).0.client_id == self@.remotes[i].0
                    && list@[i].1 == self@.remotes[i].1,
    {
        let mut list: Vec<(RemotePlayer, Transform)> = Vec::new();
        let mut i: usize = 0;
        while i < self.remotes.len()
            invariant
                i <= self.remotes@.len(),
                list@.len() == i,
                forall|k: int|
                    0 <= k < i ==> (#[trigger] list@[k]).0.client_id == self.remotes@[k].0
                        && list@[k].1 == self.remotes@[k].1,
            decreases self.remotes@.len() - i,
        {
            let entry = self.remotes.entry(i);
            list.push((RemotePlayer { client_id: entry.0 }, entry.1));
            i = i + 1;
        }
        list
    }

    /// The collectibles the server told of, each with where it lies.
    pub fn collectibles(&self) -> (list: Vec<(RemoteCollectibleId, Transform)>)
        ensures
            list@.len() == self@.collectibles.len(),
            forall|i: int|
                0 <= i < list@.len() ==> (#[trigger] list@[i]).0.0 == self@.collectibles[i].0
                    && list@[i].1 == self@.collectibles[i].1,
    {
        let mut list: Vec<(RemoteCollectibleId, Transform)> = Vec::new();
        let mut i: usize = 0;
        while i < self.collectibles.len()
            invariant
                i <= self.collectibles@.len(),
                list@.len() == i,
                forall|k: int|
                    0 <= k < i ==> (#[trigger] list@[k]).0.0 == self.collectibles@[k].0
                        && list@[k].1 == self.collectibles@[k].1,
            decreases self.collectibles@.len() - i,
        {
            let entry = self.collectibles.entry(i);
            list.push((RemoteCollectibleId(entry.0), entry.1));
            i = i + 1;
        }
        list
    }

    /// Samples the movement keys `delta` microseconds after the previous
    /// input. Where a direction is held, the player is moved at once as the
    /// server will move it, the prediction is remembered under the next
    /// frame, and the input to send is handed back.
    pub fn move_player(&mut self, keys: MoveKeys, delta: u32) -> (input: Option<ClientMessage>)
        requires
            old(self).wf(),
        ensures
            final(self).wf(),
            final(self)@ == old(self)@.predicted(keys, delta),
            input == old(self)@.input_of(keys, delta),
    {
        let mut held = Vec2 { x: 0, y: 0 };
        if keys.up {
            held.y = held.y + UNIT;
        }
        if keys.down {
            held.y = held.y - UNIT;
        }
        if keys.left {
            held.x = held.x - UNIT;
        }
        if keys.right {
            held.x = held.x + UNIT;
        }
        assert(held == key_direction(keys));
        if held.is_zero() || self.next_frame == u32::MAX {
            return None;
        }
        let direction = held.normalize_or_zero();
        let frame: u32 = self.next_frame;
        self.state = self.state.apply_input(self.model, direction, delta);
        let entry = PredictedFrame {
            frame,
            input_direction: direction,
            resulting_position: self.state.transform.translation,
        };
        proof {
            lemma_remembered(self.history@, entry);
        }
        if self.history.len() >= HISTORY_CAPACITY {
            self.history.remove(0);
        }
        self.history.push(entry);
        self.next_frame = frame + 1;
        Some(ClientMessage::MoveInput { direction, frame, delta })
    }

    /// The place in the history from which the predictions are later than
    /// `frame`.
    fn later_than(&self, frame: u32) -> (kept: usize)
        requires
            self.wf(),
        ensures
            kept == kept_from(self@.history, frame, 0),
            kept <= self@.history.len(),
    {
        let mut i: usize = 0;
        proof {
            lemma_kept_from(self.history@, frame, 0);
        }
        while i < self.history.len()
            invariant
                i <= self.history.len(),
                kept_from(self.history@, frame, i as int) == kept_from(self.history@, frame, 0),
            decreases self.history.len() - i,
        {
            if self.history[i].frame > frame {
                return i;
            }
            i = i + 1;
        }
        i
    }

    /// Reconciles the client's own player with the server's correction for
    /// `frame`.
    pub fn reconcile(&mut self, frame: u32, linvel: Vec2, angvel: i32, position: Vec3, rotation: Quat)
        requires
            old(self).wf(),
        ensures
            final(self).wf(),
            final(self)@ == old(self)@.corrected(frame, linvel, angvel, position, rotation),
    {
        proof {
            lemma_corrected_valid(self@, frame, linvel, angvel, position, rotation);
        }
        let kept = self.later_than(frame);
        if kept > 0 && self.history[kept - 1].frame == frame {
            let entry = self.history[kept - 1];
            if entry.resulting_position.squared_distance(position) > DIVERGENCE_SQUARED {
                self.state.transform.translation = self.state.transform.translation.lerp_half(
                    position,
                );
            }
            self.state.transform.rotation = rotation;
            let rest = self.history.split_off(kept);
            self.history = rest;
        } else {
            self.state.transform = Transform { translation: position, rotation };
            self.state.velocity = Velocity { linvel, angvel };
            self.history.clear();
        }
    }

    /// Receives one message of the server.
    pub fn receive_one(&mut self, message: &ServerMessage)
        requires
            old(self).wf(),
        ensures
            final(self).wf(),
            final(self)@ == old(self)@.received_one(message@),
    {
        proof {
            lemma_received_one_valid(self@, message@);
        }
        match message {
            ServerMessage::AssignClientId { client_id } => {
                self.info = ClientInfo { id: Some(*client_id) };
                self.state.client_id = *client_id;
                self.remotes.remove(*client_id);
            },
            ServerMessage::PlayerPositions(list) => {
                self.remotes.clear();
                let mut i: usize = 0;
                while i < list.len()
                    invariant
                        i <= list.len(),
                        self.remotes.wf(),
                        self.remotes@ == seen(list@, self.info.id, i as nat),
                        self.info == old(self).info,
                        self.model == old(self).model,
                        self.state == old(self).state,
                        self.next_frame == old(self).next_frame,
                        self.history == old(self).history,
                        self.collectibles == old(self).collectibles,
                    decreases list.len() - i,
                {
                    let entry = list[i];
                    let own = match self.info.id {
                        Some(id) => id == entry.client_id,
                        None => false,
                    };
                    if !own {
                        self.remotes.upsert(
                            entry.client_id,
                            Transform { translation: entry.position, rotation: entry.rotation },
                        );
                    }
                    i = i + 1;
                }
            },
            ServerMessage::SpawnCollectibles(list) => {
                let mut i: usize = 0;
                while i < list.len()
                    invariant
                        i <= list.len(),
                        self.collectibles.wf(),
                        self.collectibles@ == added(old(self)@.collectibles, list@, i as nat),
                        self.info == old(self).info,
                        self.model == old(self).model,
                        self.state == old(self).state,
                        self.next_frame == old(self).next_frame,
                        self.history == old(self).history,
                        self.remotes == old(self).remotes,
                    decreases list.len() - i,
                {
                    let entry = list[i];
                    self.collectibles.upsert(entry.id, Transform::from_translation(entry.position));
                    i = i + 1;
                }
            },
            ServerMessage::DespawnCollectible { id } => {
                self.collectibles.remove(*id);
            },
            ServerMessage::PlayerCorrection {
                client_id,
                frame,
                linvel,
                angvel,
                position,
                rotation,
            } => {
                let own = match self.info.id {
                    Some(id) => id == *client_id,
                    None => false,
                };
                if own {
                    self.reconcile(*frame, *linvel, *angvel, *position, *rotation);
                } else {
                    self.remotes.upsert(
                        *client_id,
                        Transform { translation: *position, rotation: *rotation },
                    );
                }
            },
        }
    }

    /// Receives a batch of payloads, each decoded or found malformed, in
    /// order and to the end: a malformed payload is dropped and the ones
    /// behind it are received all the same.
    pub fn receive_messages(&mut self, batch: &Vec<Result<ServerMessage, ProtocolError>>)
        requires
            old(self).wf(),
        ensures
            final(self).wf(),
            final(self)@ == old(self)@.received(batch@, batch@.len()),
    {
        let mut i: usize = 0;
        while i < batch.len()
            invariant
                i <= batch.len(),
                self.wf(),
                self@ == old(self)@.received(batch@, i as nat),
            decreases batch.len() - i,
        {
            match &batch[i] {
                Ok(message) => {
                    self.receive_one(message);
                },
                Err(_) => {},
            }
            i = i + 1;
        }
    }

    /// Asks for every known collectible that the player is nearer to than
    /// forty world units.
    pub fn check_collectibles(&self) -> (asked: Vec<ClientMessage>)
        ensures
            asked@ == self@.collects(),
    {
        let mut asked: Vec<ClientMessage> = Vec::new();
        let position = self.state.transform.translation;
        let mut i: usize = 0;
        while i < self.collectibles.len()
            invariant
                i <= self.collectibles@.len(),
                position == self.state.transform.translation,
                asked@ == requests(self.collectibles@, position, i as nat),
            decreases self.collectibles@.len() - i,
        {
            let entry = self.collectibles.entry(i);
            if position.squared_distance(entry.1.translation) < COLLECT_RANGE_SQUARED {
                asked.push(ClientMessage::AttemptCollect { id: entry.0 });
            }
            i = i + 1;
        }
        asked
    }

    /// One tick of the client: first every pending message of the server is
    /// received, then the keys are sampled and the new input predicted, then
    /// the collectibles within reach are asked for. Handed back is what to
    /// send: the input, if there is one, before the requests.
    pub fn tick(
        &mut self,
        batch: &Vec<Result<ServerMessage, ProtocolError>>,
        keys: MoveKeys,
        delta: u32,
    ) -> (out: Vec<ClientMessage>)
        requires
            old(self).wf(),
        ensures
            final(self).wf(),
            final(self)@ == old(self)@.received(batch@, batch@.len()).predicted(keys, delta),
            out@ == (match old(self)@.received(batch@, batch@.len()).input_of(keys, delta) {
                Some(input) => seq![input],
                None => Seq::empty(),
            }) + final(self)@.collects(),
    {
        self.receive_messages(batch);
        let mut out: Vec<ClientMessage> = Vec::new();
        match self.move_player(keys, delta) {
            Some(input) => {
                out.push(input);
            },
            None => {},
        }
        let ghost first = out@;
        let mut asked = self.check_collectibles();
        out.append(&mut asked);
        assert(out@ =~= first + self@.collects());
        out
    }
}

/// A correction leaves the client in a state that is valid again.
pub proof fn lemma_corrected_valid(
    model: ClientModel,
    frame: u32,
    linvel: Vec2,
    angvel: i32,
    position: Vec3,
    rotation: Quat,
)
    requires
        model.valid(),
    ensures
        model.corrected(frame, linvel, angvel, position, rotation).valid(),
{
    lemma_pruned(model.history, frame);
    let after = model.corrected(frame, linvel, angvel, position, rotation);
    assert forall|i: int| 0 <= i < after.history.len() implies (#[trigger] after.history[i]).frame
        < after.next_frame by {
        if acknowledged(model.history, frame) is Some {
            assert(model.history.contains(pruned(model.history, frame)[i]));
        }
    }
}

/// Predicting an input leaves the client in a state that is valid again.
pub proof fn lemma_predicted_valid(model: ClientModel, keys: MoveKeys, delta: u32)
    requires
        model.valid(),
    ensures
        model.predicted(keys, delta).valid(),
        model.predicts(keys) ==> model.predicted(keys, delta).history.last().frame
            == model.next_frame,
{
    if model.predicts(keys) {
        let direction = key_direction(keys).normalized();
        let state = model.state.after_input(model.model, direction, delta);
        let entry = PredictedFrame {
            frame: model.next_frame,
            input_direction: direction,
            resulting_position: state.transform.translation,
        };
        lemma_remembered(model.history, entry);
    }
}

/// The direction that a client sends is never longer than one world unit,
/// so the server applies it as the client predicted it.
pub proof fn lemma_sent_direction_is_unit(model: ClientModel, keys: MoveKeys, delta: u32)
    requires
        model.predicts(keys),
    ensures
        model.input_of(keys, delta) matches Some(ClientMessage::MoveInput { direction, .. })
            && direction.within_unit() && direction.clamped() == direction,
{
    lemma_normalized_within_unit(key_direction(keys));
}

/// A correction for a frame that is remembered: where the prediction of
/// that frame lies farther than a tenth of a world unit from the server's
/// position, the player moves halfway to the server's position, and
/// otherwise it stays; either way exactly the predictions later than that
/// frame are kept. Where the player still stands at the predicted position,
/// it moves to the point halfway between prediction and server.
pub proof fn lemma_correction_of_remembered_frame(
    model: ClientModel,
    index: int,
    linvel: Vec2,
    angvel: i32,
    position: Vec3,
    rotation: Quat,
)
    requires
        model.valid(),
        0 <= index < model.history.len(),
    ensures
        ({
            let entry = model.history[index];
            let live = model.state.transform.translation;
            let after = model.corrected(entry.frame, linvel, angvel, position, rotation);
            &&& diverges(entry.resulting_position, position) ==> after.state.transform.translation
                == live.halfway(position)
            &&& diverges(entry.resulting_position, position) && live == entry.resulting_position
                ==> after.state.transform.translation == entry.resulting_position.halfway(position)
            &&& !diverges(entry.resulting_position, position) ==> after.state.transform.translation
                == live
            &&& after.history == model.history.subrange(index + 1, model.history.len() as int)
            &&& forall|i: int|
                0 <= i < after.history.len() ==> (#[trigger] after.history[i]).frame > entry.frame
            &&& forall|i: int|
                0 <= i < model.history.len() && (#[trigger] model.history[i]).frame > entry.frame
                    ==> after.history.contains(model.history[i])
        }),
{
    let entry = model.history[index];
    lemma_pruned(model.history, entry.frame);
    lemma_kept_from(model.history, entry.frame, 0);
    let kept = kept_from(model.history, entry.frame, 0);
    if kept <= index {
        assert(model.history[index].frame > entry.frame);
    }
    if kept > index + 1 {
        assert(model.history[index].frame < model.history[index + 1].frame);
        assert(model.history[index + 1].frame <= entry.frame);
    }
}

/// A correction for a frame that is not remembered puts the player exactly
/// at the server's position and forgets every prediction.
pub proof fn lemma_correction_of_forgotten_frame(
    model: ClientModel,
    frame: u32,
    linvel: Vec2,
    angvel: i32,
    position: Vec3,
    rotation: Quat,
)
    requires
        model.valid(),
        forall|i: int| 0 <= i < model.history.len() ==> (#[trigger] model.history[i]).frame != frame,
    ensures
        model.corrected(frame, linvel, angvel, position, rotation).state.transform.translation
            == position,
        model.corrected(frame, linvel, angvel, position, rotation).history.len() == 0,
{
    lemma_pruned(model.history, frame);
    if acknowledged(model.history, frame) is Some {
        let entry = acknowledged(model.history, frame)->0;
        assert(model.history.contains(entry));
    }
}

/// What the server tells of other players and of collectibles never
/// touches the prediction of the client's own player: only a correction
/// addressed to the client does.
pub proof fn lemma_remote_updates_keep_prediction(model: ClientModel, message: ServerMessageView)
    requires
        !(message matches ServerMessageView::PlayerCorrection { client_id, .. } && model.info.id
            == Some(client_id)),
    ensures
        model.received_one(message).state.transform == model.state.transform,
        model.received_one(message).state.velocity == model.state.velocity,
        model.received_one(message).history == model.history,
        model.received_one(message).next_frame == model.next_frame,
{
}

} // verus!
