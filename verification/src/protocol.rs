//! The wire protocol: the two message families, the channels that carry
//! them, and the transport settings both ends agree on.

use vstd::prelude::*;

use crate::vector::{Quat, Vec2, Vec3};

verus! {

/// Identifies this protocol at connect time; a peer with another identifier
/// is turned away by the transport before a session exists.
pub const PROTOCOL_ID: u64 = 0x12345678;

/// The retransmission interval of a reliable channel, in milliseconds.
pub const RESEND_TIME_MILLIS: u64 = 200;

/// The memory budget of one channel, in bytes.
pub const MAX_MEMORY_USAGE_BYTES: usize = 1048576;

/// The number of bytes a connection may send per tick.
pub const AVAILABLE_BYTES_PER_TICK: u64 = 1048576;

/// What a client sends to the server.
#[derive(Clone, Copy, Debug, PartialEq, Eq, Structural)]
pub enum ClientMessage {
    /// One sampled input: the direction held, the client's input frame, and
    /// the microseconds elapsed since the previous sample.
    MoveInput { direction: Vec2, frame: u32, delta: u32 },
    /// A request to pick up the collectible `id`.
    AttemptCollect { id: u64 },
}

/// Where one player stands, as broadcast to every client.
#[derive(Clone, Copy, Debug, PartialEq, Eq, Structural)]
pub struct PlayerPosition {
    pub client_id: u64,
    pub position: Vec3,
    pub rotation: Quat,
}

/// What a client needs to show one collectible.
#[derive(Clone, Copy, Debug, PartialEq, Eq, Structural)]
pub struct CollectibleInfo {
    pub id: u64,
    pub position: Vec3,
}

/// What the server sends to clients.
#[derive(Clone, Debug, PartialEq, Eq)]
pub enum ServerMessage {
    /// Collectibles that came into being: all of them at login, the
    /// replacement after a pickup.
    SpawnCollectibles(Vec<CollectibleInfo>),
    /// The collectible `id` was picked up.
    DespawnCollectible { id: u64 },
    /// Where every player stands.
    PlayerPositions(Vec<PlayerPosition>),
    /// Tells a client the identifier of its own session.
    AssignClientId { client_id: u64 },
    /// The authoritative state of a player after its input `frame`, sent to
    /// the client that owns it.
    PlayerCorrection {
        client_id: u64,
        frame: u32,
        linvel: Vec2,
        angvel: i32,
        position: Vec3,
        rotation: Quat,
    },
}

/// A server message with its lists as sequences.
pub enum ServerMessageView {
    SpawnCollectibles(Seq<CollectibleInfo>),
    DespawnCollectible { id: u64 },
    PlayerPositions(Seq<PlayerPosition>),
    AssignClientId { client_id: u64 },
    PlayerCorrection {
        client_id: u64,
        frame: u32,
        linvel: Vec2,
        angvel: i32,
        position: Vec3,
        rotation: Quat,
    },
}

impl View for ServerMessage {
    type V = ServerMessageView;

    open spec fn view(&self) -> ServerMessageView {
        match *self {
            ServerMessage::SpawnCollectibles(list) => ServerMessageView::SpawnCollectibles(list@),
            ServerMessage::DespawnCollectible { id } => ServerMessageView::DespawnCollectible {
                id,
            },
            ServerMessage::PlayerPositions(list) => ServerMessageView::PlayerPositions(list@),
            ServerMessage::AssignClientId { client_id } => ServerMessageView::AssignClientId {
                client_id,
            },
            ServerMessage::PlayerCorrection {
                client_id,
                frame,
                linvel,
                angvel,
                position,
                rotation,
            } => ServerMessageView::PlayerCorrection {
                client_id,
                frame,
                linvel,
                angvel,
                position,
                rotation,
            },
        }
    }
}

/// Why a payload could not be read as a message.
#[derive(Clone, Copy, Debug, PartialEq, Eq, Structural)]
pub enum ProtocolError {
    /// The bytes are truncated or do not encode a message.
    Malformed,
}

/// The channels that carry messages from the server.
#[derive(Clone, Copy, Debug, PartialEq, Eq, Structural)]
pub enum ServerChannel {
    /// World snapshots: spawns, despawns, positions.
    World,
}

/// The channels that carry messages from a client.
#[derive(Clone, Copy, Debug, PartialEq, Eq, Structural)]
pub enum ClientChannel {
    /// Input messages.
    Input,
}

impl From<ServerChannel> for u8 {
    fn from(channel: ServerChannel) -> (id: u8) {
        match channel {
            ServerChannel::World => 0,
        }
    }
}

impl vstd::std_specs::convert::FromSpecImpl<ServerChannel> for u8 {
    open spec fn obeys_from_spec() -> bool {
        true
    }

    open spec fn from_spec(channel: ServerChannel) -> u8 {
        0
    }
}

impl From<ClientChannel> for u8 {
    fn from(channel: ClientChannel) -> (id: u8) {
        match channel {
            ClientChannel::Input => 0,
        }
    }
}

impl vstd::std_specs::convert::FromSpecImpl<ClientChannel> for u8 {
    open spec fn obeys_from_spec() -> bool {
        true
    }

    open spec fn from_spec(channel: ClientChannel) -> u8 {
        0
    }
}

/// How one transport channel delivers: ordered and reliable, resending what
/// was not acknowledged after `resend_time_millis`.
#[derive(Clone, Copy, Debug, PartialEq, Eq, Structural)]
pub struct ChannelSettings {
    pub channel_id: u8,
    pub max_memory_usage_bytes: usize,
    pub resend_time_millis: u64,
}

/// The transport settings of a connection.
#[derive(Clone, Debug, PartialEq, Eq)]
pub struct ConnectionSettings {
    pub available_bytes_per_tick: u64,
    pub client_channels_config: Vec<ChannelSettings>,
    pub server_channels_config: Vec<ChannelSettings>,
}

/// The one channel both directions use.
pub open spec fn reliable_channel() -> ChannelSettings {
    ChannelSettings {
        channel_id: 0,
        max_memory_usage_bytes: MAX_MEMORY_USAGE_BYTES,
        resend_time_millis: RESEND_TIME_MILLIS,
    }
}

/// The settings that server and client both connect with: one ordered,
/// reliable channel in each direction.
pub fn connection_config() -> (config: ConnectionSettings)
    ensures
        config.available_bytes_per_tick == AVAILABLE_BYTES_PER_TICK,
        config.client_channels_config@ == seq![reliable_channel()],
        config.server_channels_config@ == seq![reliable_channel()],
{
    let channel = ChannelSettings {
        channel_id: u8::from(ClientChannel::Input),
        max_memory_usage_bytes: MAX_MEMORY_USAGE_BYTES,
        resend_time_millis: RESEND_TIME_MILLIS,
    };
    let mut client_channels: Vec<ChannelSettings> = Vec::new();
    client_channels.push(channel);
    let mut server_channels: Vec<ChannelSettings> = Vec::new();
    server_channels.push(channel);
    ConnectionSettings {
        available_bytes_per_tick: AVAILABLE_BYTES_PER_TICK,
        client_channels_config: client_channels,
        server_channels_config: server_channels,
    }
}

} // verus!
