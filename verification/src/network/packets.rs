//! Packet types of the client-server protocol, and what each side does with each packet.
use vstd::prelude::*;

use crate::client::ClientAppState;
use crate::entity::Entity;

verus! {

/// The type of a packet.
#[derive(Clone, Copy, Debug, PartialEq, Eq, Structural)]
pub enum PacketId {
    /// Echoes its payload back, to measure latency.
    Echo,
    /// Asks for the server's title, version and player counts.
    GetServerMetadata,
    /// Logs a player in.
    Authenticate,
    /// The registries and universe id a client needs before it can join.
    BootstrapGameData,
    /// A chat message.
    ChatMessage,
    /// Places or breaks a block.
    BlockAction,
    /// The blocks of one chunk.
    ChunkData,
    /// Entities to create, update or delete.
    EntityData,
    /// A new position and rotation of the player's avatar.
    MovePlayer,
}

/// The side of a connection.
#[derive(Clone, Copy, Debug, PartialEq, Eq, Structural)]
pub enum GameSide {
    /// The game client.
    Client,
    /// The game server.
    Server,
}

/// A tag placed on a connected player when the game bootstrap data has been sent to them.
#[derive(Clone, Copy, Debug, PartialEq, Eq, Structural)]
pub struct BootstrappingGameDataTag;

/// A tag placed on a connected player when the game bootstrap data has been acknowledged as
/// received by them.
#[derive(Clone, Copy, Debug, PartialEq, Eq, Structural)]
pub struct BootstrappedGameDataTag;

/// The players (entity and bootstrap tags) with neither tag, in order.
pub open spec fn needing_bootstrap(
    players: Seq<(Entity, Option<BootstrappingGameDataTag>, Option<BootstrappedGameDataTag>)>,
) -> Seq<Entity>
    decreases players.len(),
{
    if players.len() == 0 {
        Seq::empty()
    } else {
        let prev = needing_bootstrap(players.drop_last());
        let p = players.last();
        if p.1 is None && p.2 is None {
            prev.push(p.0)
        } else {
            prev
        }
    }
}

/// The players to send the bootstrap data to, those with neither tag, each with the tag it
/// gets once the data is sent.
pub fn bootstrap_players(
    players: &[(Entity, Option<BootstrappingGameDataTag>, Option<BootstrappedGameDataTag>)],
) -> (r: Vec<(Entity, BootstrappingGameDataTag)>)
    ensures
        r@.map_values(|e: (Entity, BootstrappingGameDataTag)| e.0) == needing_bootstrap(players@),
{
    let mut r: Vec<(Entity, BootstrappingGameDataTag)> = Vec::new();
    let mut i: usize = 0;
    while i < players.len()
        invariant
            i <= players@.len(),
            r@.map_values(|e: (Entity, BootstrappingGameDataTag)| e.0) == needing_bootstrap(players@.subrange(0, i as int)),
        decreases players@.len() - i,
    {
        proof {
            assert(players@.subrange(0, i + 1).drop_last() =~= players@.subrange(0, i as int));
        }
        let (e, sending, sent) = players[i];
        let ghost r0 = r@;
        if sending.is_none() && sent.is_none() {
            r.push((e, BootstrappingGameDataTag));
            proof {
                assert(r@.map_values(|e: (Entity, BootstrappingGameDataTag)| e.0) =~= r0.map_values(
                    |e: (Entity, BootstrappingGameDataTag)| e.0,
                ).push(e));
            }
        }
        i = i + 1;
    }
    proof {
        assert(players@.subrange(0, players@.len() as int) =~= players@);
    }
    r
}

impl GameSide {
    /// The other side.
    pub fn opposite(self) -> (r: GameSide)
        ensures
            r != self,
    {
        match self {
            GameSide::Client => GameSide::Server,
            GameSide::Server => GameSide::Client,
        }
    }
}

/// What the server does with a packet from an authenticated player.
#[derive(Clone, Copy, Debug, PartialEq, Eq, Structural)]
pub enum ServerPacketAction {
    /// Nothing.
    Ignore,
    /// Replies with the server metadata.
    SendServerMetadata,
    /// Sends the chat message, prefixed with the sender's name, to every other player and back.
    BroadcastChatMessage,
    /// Places or breaks the targeted block and confirms.
    PerformBlockAction,
    /// Moves the player's avatar and confirms.
    MovePlayerAvatar,
    /// Swaps the player's bootstrapping tag for this one and announces the join to every
    /// player.
    CompleteBootstrap(BootstrappedGameDataTag),
}

/// What the server does with a packet of type `id` from an authenticated player: a request when
/// the client opened the stream, else a response. `is_bootstrapping` and `is_bootstrapped` tell
/// whether the bootstrap data was sent to the player, and acknowledged.
pub open spec fn server_packet_action_spec(
    is_request: bool,
    id: PacketId,
    is_bootstrapping: bool,
    is_bootstrapped: bool,
) -> ServerPacketAction {
    if is_request {
        match id {
            PacketId::GetServerMetadata => ServerPacketAction::SendServerMetadata,
            PacketId::ChatMessage => ServerPacketAction::BroadcastChatMessage,
            PacketId::BlockAction => ServerPacketAction::PerformBlockAction,
            PacketId::MovePlayer => ServerPacketAction::MovePlayerAvatar,
            _ => ServerPacketAction::Ignore,
        }
    } else if id == PacketId::BootstrapGameData && is_bootstrapping && !is_bootstrapped {
        ServerPacketAction::CompleteBootstrap(BootstrappedGameDataTag)
    } else {
        ServerPacketAction::Ignore
    }
}

/// What the server does with a packet of type `id` from an authenticated player, given the
/// player's bootstrap tags. Echo and authentication packets are answered on the network thread
/// and never reach here.
pub fn server_packet_action(
    is_request: bool,
    id: PacketId,
    bootstrapping: Option<BootstrappingGameDataTag>,
    bootstrapped: Option<BootstrappedGameDataTag>,
) -> (r: ServerPacketAction)
    requires
        id != PacketId::Echo,
        id != PacketId::Authenticate,
    ensures
        r == server_packet_action_spec(is_request, id, bootstrapping is Some, bootstrapped is Some),
{
    let is_bootstrapping = bootstrapping.is_some();
    let is_bootstrapped = bootstrapped.is_some();
    if is_request {
        match id {
            PacketId::Echo | PacketId::Authenticate => ServerPacketAction::Ignore,
            PacketId::GetServerMetadata => ServerPacketAction::SendServerMetadata,
            PacketId::BootstrapGameData => ServerPacketAction::Ignore,
            PacketId::ChatMessage => ServerPacketAction::BroadcastChatMessage,
            PacketId::BlockAction => ServerPacketAction::PerformBlockAction,
            PacketId::ChunkData | PacketId::EntityData => ServerPacketAction::Ignore,
            PacketId::MovePlayer => ServerPacketAction::MovePlayerAvatar,
        }
    } else {
        match id {
            PacketId::BootstrapGameData => {
                if is_bootstrapping && !is_bootstrapped {
                    ServerPacketAction::CompleteBootstrap(BootstrappedGameDataTag)
                } else {
                    ServerPacketAction::Ignore
                }
            },
            _ => ServerPacketAction::Ignore,
        }
    }
}

/// What the client does with a packet from the server.
#[derive(Clone, Copy, Debug, PartialEq, Eq, Structural)]
pub enum ClientPacketAction {
    /// Nothing.
    Ignore,
    /// Builds the voxel universe from the bootstrap data, acknowledges it and finishes loading.
    LoadBootstrapData,
    /// Logs a chat message from the server.
    LogChatMessage,
    /// Logs the server's echo of the player's own chat message.
    LogChatEcho,
    /// Logs the result of a block action.
    LogBlockActionResult,
    /// Queues the chunk data for the voxel client.
    QueueChunkData,
    /// Queues the entity data for the entity client.
    QueueEntityData,
}

/// Why the client rejects a packet from the server.
#[derive(Clone, Copy, Debug, PartialEq, Eq, Structural)]
pub enum ClientPacketError {
    /// Bootstrap data came while the client was not loading a game.
    BootstrapOutsideLoading,
    /// Chunk data came while there was no voxel client to queue it for.
    MissingChunkQueue,
}

/// What the client in state `state` does with a packet of type `id`: a request when the server
/// opened the stream, else a response; `has_chunk_queue` tells whether a voxel client exists.
pub open spec fn client_packet_action_spec(
    is_request: bool,
    id: PacketId,
    state: ClientAppState,
    has_chunk_queue: bool,
) -> Result<ClientPacketAction, ClientPacketError> {
    if is_request {
        match id {
            PacketId::BootstrapGameData => if state == ClientAppState::LoadingGame {
                Ok(ClientPacketAction::LoadBootstrapData)
            } else {
                Err(ClientPacketError::BootstrapOutsideLoading)
            },
            PacketId::ChatMessage => Ok(ClientPacketAction::LogChatMessage),
            PacketId::ChunkData => if has_chunk_queue {
                Ok(ClientPacketAction::QueueChunkData)
            } else {
                Err(ClientPacketError::MissingChunkQueue)
            },
            PacketId::EntityData => Ok(ClientPacketAction::QueueEntityData),
            _ => Ok(ClientPacketAction::Ignore),
        }
    } else {
        match id {
            PacketId::ChatMessage => Ok(ClientPacketAction::LogChatEcho),
            PacketId::BlockAction => Ok(ClientPacketAction::LogBlockActionResult),
            _ => Ok(ClientPacketAction::Ignore),
        }
    }
}

/// How the client routes the server's packets, whatever its state and whether a voxel client
/// exists: a chat message the server pushes is logged as a chat message, and only such a push
/// is; the server's answer to the player's own chat message is logged as an echo; block action
/// answers are logged; entity data is always queued; chunk data is queued when a voxel client
/// exists and refused otherwise; bootstrap data is loaded only while a game is loading.
pub proof fn lemma_client_routes_server_packets(id: PacketId, state: ClientAppState, has_chunk_queue: bool)
    ensures
        client_packet_action_spec(true, PacketId::ChatMessage, state, has_chunk_queue) == Ok::<
            ClientPacketAction,
            ClientPacketError,
        >(ClientPacketAction::LogChatMessage),
        client_packet_action_spec(false, PacketId::ChatMessage, state, has_chunk_queue) == Ok::<
            ClientPacketAction,
            ClientPacketError,
        >(ClientPacketAction::LogChatEcho),
        client_packet_action_spec(false, PacketId::BlockAction, state, has_chunk_queue) == Ok::<
            ClientPacketAction,
            ClientPacketError,
        >(ClientPacketAction::LogBlockActionResult),
        client_packet_action_spec(true, PacketId::EntityData, state, has_chunk_queue) == Ok::<
            ClientPacketAction,
            ClientPacketError,
        >(ClientPacketAction::QueueEntityData),
        has_chunk_queue ==> client_packet_action_spec(true, PacketId::ChunkData, state, has_chunk_queue) == Ok::<
            ClientPacketAction,
            ClientPacketError,
        >(ClientPacketAction::QueueChunkData),
        !has_chunk_queue ==> client_packet_action_spec(true, PacketId::ChunkData, state, has_chunk_queue) == Err::<
            ClientPacketAction,
            ClientPacketError,
        >(ClientPacketError::MissingChunkQueue),
        (client_packet_action_spec(true, PacketId::BootstrapGameData, state, has_chunk_queue) == Ok::<
            ClientPacketAction,
            ClientPacketError,
        >(ClientPacketAction::LoadBootstrapData)) <==> state == ClientAppState::LoadingGame,
        forall|is_request: bool|
            client_packet_action_spec(is_request, id, state, has_chunk_queue) == Ok::<ClientPacketAction, ClientPacketError>(
                ClientPacketAction::LogChatMessage,
            ) ==> is_request && id == PacketId::ChatMessage,
{
}

/// What the client in state `state` does with a packet of type `id` from the server. Echo and
/// authentication packets are handled on the network thread and never reach here.
pub fn client_packet_action(
    is_request: bool,
    id: PacketId,
    state: ClientAppState,
    has_chunk_queue: bool,
) -> (r: Result<ClientPacketAction, ClientPacketError>)
    requires
        id != PacketId::Echo,
        id != PacketId::Authenticate,
    ensures
        r == client_packet_action_spec(is_request, id, state, has_chunk_queue),
{
    if is_request {
        match id {
            PacketId::BootstrapGameData => {
                if state != ClientAppState::LoadingGame {
                    return Err(ClientPacketError::BootstrapOutsideLoading);
                }
                Ok(ClientPacketAction::LoadBootstrapData)
            },
            PacketId::ChatMessage => Ok(ClientPacketAction::LogChatMessage),
            PacketId::ChunkData => {
                if has_chunk_queue {
                    Ok(ClientPacketAction::QueueChunkData)
                } else {
                    Err(ClientPacketError::MissingChunkQueue)
                }
            },
            PacketId::EntityData => Ok(ClientPacketAction::QueueEntityData),
            _ => Ok(ClientPacketAction::Ignore),
        }
    } else {
        match id {
            PacketId::ChatMessage => Ok(ClientPacketAction::LogChatEcho),
            PacketId::BlockAction => Ok(ClientPacketAction::LogBlockActionResult),
            _ => Ok(ClientPacketAction::Ignore),
        }
    }
}

/// What the network thread does with a packet before it is queued for the game.
#[derive(Clone, Copy, Debug, PartialEq, Eq, Structural)]
pub enum StreamPacketAction {
    /// Queues the packet for the game.
    Forward,
    /// Replies with the echo's payload.
    ReplyEcho,
    /// Replies that the player has already authenticated.
    ReplyAlreadyAuthenticated,
    /// Drops the packet.
    Drop,
}

/// What the network thread of side `side` does with a packet of type `id` arriving on an
/// authenticated stream opened by `initiating_side`: echoes and stray authentication requests on
/// client-opened streams are answered there (the server refuses a second authentication, the
/// client drops it), everything else goes to the game.
pub open spec fn stream_packet_action_spec(side: GameSide, initiating_side: GameSide, id: PacketId) -> StreamPacketAction {
    if initiating_side == GameSide::Client && id == PacketId::Echo {
        StreamPacketAction::ReplyEcho
    } else if initiating_side == GameSide::Client && id == PacketId::Authenticate {
        if side == GameSide::Server {
            StreamPacketAction::ReplyAlreadyAuthenticated
        } else {
            StreamPacketAction::Drop
        }
    } else {
        StreamPacketAction::Forward
    }
}

/// What the network thread of side `side` does with a packet of type `id` arriving on an
/// authenticated stream opened by `initiating_side`.
pub fn stream_packet_action(side: GameSide, initiating_side: GameSide, id: PacketId) -> (r: StreamPacketAction)
    ensures
        r == stream_packet_action_spec(side, initiating_side, id),
{
    if initiating_side == GameSide::Client {
        match id {
            PacketId::Echo => {
                return StreamPacketAction::ReplyEcho;
            },
            PacketId::Authenticate => {
                return match side {
                    GameSide::Server => StreamPacketAction::ReplyAlreadyAuthenticated,
                    GameSide::Client => StreamPacketAction::Drop,
                };
            },
            _ => {},
        }
    }
    StreamPacketAction::Forward
}

/// The chat line sent to everyone for `message` from the player named `display_name`.
pub fn format_chat_message(display_name: &str, message: &str) -> (r: String)
    ensures
        r@ == "["@ + display_name@ + "] "@ + message@,
{
    let mut r = String::from_str("[");
    r.append(display_name);
    r.append("] ");
    r.append(message);
    r
}

/// The chat line announcing that the player named `display_name` joined.
pub fn join_announcement(display_name: &str) -> (r: String)
    ensures
        r@ == display_name@ + " has joined!"@,
{
    let mut r = String::from_str(display_name);
    r.append(" has joined!");
    r
}

/// The players (by their entity and connection key) other than the one on connection `sender`,
/// in order: those a chat message from `sender` is relayed to, besides the reply to the sender.
pub open spec fn chat_recipients_spec(players: Seq<(Entity, u64)>, sender: u64) -> Seq<Entity>
    decreases players.len(),
{
    if players.len() == 0 {
        Seq::empty()
    } else {
        let prev = chat_recipients_spec(players.drop_last(), sender);
        if players.last().1 != sender {
            prev.push(players.last().0)
        } else {
            prev
        }
    }
}

/// The players (by their entity and connection key) other than the one on connection `sender`,
/// in order.
pub fn chat_recipients(players: &[(Entity, u64)], sender: u64) -> (r: Vec<Entity>)
    ensures
        r@ == chat_recipients_spec(players@, sender),
{
    let mut r: Vec<Entity> = Vec::new();
    let mut i: usize = 0;
    while i < players.len()
        invariant
            i <= players@.len(),
            r@ == chat_recipients_spec(players@.subrange(0, i as int), sender),
        decreases players@.len() - i,
    {
        proof {
            assert(players@.subrange(0, i + 1).drop_last() =~= players@.subrange(0, i as int));
        }
        let (e, key) = players[i];
        if key != sender {
            r.push(e);
        }
        i = i + 1;
    }
    proof {
        assert(players@.subrange(0, players@.len() as int) =~= players@);
    }
    r
}

} // verus!
