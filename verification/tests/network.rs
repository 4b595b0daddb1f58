use geosia::entity::{Entity, RegistryId};
use geosia::network::client::{
    accept_new_entity, authentication_outcome, login_identity, AuthenticationFailure, ClientConnectionError,
    NetworkThreadClientState, NetworkThreadClientStateVariant, NewEntityError,
};
use geosia::network::packets::{
    bootstrap_players, chat_recipients, client_packet_action, format_chat_message, join_announcement,
    server_packet_action, stream_packet_action, BootstrappedGameDataTag, BootstrappingGameDataTag, ClientPacketAction,
    ClientPacketError, GameSide, PacketId, ServerPacketAction, StreamPacketAction,
};
use geosia::network::server::{
    authenticate, find_player_on_connection, listener_changes, metadata_request_closes, unauthenticated_action,
    username_is_valid, AuthenticationError, ConnectedPlayersTable, NetworkThreadServerState, ServerConnectionError,
    UnauthenticatedAction,
};
use geosia::network::server_entity_syncer::{
    allocate_player_slots, dirty_entity_sync, entity_sync_action, first_entity_sync, free_player_slots,
    players_bitset, EntitySyncAction, ServerToClientEntityDirtyTag, ServerToClientSyncableEntity,
};
use geosia::network::transport::{
    decode_frame, decode_leb128, encode_frame, encode_leb128, send_packet, try_receive, Leb128Error,
    PacketSendRecvError, ReceiveSideEffects, StreamQueueEntry,
};
use geosia::network::{
    EntityNetworkId, EntityNetworkIdLookupError, EntityNetworkIdLookupTable, IpAddress, NetworkThreadState,
    NonNilUuid, PeerAddress, SocketAddress,
};
use geosia::client::ClientAppState;

fn addr(port: u16) -> SocketAddress {
    SocketAddress { ip: IpAddress::V4(0x7f000001), port }
}

#[test]
fn nil_uuid_is_refused() {
    assert!(NonNilUuid::new(0).is_none());
    assert_eq!(NonNilUuid::new(42).unwrap().get(), 42);
}

#[test]
fn random_network_ids_are_not_nil() {
    let a = EntityNetworkId::random();
    let b = EntityNetworkId::random();
    assert_ne!(a.0.get(), 0);
    assert_ne!(a, b);
    for id in [a, b] {
        let bits = id.0.get();
        assert_eq!((bits >> 76) & 0xf, 4, "version nibble");
        assert_eq!((bits >> 62) & 0x3, 0b10, "variant bits");
    }
}

#[test]
fn peer_addresses() {
    let remote = PeerAddress::Network { local: addr(1), remote: addr(2) };
    assert_eq!(remote.remote_addr(), Some(addr(2)));
    assert_eq!(PeerAddress::Local(3).remote_addr(), None);
}

#[test]
fn network_id_lookup() {
    let id = NonNilUuid::new(7).unwrap();
    let mut t = EntityNetworkIdLookupTable::new();
    assert_eq!(t.get_entity(id), Err(EntityNetworkIdLookupError::NoSuchEntity(id)));
    t.on_add(id, Entity(1));
    assert_eq!(t.get_entity(id), Ok(Entity(1)));
    t.on_add(id, Entity(2));
    assert_eq!(t.get_entity(id), Err(EntityNetworkIdLookupError::MultipleSuchEntities(id)));
    t.on_discard(id, Entity(1));
    assert_eq!(t.get_entity(id), Ok(Entity(2)));
    t.on_discard(id, Entity(2));
    assert_eq!(t.get_entity(id), Err(EntityNetworkIdLookupError::NoSuchEntity(id)));
    // discarding what was never added changes nothing
    t.on_discard(id, Entity(3));
    assert_eq!(t.get_entity(id), Err(EntityNetworkIdLookupError::NoSuchEntity(id)));
}

#[test]
fn lookup_table_follows_the_id_holders() {
    let a = NonNilUuid::new(1).unwrap();
    let b = NonNilUuid::new(2).unwrap();
    let mut t = EntityNetworkIdLookupTable::new();
    // entity 1 gains a, entity 2 gains b, entity 1 loses a and gains b, entity 2 loses b
    t.on_add(a, Entity(1));
    t.on_add(b, Entity(2));
    t.on_discard(a, Entity(1));
    t.on_add(b, Entity(1));
    t.on_discard(b, Entity(2));
    assert_eq!(t.get_entity(a), Err(EntityNetworkIdLookupError::NoSuchEntity(a)));
    assert_eq!(t.get_entity(b), Ok(Entity(1)));
}

#[test]
fn free_slots_count_clear_bits() {
    assert_eq!(free_player_slots(0), 64);
    assert_eq!(free_player_slots(0b1011), 61);
    assert_eq!(free_player_slots(u64::MAX), 0);
}

#[test]
fn new_players_take_the_lowest_free_slots() {
    let (bits, locs) = allocate_player_slots(0b101, 2);
    assert_eq!(locs, vec![1, 3]);
    assert_eq!(bits, 0b1010);
    let (bits, locs) = allocate_player_slots(u64::MAX >> 1, 0);
    assert_eq!(bits, 0);
    assert!(locs.is_empty());
    let (_, locs) = allocate_player_slots(u64::MAX >> 1, 0);
    assert!(locs.is_empty());
}

#[test]
fn first_sync_informs_new_players_of_every_entity() {
    let mut entities = vec![ServerToClientSyncableEntity::new(RegistryId(1)); 2];
    let tags = first_entity_sync(&[], 2, &mut entities);
    assert_eq!(tags.len(), 2);
    assert_eq!(tags[0].bitset_loc(), 0);
    assert_eq!(tags[1].bitset_loc(), 1);
    assert_eq!(tags[1].bitset_mask(), 2);
    assert_eq!(players_bitset(&tags), 0b11);
    for e in &entities {
        assert_eq!(e.aware_players(), 0b11);
        assert_eq!(e.registry_id, RegistryId(1));
    }
    // a later player gets the next free slot; entities forget players that left
    let tags2 = first_entity_sync(&tags[1..], 1, &mut entities);
    assert_eq!(tags2[0].bitset_loc(), 0);
    assert_eq!(entities[0].aware_players(), 0b11);
}

#[test]
fn sync_actions() {
    assert_eq!(entity_sync_action(false, true, false), EntitySyncAction::SendFull);
    assert_eq!(entity_sync_action(false, false, true), EntitySyncAction::Keep);
    assert_eq!(entity_sync_action(true, true, false), EntitySyncAction::Keep);
    assert_eq!(entity_sync_action(true, true, true), EntitySyncAction::SendDelta);
    assert_eq!(entity_sync_action(true, false, false), EntitySyncAction::SendRemoval);
}

#[test]
fn dirty_sync_plans_full_data_deltas_and_deletions() {
    let mut entities = vec![ServerToClientSyncableEntity::new(RegistryId(1)); 2];
    let players = first_entity_sync(&[], 1, &mut entities);
    // a new entity appears, the first one changed, and a known entity was despawned
    let gone_id = EntityNetworkId(NonNilUuid::new(99).unwrap());
    let mut despawned = vec![entities[1].on_discard(gone_id)];
    let mut entities = vec![entities[0], ServerToClientSyncableEntity::new(RegistryId(2))];
    let nids = vec![
        EntityNetworkId(NonNilUuid::new(10).unwrap()),
        EntityNetworkId(NonNilUuid::new(11).unwrap()),
    ];
    let mut dirty = vec![Some(ServerToClientEntityDirtyTag), None];
    let plans = dirty_entity_sync(&players, &mut entities, &mut dirty, &nids, &mut despawned);
    assert_eq!(plans.len(), 1);
    assert_eq!(plans[0].insertions, vec![1]);
    assert_eq!(plans[0].deltas, vec![0]);
    assert_eq!(plans[0].deletions, vec![gone_id.0]);
    assert_eq!(entities[0].aware_players(), 1);
    assert_eq!(entities[1].aware_players(), 1);
    // the round clears the dirty tags and the despawn records
    assert!(dirty.iter().all(|t| t.is_none()));
    assert!(despawned.is_empty());

    // nothing changed since: an empty plan
    let plans = dirty_entity_sync(&players, &mut entities, &mut dirty, &nids, &mut despawned);
    assert!(plans[0].insertions.is_empty());
    assert!(plans[0].deltas.is_empty());
    assert!(plans[0].deletions.is_empty());
}

#[test]
fn server_routes_authenticated_packets() {
    let none_a: Option<BootstrappingGameDataTag> = None;
    let none_b: Option<BootstrappedGameDataTag> = None;
    assert_eq!(server_packet_action(true, PacketId::ChatMessage, none_a, none_b), ServerPacketAction::BroadcastChatMessage);
    assert_eq!(server_packet_action(true, PacketId::BlockAction, none_a, none_b), ServerPacketAction::PerformBlockAction);
    assert_eq!(server_packet_action(true, PacketId::MovePlayer, none_a, none_b), ServerPacketAction::MovePlayerAvatar);
    assert_eq!(
        server_packet_action(true, PacketId::GetServerMetadata, none_a, none_b),
        ServerPacketAction::SendServerMetadata
    );
    assert_eq!(server_packet_action(true, PacketId::ChunkData, none_a, none_b), ServerPacketAction::Ignore);
    assert_eq!(
        server_packet_action(false, PacketId::BootstrapGameData, Some(BootstrappingGameDataTag), none_b),
        ServerPacketAction::CompleteBootstrap(BootstrappedGameDataTag)
    );
    assert_eq!(
        server_packet_action(
            false,
            PacketId::BootstrapGameData,
            Some(BootstrappingGameDataTag),
            Some(BootstrappedGameDataTag)
        ),
        ServerPacketAction::Ignore
    );
    assert_eq!(server_packet_action(false, PacketId::BootstrapGameData, none_a, none_b), ServerPacketAction::Ignore);
    assert_eq!(server_packet_action(false, PacketId::ChatMessage, none_a, none_b), ServerPacketAction::Ignore);
}

#[test]
fn players_without_tags_are_bootstrapped() {
    let players = vec![
        (Entity(1), None, None),
        (Entity(2), Some(BootstrappingGameDataTag), None),
        (Entity(3), None, Some(BootstrappedGameDataTag)),
        (Entity(4), None, None),
    ];
    let r = bootstrap_players(&players);
    assert_eq!(r, vec![(Entity(1), BootstrappingGameDataTag), (Entity(4), BootstrappingGameDataTag)]);
}

#[test]
fn client_routes_server_packets() {
    assert_eq!(
        client_packet_action(true, PacketId::BootstrapGameData, ClientAppState::LoadingGame, false),
        Ok(ClientPacketAction::LoadBootstrapData)
    );
    assert_eq!(
        client_packet_action(true, PacketId::BootstrapGameData, ClientAppState::InGame, false),
        Err(ClientPacketError::BootstrapOutsideLoading)
    );
    assert_eq!(
        client_packet_action(true, PacketId::ChunkData, ClientAppState::InGame, true),
        Ok(ClientPacketAction::QueueChunkData)
    );
    assert_eq!(
        client_packet_action(true, PacketId::ChunkData, ClientAppState::InGame, false),
        Err(ClientPacketError::MissingChunkQueue)
    );
    assert_eq!(
        client_packet_action(false, PacketId::ChatMessage, ClientAppState::InGame, false),
        Ok(ClientPacketAction::LogChatEcho)
    );
    assert_eq!(
        client_packet_action(false, PacketId::BlockAction, ClientAppState::InGame, false),
        Ok(ClientPacketAction::LogBlockActionResult)
    );
    assert_eq!(
        client_packet_action(false, PacketId::BootstrapGameData, ClientAppState::MainMenu, false),
        Ok(ClientPacketAction::Ignore)
    );
}

#[test]
fn network_thread_answers_echoes_and_stray_logins() {
    let (client, server) = (GameSide::Client, GameSide::Server);
    assert_eq!(stream_packet_action(server, client, PacketId::Echo), StreamPacketAction::ReplyEcho);
    assert_eq!(
        stream_packet_action(server, client, PacketId::Authenticate),
        StreamPacketAction::ReplyAlreadyAuthenticated
    );
    assert_eq!(stream_packet_action(client, client, PacketId::Authenticate), StreamPacketAction::Drop);
    assert_eq!(stream_packet_action(server, server, PacketId::Echo), StreamPacketAction::Forward);
    assert_eq!(stream_packet_action(server, client, PacketId::ChatMessage), StreamPacketAction::Forward);
    assert_eq!(client.opposite(), server);
}

#[test]
fn chat_lines() {
    assert_eq!(format_chat_message("Alice", "hello there"), "[Alice] hello there");
    assert_eq!(format_chat_message("", ""), "[] ");
    assert_eq!(join_announcement("Bob"), "Bob has joined!");
    let players = vec![(Entity(1), 10), (Entity(2), 20), (Entity(3), 10)];
    assert_eq!(chat_recipients(&players, 10), vec![Entity(2)]);
    assert_eq!(chat_recipients(&players, 30), vec![Entity(1), Entity(2), Entity(3)]);
}

#[test]
fn leb128_known_encodings() {
    assert_eq!(encode_leb128(0), vec![0]);
    assert_eq!(encode_leb128(127), vec![0x7f]);
    assert_eq!(encode_leb128(128), vec![0x80, 0x01]);
    assert_eq!(encode_leb128(300), vec![0xac, 0x02]);
    assert_eq!(encode_leb128(u64::MAX).len(), 10);
    assert_eq!(decode_leb128(&[0xac, 0x02, 0xff]), Ok((300, 2)));
}

#[test]
fn leb128_roundtrip_values() {
    for v in [0u64, 1, 127, 128, 16383, 16384, 1 << 35, u64::MAX - 1, u64::MAX] {
        let mut bytes = encode_leb128(v);
        let n = bytes.len();
        bytes.extend_from_slice(&[0x80, 0x01]);
        assert_eq!(decode_leb128(&bytes), Ok((v, n)));
    }
}

#[test]
fn leb128_errors() {
    assert_eq!(decode_leb128(&[]), Err(Leb128Error::Incomplete));
    assert_eq!(decode_leb128(&[0x80, 0x80]), Err(Leb128Error::Incomplete));
    assert_eq!(decode_leb128(&[0xff; 10]), Err(Leb128Error::TooLong));
    assert_eq!(decode_leb128(&[0xff; 12]), Err(Leb128Error::TooLong));
    let mut over = vec![0xff; 9];
    over.push(0x02);
    assert_eq!(decode_leb128(&over), Err(Leb128Error::Overflow));
    let mut max = vec![0xff; 9];
    max.push(0x01);
    assert_eq!(decode_leb128(&max), Ok((u64::MAX, 10)));
}

#[test]
fn frames_roundtrip_and_wait_for_more_bytes() {
    let payload: Vec<u8> = (0..200u8).collect();
    let mut framed = encode_frame(&payload);
    assert_eq!(framed.len(), 202);
    assert_eq!(&framed[..2], &[0xc8, 0x01]);
    framed.push(0x05);
    let (start, end) = decode_frame(&framed).unwrap().unwrap();
    assert_eq!(&framed[start..end], &payload[..]);
    assert_eq!(decode_frame(&framed[..100]), Ok(None));
    assert_eq!(decode_frame(&framed[..1]), Ok(None));
    assert_eq!(decode_frame(&[0xff; 10]), Err(Leb128Error::TooLong));
    assert_eq!(decode_frame(&encode_frame(&[])), Ok(Some((1, 1))));
}

#[test]
fn stream_receive_and_send_rules() {
    let none = ReceiveSideEffects { request_close: false, acknowledge_stop: false };
    assert_eq!(try_receive(true, StreamQueueEntry::Packet(5)), (Err(PacketSendRecvError::StreamClosed), none));
    assert_eq!(try_receive(false, StreamQueueEntry::Packet(5)), (Ok(Some(5)), none));
    assert_eq!(try_receive::<u8>(false, StreamQueueEntry::Empty), (Ok(None), none));
    assert_eq!(
        try_receive::<u8>(false, StreamQueueEntry::GracefulStop),
        (
            Err(PacketSendRecvError::StreamClosed),
            ReceiveSideEffects { request_close: true, acknowledge_stop: true }
        )
    );
    assert_eq!(
        try_receive::<u8>(false, StreamQueueEntry::Disconnected),
        (
            Err(PacketSendRecvError::StreamClosed),
            ReceiveSideEffects { request_close: true, acknowledge_stop: false }
        )
    );
    let mut outgoing: Vec<u8> = vec![1];
    assert_eq!(send_packet(true, true, &mut outgoing, 2), (Err(PacketSendRecvError::StreamClosed), false));
    assert_eq!(outgoing, vec![1]);
    assert_eq!(send_packet(false, false, &mut outgoing, 3), (Err(PacketSendRecvError::StreamClosed), true));
    assert_eq!(outgoing, vec![1]);
    assert_eq!(send_packet(false, true, &mut outgoing, 4), (Ok(()), false));
    assert_eq!(outgoing, vec![1, 4]);
}

#[test]
fn usernames_must_be_nonempty_ascii() {
    assert!(username_is_valid("alice"));
    assert!(!username_is_valid(""));
    assert!(!username_is_valid("ålice"));
    let info = authenticate("bob", PeerAddress::Local(0)).ok().unwrap();
    assert_eq!(info.username, "bob");
    assert_eq!(info.address, PeerAddress::Local(0));
    assert!(matches!(authenticate("", PeerAddress::Local(0)), Err(AuthenticationError::InvalidUsername)));
}

#[test]
fn unauthenticated_connections_accept_few_packets() {
    assert_eq!(unauthenticated_action(PacketId::Echo), UnauthenticatedAction::ReplyEcho);
    assert_eq!(unauthenticated_action(PacketId::GetServerMetadata), UnauthenticatedAction::ReplyServerMetadata);
    assert_eq!(unauthenticated_action(PacketId::Authenticate), UnauthenticatedAction::Authenticate);
    assert_eq!(unauthenticated_action(PacketId::ChatMessage), UnauthenticatedAction::RejectPacket);
    assert!(metadata_request_closes(1));
    assert!(!metadata_request_closes(0));
}

#[test]
fn local_connections_get_consecutive_ids() {
    let mut s = NetworkThreadServerState::<u8, u8>::new();
    assert_eq!(s.allocate_local_peer(), PeerAddress::Local(0));
    assert_eq!(s.allocate_local_peer(), PeerAddress::Local(1));
    s.shutdown();
    assert_eq!(s.free_local_id(), 2);
}

#[test]
fn connection_table_tracks_connections_and_streams() {
    let mut s = NetworkThreadServerState::<&str, u8>::new();
    let a = s.connections.insert_connection("a");
    let b = s.connections.insert_connection("b");
    assert_ne!(a, b);
    assert_eq!(s.connections.connection(a), Ok(&"a"));
    let s1 = s.connections.insert_stream(a, 10).unwrap();
    let s2 = s.connections.insert_stream(a, 11).unwrap();
    assert_ne!(s1, s2);
    s.connections.remove_stream(a, s1);
    assert_eq!(s.connections.remove_connection(a), Some("a"));
    // a stream for a connection that is gone is refused and changes nothing
    assert_eq!(s.connections.connection(a), Err(ServerConnectionError::ConnectionDead));
    assert_eq!(s.connections.insert_stream(a, 12), None);
    s.connections.remove_stream(a, s2);
    assert_eq!(s.connections.remove_connection(a), None);
    assert_eq!(s.connections.remove_connection(b), Some("b"));
}

#[test]
fn listener_changes_are_set_differences() {
    let (close, open) = listener_changes(&[addr(1), addr(2), addr(2)], &[addr(2), addr(3), addr(3)]);
    assert_eq!(close, vec![addr(1)]);
    assert_eq!(open, vec![addr(3)]);
    let (close, open) = listener_changes(&[], &[]);
    assert!(close.is_empty() && open.is_empty());
}

#[test]
fn connected_players_table() {
    let mut t = ConnectedPlayersTable::new();
    t.on_player_insert(PeerAddress::Local(0), Entity(5));
    t.on_player_insert(PeerAddress::Local(1), Entity(6));
    assert_eq!(t.get(PeerAddress::Local(0)), Some(Entity(5)));
    assert_eq!(t.players_by_address().len(), 2);
    t.on_player_remove(PeerAddress::Local(0));
    assert_eq!(t.get(PeerAddress::Local(0)), None);
    assert_eq!(t.get(PeerAddress::Local(1)), Some(Entity(6)));
    t.on_player_remove(PeerAddress::Local(7));
    assert_eq!(t.players_by_address().len(), 1);
}

#[test]
fn players_are_found_by_connection() {
    let players = vec![(Entity(1), 4), (Entity(2), 5), (Entity(3), 5)];
    assert_eq!(find_player_on_connection(&players, 5), Some(Entity(2)));
    assert_eq!(find_player_on_connection(&players, 6), None);
}

#[test]
fn client_connection_state_machine() {
    let server = PeerAddress::Network { local: addr(1), remote: addr(2) };
    let mut s = NetworkThreadClientState::new();
    assert!(s.is_disconnected());
    assert_eq!(s.server_address(), None);
    assert_eq!(s.check_can_open_stream(), Err(ClientConnectionError::NotConnected));
    s.begin_connect(server).unwrap();
    assert!(s.is_connecting());
    assert_eq!(
        s.begin_connect(PeerAddress::Local(0)),
        Err(ClientConnectionError::AlreadyConnecting(Some(server)))
    );
    assert!(s.check_can_authenticate().is_ok());
    s.on_authenticated(server);
    assert!(s.is_connected());
    assert_eq!(s.variant(), NetworkThreadClientStateVariant::Connected(server));
    assert_eq!(s.check_can_authenticate(), Err(ClientConnectionError::AlreadyConnected));
    assert_eq!(s.check_can_open_stream(), Ok(server));
    s.shutdown();
    assert!(s.is_disconnected());
}

#[test]
fn login_answers() {
    assert_eq!(authentication_outcome(PacketId::Authenticate, true), Ok(()));
    assert_eq!(authentication_outcome(PacketId::Authenticate, false), Err(AuthenticationFailure::Refused));
    assert_eq!(
        authentication_outcome(PacketId::Echo, true),
        Err(AuthenticationFailure::UnexpectedPacket(PacketId::Echo))
    );
    let local = login_identity(true);
    assert_eq!(local.player_display_name, "Alice");
    assert_eq!(local.character_display_name, "Alice Zero");
    let remote = login_identity(false);
    assert_eq!(remote.player_display_name, "Bob");
    assert_eq!(remote.character_display_name, "Bob One");
}

#[test]
fn new_remote_entities_are_checked() {
    assert_eq!(accept_new_entity(0, 5), Err(NewEntityError::InvalidRegistryId));
    assert_eq!(accept_new_entity(0, 0), Err(NewEntityError::InvalidRegistryId));
    assert_eq!(accept_new_entity(3, 0), Err(NewEntityError::InvalidNetworkId));
    let (nid, marker) = accept_new_entity(3, 5).unwrap();
    assert_eq!(nid.0.get(), 5);
    assert_eq!(marker.registry_id(), RegistryId(3));
}
