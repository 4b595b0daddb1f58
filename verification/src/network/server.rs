//! Server-side connection bookkeeping: local connection ids, the login handshake's rules, the
//! listening addresses, and the table of connected players.
use std::collections::BTreeMap;

use vstd::prelude::*;

use crate::entity::Entity;
use crate::network::packets::PacketId;
use crate::network::{NetworkThreadState, PeerAddress, SocketAddress};

verus! {

/// Information about a player obtained during the authentication process.
pub struct AuthenticatedInfo {
    /// The username that was logged in.
    pub username: String,
    /// The network address the player connected from.
    pub address: PeerAddress,
}

/// Why a login is refused.
#[derive(Clone, Copy, Debug, PartialEq, Eq, Structural)]
pub enum AuthenticationError {
    /// The username is empty or holds a character outside ASCII.
    InvalidUsername,
}

/// A username is accepted when it is non-empty and ASCII only.
pub open spec fn valid_username(name: Seq<char>) -> bool {
    name.len() > 0 && vstd::utf8::is_ascii_chars(name)
}

/// Whether `username` is accepted: non-empty and ASCII only.
pub fn username_is_valid(username: &str) -> (r: bool)
    ensures
        r == valid_username(username@),
{
    !username.is_empty() && username.is_ascii()
}

/// Logs in the player named `username` connecting from `address`, refusing names that are
/// empty or not ASCII.
pub fn authenticate(username: &str, address: PeerAddress) -> (r: Result<AuthenticatedInfo, AuthenticationError>)
    ensures
        r is Ok <==> valid_username(username@),
        r matches Ok(info) ==> info.username@ == username@ && info.address == address,
        r matches Err(e) ==> e == AuthenticationError::InvalidUsername,
{
    if !username_is_valid(username) {
        return Err(AuthenticationError::InvalidUsername);
    }
    Ok(AuthenticatedInfo { username: String::from_str(username), address })
}

/// What the server does with a packet on a connection that has not logged in yet.
#[derive(Clone, Copy, Debug, PartialEq, Eq, Structural)]
pub enum UnauthenticatedAction {
    /// Echoes the payload back.
    ReplyEcho,
    /// Replies with the server metadata, closing the connection afterwards when asked to.
    ReplyServerMetadata,
    /// Checks the login and hands the connection over to the game.
    Authenticate,
    /// Drops the connection with an error: no other packet is allowed before logging in.
    RejectPacket,
}

/// What the server does with a packet of type `id` on a connection that has not logged in.
pub open spec fn unauthenticated_action_spec(id: PacketId) -> UnauthenticatedAction {
    match id {
        PacketId::Echo => UnauthenticatedAction::ReplyEcho,
        PacketId::GetServerMetadata => UnauthenticatedAction::ReplyServerMetadata,
        PacketId::Authenticate => UnauthenticatedAction::Authenticate,
        _ => UnauthenticatedAction::RejectPacket,
    }
}

/// What the server does with a packet of type `id` on a connection that has not logged in.
pub fn unauthenticated_action(id: PacketId) -> (r: UnauthenticatedAction)
    ensures
        r == unauthenticated_action_spec(id),
{
    match id {
        PacketId::Echo => UnauthenticatedAction::ReplyEcho,
        PacketId::GetServerMetadata => UnauthenticatedAction::ReplyServerMetadata,
        PacketId::Authenticate => UnauthenticatedAction::Authenticate,
        _ => UnauthenticatedAction::RejectPacket,
    }
}

/// Whether a metadata request with payload `payload` asks for the connection to be closed after
/// the reply.
pub fn metadata_request_closes(payload: i32) -> (r: bool)
    ensures
        r == (payload == 1),
{
    payload == 1
}

/// A connection held by the network thread, with the packet streams open on it.
pub struct ServerConnection<C, S> {
    /// The transport connection.
    pub connection: C,
    /// The packet streams open on the connection, by stream key.
    pub packet_streams: BTreeMap<u64, S>,
}

/// Why a stream cannot be opened.
#[derive(Clone, Copy, Debug, PartialEq, Eq, Structural)]
pub enum ServerConnectionError {
    /// No connection has the given key: it was already removed.
    ConnectionDead,
}

/// The network thread's table of connections and their packet streams. Connection and stream
/// keys are never handed out twice.
pub struct ServerConnectionTable<C, S> {
    connections: BTreeMap<u64, ServerConnection<C, S>>,
    next_key: u64,
}

impl<C, S> ServerConnectionTable<C, S> {
    /// Every key in use is below the next key to hand out.
    #[verifier::type_invariant]
    closed spec fn inv(self) -> bool {
        &&& forall|k: u64| #[trigger] self.connections@.contains_key(k) ==> k < self.next_key
        &&& forall|k: u64, s: u64|
            #[trigger] self.connections@.contains_key(k) && #[trigger] self.connections@[k].packet_streams@.contains_key(s)
                ==> s < self.next_key
    }

    /// The connection held under each key.
    pub closed spec fn spec_connections(self) -> Map<u64, C> {
        self.connections@.map_values(|c: ServerConnection<C, S>| c.connection)
    }

    /// The next key to hand out.
    pub closed spec fn spec_next_key(self) -> u64 {
        self.next_key
    }

    /// The packet streams of the connection under each key, by stream key.
    pub closed spec fn spec_streams(self) -> Map<u64, Map<u64, S>> {
        self.connections@.map_values(|c: ServerConnection<C, S>| c.packet_streams@)
    }

    /// An empty table.
    pub fn new() -> (r: ServerConnectionTable<C, S>)
        ensures
            r.spec_connections() == Map::<u64, C>::empty(),
            r.spec_streams() == Map::<u64, Map<u64, S>>::empty(),
            r.spec_next_key() == 0,
    {
        let r = ServerConnectionTable { connections: BTreeMap::new(), next_key: 0 };
        assert(r.spec_connections() =~= Map::<u64, C>::empty());
        assert(r.spec_streams() =~= Map::<u64, Map<u64, S>>::empty());
        r
    }

    /// Registers `connection` with no streams under a fresh key, which is returned.
    pub fn insert_connection(&mut self, connection: C) -> (key: u64)
        requires
            old(self).spec_next_key() < u64::MAX,
        ensures
            !old(self).spec_connections().contains_key(key),
            final(self).spec_connections() == old(self).spec_connections().insert(key, connection),
            final(self).spec_streams() == old(self).spec_streams().insert(key, Map::empty()),
            final(self).spec_next_key() == old(self).spec_next_key() + 1,
    {
        proof {
            use_type_invariant(&*self);
        }
        let k = self.next_key;
        let mut conns = BTreeMap::new();
        std::mem::swap(&mut conns, &mut self.connections);
        conns.insert(k, ServerConnection { connection, packet_streams: BTreeMap::new() });
        self.next_key = self.next_key + 1;
        self.connections = conns;
        proof {
            assert(self.spec_connections() =~= old(self).spec_connections().insert(k, connection));
            assert(self.spec_streams() =~= old(self).spec_streams().insert(k, Map::empty()));
        }
        k
    }

    /// Removes the connection under `key` with its streams; returns it, or `None` when no
    /// connection has the key.
    pub fn remove_connection(&mut self, key: u64) -> (r: Option<C>)
        ensures
            r == if old(self).spec_connections().contains_key(key) {
                Some(old(self).spec_connections()[key])
            } else {
                None::<C>
            },
            final(self).spec_connections() == old(self).spec_connections().remove(key),
            final(self).spec_streams() == old(self).spec_streams().remove(key),
            final(self).spec_next_key() == old(self).spec_next_key(),
    {
        proof {
            use_type_invariant(&*self);
        }
        let mut conns = BTreeMap::new();
        std::mem::swap(&mut conns, &mut self.connections);
        let removed = conns.remove(&key);
        self.connections = conns;
        proof {
            assert(self.spec_connections() =~= old(self).spec_connections().remove(key));
            assert(self.spec_streams() =~= old(self).spec_streams().remove(key));
        }
        match removed {
            Some(c) => Some(c.connection),
            None => None,
        }
    }

    /// The connection under `key`, to open a stream on, or an error when it is gone.
    pub fn connection(&self, key: u64) -> (r: Result<&C, ServerConnectionError>)
        ensures
            match r {
                Ok(c) => self.spec_connections().contains_key(key) && *c == self.spec_connections()[key],
                Err(e) => !self.spec_connections().contains_key(key) && e == ServerConnectionError::ConnectionDead,
            },
    {
        match self.connections.get(&key) {
            Some(c) => Ok(&c.connection),
            None => Err(ServerConnectionError::ConnectionDead),
        }
    }

    /// Registers `stream` on the connection under `key` under a fresh stream key, which is
    /// returned; nothing changes and `None` is returned when no connection has the key.
    pub fn insert_stream(&mut self, key: u64, stream: S) -> (r: Option<u64>)
        requires
            old(self).spec_next_key() < u64::MAX,
        ensures
            match r {
                Some(sk) => {
                    &&& old(self).spec_streams().contains_key(key)
                    &&& !old(self).spec_streams()[key].contains_key(sk)
                    &&& final(self).spec_streams() == old(self).spec_streams().insert(
                        key,
                        old(self).spec_streams()[key].insert(sk, stream),
                    )
                    &&& final(self).spec_next_key() == old(self).spec_next_key() + 1
                },
                None => {
                    &&& !old(self).spec_streams().contains_key(key)
                    &&& final(self).spec_streams() == old(self).spec_streams()
                    &&& final(self).spec_next_key() == old(self).spec_next_key()
                },
            },
            final(self).spec_connections() == old(self).spec_connections(),
    {
        proof {
            use_type_invariant(&*self);
        }
        let mut conns = BTreeMap::new();
        std::mem::swap(&mut conns, &mut self.connections);
        let entry = conns.remove(&key);
        match entry {
            None => {
                self.connections = conns;
                proof {
                    assert(self.connections@ =~= old(self).connections@);
                }
                None
            },
            Some(mut conn) => {
                let sk = self.next_key;
                conn.packet_streams.insert(sk, stream);
                conns.insert(key, conn);
                self.next_key = self.next_key + 1;
                self.connections = conns;
                proof {
                    assert(self.spec_connections() =~= old(self).spec_connections());
                    assert(self.spec_streams() =~= old(self).spec_streams().insert(
                        key,
                        old(self).spec_streams()[key].insert(sk, stream),
                    ));
                }
                Some(sk)
            },
        }
    }

    /// Deregisters the stream `stream_key` of the connection under `key`; nothing changes when
    /// no connection has the key.
    pub fn remove_stream(&mut self, key: u64, stream_key: u64)
        ensures
            final(self).spec_streams() == if old(self).spec_streams().contains_key(key) {
                old(self).spec_streams().insert(key, old(self).spec_streams()[key].remove(stream_key))
            } else {
                old(self).spec_streams()
            },
            final(self).spec_connections() == old(self).spec_connections(),
            final(self).spec_next_key() == old(self).spec_next_key(),
    {
        proof {
            use_type_invariant(&*self);
        }
        let mut conns = BTreeMap::new();
        std::mem::swap(&mut conns, &mut self.connections);
        let entry = conns.remove(&key);
        match entry {
            None => {
                self.connections = conns;
                proof {
                    assert(self.connections@ =~= old(self).connections@);
                }
            },
            Some(mut conn) => {
                let _ = conn.packet_streams.remove(&stream_key);
                conns.insert(key, conn);
                self.connections = conns;
                proof {
                    assert(self.spec_connections() =~= old(self).spec_connections());
                    assert(self.spec_streams() =~= old(self).spec_streams().insert(
                        key,
                        old(self).spec_streams()[key].remove(stream_key),
                    ));
                }
            },
        }
    }
}

/// The network thread's own server state: the id the next in-process connection gets, and the
/// connections with their packet streams.
pub struct NetworkThreadServerState<C, S> {
    free_local_id: i32,
    /// The connections held by the network thread.
    pub connections: ServerConnectionTable<C, S>,
}

impl<C, S> NetworkThreadServerState<C, S> {
    /// The connection table.
    pub closed spec fn table(self) -> ServerConnectionTable<C, S> {
        self.connections
    }

    /// The id the next in-process connection gets.
    pub closed spec fn next_local_id(self) -> i32 {
        self.free_local_id
    }

    /// A fresh state: local connection ids start at zero, and no connection is held.
    pub fn new() -> (r: NetworkThreadServerState<C, S>)
        ensures
            r.next_local_id() == 0,
            r.table().spec_connections() == Map::<u64, C>::empty(),
            r.table().spec_streams() == Map::<u64, Map<u64, S>>::empty(),
            r.table().spec_next_key() == 0,
    {
        NetworkThreadServerState { free_local_id: 0, connections: ServerConnectionTable::new() }
    }

    /// The id the next in-process connection gets.
    pub fn free_local_id(&self) -> (r: i32)
        ensures
            r == self.next_local_id(),
    {
        self.free_local_id
    }

    /// The address of a new in-process connection; each gets the next id.
    pub fn allocate_local_peer(&mut self) -> (r: PeerAddress)
        requires
            old(self).next_local_id() < i32::MAX,
        ensures
            r == PeerAddress::Local(old(self).next_local_id()),
            final(self).next_local_id() == old(self).next_local_id() + 1,
            final(self).table().spec_connections() == old(self).table().spec_connections(),
            final(self).table().spec_streams() == old(self).table().spec_streams(),
            final(self).table().spec_next_key() == old(self).table().spec_next_key(),
    {
        let id = self.free_local_id;
        self.free_local_id = self.free_local_id + 1;
        PeerAddress::Local(id)
    }
}

/// A run of in-process connection creations from a fresh state, each as
/// [`NetworkThreadServerState::allocate_local_peer`] does it: `ids[i]` is the next local id before
/// the `i`-th creation, which gives the address `peers[i]` and moves the id on by one.
pub open spec fn local_allocation_run(ids: Seq<i32>, peers: Seq<PeerAddress>) -> bool {
    &&& ids.len() == peers.len() + 1
    &&& ids[0] == 0
    &&& forall|i: int|
        0 <= i < peers.len() ==> #[trigger] peers[i] == PeerAddress::Local(ids[i]) && ids[i + 1] == ids[i] + 1
}

/// The `i`-th in-process connection created from a fresh state gets the address `Local(i)`, so
/// no two of them share an address.
pub proof fn lemma_local_peers_are_numbered_in_order(ids: Seq<i32>, peers: Seq<PeerAddress>)
    requires
        local_allocation_run(ids, peers),
    ensures
        forall|i: int| 0 <= i < peers.len() ==> #[trigger] peers[i] == PeerAddress::Local(i as i32),
        forall|i: int, j: int| 0 <= i < j < peers.len() ==> #[trigger] peers[i] != #[trigger] peers[j],
{
    assert forall|i: int| 0 <= i <= peers.len() implies #[trigger] ids[i] == i by {
        lemma_local_ids_count_up(ids, peers, i);
    }
    assert forall|i: int| 0 <= i < peers.len() implies #[trigger] peers[i] == PeerAddress::Local(i as i32) by {
        assert(ids[i] == i);
    }
    assert forall|i: int, j: int| 0 <= i < j < peers.len() implies #[trigger] peers[i] != #[trigger] peers[j] by {
        assert(ids[i] == i && ids[j] == j);
    }
}

proof fn lemma_local_ids_count_up(ids: Seq<i32>, peers: Seq<PeerAddress>, i: int)
    requires
        local_allocation_run(ids, peers),
        0 <= i <= peers.len(),
    ensures
        ids[i] == i,
    decreases i,
{
    if i > 0 {
        lemma_local_ids_count_up(ids, peers, i - 1);
        assert(peers[i - 1] == PeerAddress::Local(ids[i - 1]));
    }
}

impl<C, S> NetworkThreadState for NetworkThreadServerState<C, S> {
    /// Nothing to close: the connections end with their own tasks.
    fn shutdown(&mut self)
        ensures
            final(self).next_local_id() == old(self).next_local_id(),
            final(self).table().spec_connections() == old(self).table().spec_connections(),
            final(self).table().spec_streams() == old(self).table().spec_streams(),
    {
    }
}

/// `s` holds each of its elements once.
pub open spec fn distinct_addresses(s: Seq<SocketAddress>) -> bool {
    forall|i: int, j: int| 0 <= i < j < s.len() ==> s[i] != s[j]
}

/// The addresses of `a` not in `b`, each once, in the order of their first occurrence in `a`.
pub fn addresses_not_in(a: &[SocketAddress], b: &[SocketAddress]) -> (r: Vec<SocketAddress>)
    ensures
        distinct_addresses(r@),
        forall|x: SocketAddress| #[trigger] r@.contains(x) <==> (a@.contains(x) && !b@.contains(x)),
{
    let mut r: Vec<SocketAddress> = Vec::new();
    let mut i: usize = 0;
    while i < a.len()
        invariant
            i <= a@.len(),
            distinct_addresses(r@),
            forall|x: SocketAddress| #[trigger] r@.contains(x) <==> (a@.subrange(0, i as int).contains(x) && !b@.contains(x)),
        decreases a@.len() - i,
    {
        let x = a[i];
        let in_b = contains_address(b, x);
        let in_r = contains_address(r.as_slice(), x);
        let ghost r0 = r@;
        if !in_b && !in_r {
            r.push(x);
        }
        proof {
            let next = a@.subrange(0, i + 1);
            let prev = a@.subrange(0, i as int);
            assert forall|y: SocketAddress| #[trigger] r@.contains(y) <==> (next.contains(y) && !b@.contains(y)) by {
                if next.contains(y) && y != x {
                    let k = choose|k: int| 0 <= k < next.len() && #[trigger] next[k] == y;
                    assert(prev[k] == y);
                }
                if prev.contains(y) {
                    let k = choose|k: int| 0 <= k < prev.len() && #[trigger] prev[k] == y;
                    assert(next[k] == y);
                }
                assert(next[i as int] == x);
                if r@.contains(y) && y != x {
                    let k = choose|k: int| 0 <= k < r@.len() && #[trigger] r@[k] == y;
                    assert(r0[k] == y);
                }
                if r0.contains(y) {
                    let k = choose|k: int| 0 <= k < r0.len() && #[trigger] r0[k] == y;
                    assert(r@[k] == y);
                }
                if !in_b && !in_r {
                    assert(r@[r0.len() as int] == x);
                }
            }
        }
        i = i + 1;
    }
    proof {
        assert(a@.subrange(0, a@.len() as int) =~= a@);
    }
    r
}

/// Whether `x` occurs in `s`.
fn contains_address(s: &[SocketAddress], x: SocketAddress) -> (r: bool)
    ensures
        r == s@.contains(x),
{
    let mut i: usize = 0;
    while i < s.len()
        invariant
            i <= s@.len(),
            forall|k: int| 0 <= k < i ==> s@[k] != x,
        decreases s@.len() - i,
    {
        if s[i] == x {
            return true;
        }
        i = i + 1;
    }
    false
}

/// The listening addresses to shut down (listened on, no longer configured) and to set up
/// (configured, not listened on yet), each once.
pub fn listener_changes(current: &[SocketAddress], configured: &[SocketAddress]) -> (r: (Vec<SocketAddress>, Vec<SocketAddress>))
    ensures
        distinct_addresses(r.0@),
        distinct_addresses(r.1@),
        forall|x: SocketAddress| #[trigger] r.0@.contains(x) <==> (current@.contains(x) && !configured@.contains(x)),
        forall|x: SocketAddress| #[trigger] r.1@.contains(x) <==> (configured@.contains(x) && !current@.contains(x)),
{
    (addresses_not_in(current, configured), addresses_not_in(configured, current))
}

/// The entity of the first player (entity and connection key) on connection `key`.
pub open spec fn player_on_connection(players: Seq<(Entity, u64)>, key: u64) -> Option<Entity>
    decreases players.len(),
{
    if players.len() == 0 {
        None
    } else if players[0].1 == key {
        Some(players[0].0)
    } else {
        player_on_connection(players.drop_first(), key)
    }
}

/// The entity of the first player (entity and connection key) on connection `key`: the one to
/// despawn when that connection is removed.
pub fn find_player_on_connection(players: &[(Entity, u64)], key: u64) -> (r: Option<Entity>)
    ensures
        r == player_on_connection(players@, key),
{
    let mut i: usize = 0;
    assert(players@.subrange(0, players@.len() as int) =~= players@);
    while i < players.len()
        invariant
            i <= players@.len(),
            player_on_connection(players@, key) == player_on_connection(players@.subrange(i as int, players@.len() as int), key),
        decreases players@.len() - i,
    {
        let (e, k) = players[i];
        proof {
            assert(players@.subrange(i as int, players@.len() as int).drop_first() =~= players@.subrange(i + 1, players@.len() as int));
        }
        if k == key {
            return Some(e);
        }
        i = i + 1;
    }
    None
}

/// A table of the connected players' entities by their peer address, kept in step with the
/// players joining and leaving.
pub struct ConnectedPlayersTable {
    players_by_address: Vec<(PeerAddress, Entity)>,
}

/// No address occurs twice among the entries.
pub open spec fn addresses_unique(s: Seq<(PeerAddress, Entity)>) -> bool {
    forall|i: int, j: int| 0 <= i < s.len() && 0 <= j < s.len() && i != j ==> #[trigger] s[i].0 != #[trigger] s[j].0
}

/// The map described by entries with unique addresses.
pub open spec fn address_map(s: Seq<(PeerAddress, Entity)>) -> Map<PeerAddress, Entity> {
    Map::new(
        |a: PeerAddress| exists|i: int| 0 <= i < s.len() && #[trigger] s[i].0 == a,
        |a: PeerAddress| s[choose|i: int| 0 <= i < s.len() && #[trigger] s[i].0 == a].1,
    )
}

impl View for ConnectedPlayersTable {
    type V = Map<PeerAddress, Entity>;

    /// The player entity at each address.
    closed spec fn view(&self) -> Map<PeerAddress, Entity> {
        address_map(self.players_by_address@)
    }
}

impl ConnectedPlayersTable {
    /// Each address is held once.
    #[verifier::type_invariant]
    closed spec fn inv(self) -> bool {
        addresses_unique(self.players_by_address@)
    }

    /// An empty table.
    pub fn new() -> (r: ConnectedPlayersTable)
        ensures
            r@ == Map::<PeerAddress, Entity>::empty(),
    {
        let r = ConnectedPlayersTable { players_by_address: Vec::new() };
        assert(r@ =~= Map::<PeerAddress, Entity>::empty());
        r
    }

    /// The index of the entry for `addr`, if any.
    fn find(&self, addr: PeerAddress) -> (r: Option<usize>)
        ensures
            r matches Some(i) ==> i < self.players_by_address@.len() && self.players_by_address@[i as int].0 == addr,
            r is None ==> forall|i: int| 0 <= i < self.players_by_address@.len() ==> #[trigger] self.players_by_address@[i].0 != addr,
    {
        let mut i: usize = 0;
        while i < self.players_by_address.len()
            invariant
                i <= self.players_by_address@.len(),
                forall|j: int| 0 <= j < i ==> #[trigger] self.players_by_address@[j].0 != addr,
            decreases self.players_by_address@.len() - i,
        {
            if self.players_by_address[i].0 == addr {
                return Some(i);
            }
            i = i + 1;
        }
        None
    }

    /// The player entity connected from `addr`, if any.
    pub fn get(&self, addr: PeerAddress) -> (r: Option<Entity>)
        ensures
            r is Some <==> self@.contains_key(addr),
            r matches Some(e) ==> e == self@[addr],
    {
        proof {
            use_type_invariant(self);
        }
        match self.find(addr) {
            Some(i) => {
                proof {
                    let s = self.players_by_address@;
                    assert(exists|k: int| 0 <= k < s.len() && #[trigger] s[k].0 == addr);
                    let c = choose|k: int| 0 <= k < s.len() && #[trigger] s[k].0 == addr;
                    assert(c == i);
                }
                Some(self.players_by_address[i].1)
            },
            None => None,
        }
    }

    /// The entries, each address once.
    pub fn players_by_address(&self) -> (r: &Vec<(PeerAddress, Entity)>)
        ensures
            addresses_unique(r@),
            address_map(r@) == self@,
    {
        proof {
            use_type_invariant(self);
        }
        &self.players_by_address
    }

    /// Records that the player `entity` joined from `addr`; no other player may be connected
    /// from the same address.
    pub fn on_player_insert(&mut self, addr: PeerAddress, entity: Entity)
        requires
            !old(self)@.contains_key(addr),
        ensures
            final(self)@ == old(self)@.insert(addr, entity),
    {
        proof {
            use_type_invariant(&*self);
        }
        let ghost s0 = self.players_by_address@;
        let mut entries: Vec<(PeerAddress, Entity)> = Vec::new();
        std::mem::swap(&mut entries, &mut self.players_by_address);
        proof {
            assert forall|k: int| 0 <= k < s0.len() implies #[trigger] s0[k].0 != addr by {
                if s0[k].0 == addr {
                    assert(address_map(s0).contains_key(addr));
                }
            }
        }
        entries.push((addr, entity));
        let ghost s1 = entries@;
        proof {
            assert(addresses_unique(s1));
        }
        self.players_by_address = entries;
        proof {
            assert forall|a: PeerAddress| #[trigger] self@.contains_key(a) <==> old(self)@.insert(addr, entity).contains_key(a) by {
                if a != addr && old(self)@.contains_key(a) {
                    let k = choose|k: int| 0 <= k < s0.len() && #[trigger] s0[k].0 == a;
                    assert(s1[k].0 == a);
                }
                if a == addr {
                    assert(s1[s0.len() as int].0 == a);
                }
                if self@.contains_key(a) && a != addr {
                    let k = choose|k: int| 0 <= k < s1.len() && #[trigger] s1[k].0 == a;
                    assert(s0[k].0 == a);
                }
            }
            assert forall|a: PeerAddress| #[trigger] self@.contains_key(a) implies self@[a] == old(self)@.insert(addr, entity)[a] by {
                let k = choose|k: int| 0 <= k < s1.len() && #[trigger] s1[k].0 == a;
                if a == addr {
                    assert(k == s0.len());
                } else {
                    let k0 = choose|k0: int| 0 <= k0 < s0.len() && #[trigger] s0[k0].0 == a;
                    assert(s1[k0].0 == a);
                    assert(k == k0);
                }
            }
            assert(self@ =~= old(self)@.insert(addr, entity));
        }
    }

    /// Records that the player connected from `addr` left.
    pub fn on_player_remove(&mut self, addr: PeerAddress)
        ensures
            final(self)@ == old(self)@.remove(addr),
    {
        proof {
            use_type_invariant(&*self);
        }
        let ghost s0 = self.players_by_address@;
        match self.find(addr) {
            None => {
                proof {
                    assert forall|a: PeerAddress| #[trigger] self@.contains_key(a) implies a != addr by {
                        let k = choose|k: int| 0 <= k < s0.len() && #[trigger] s0[k].0 == a;
                    }
                    assert(self@ =~= old(self)@.remove(addr));
                }
            },
            Some(i) => {
                let mut entries: Vec<(PeerAddress, Entity)> = Vec::new();
                std::mem::swap(&mut entries, &mut self.players_by_address);
                entries.swap_remove(i);
                let ghost s1 = entries@;
                proof {
                    assert(s1 =~= if i + 1 == s0.len() {
                        s0.drop_last()
                    } else {
                        s0.drop_last().update(i as int, s0.last())
                    });
                    assert(addresses_unique(s1)) by {
                        assert forall|a: int, b: int| 0 <= a < s1.len() && 0 <= b < s1.len() && a != b implies #[trigger] s1[a].0 != #[trigger] s1[b].0 by {
                            let oa = if a == i { s0.len() - 1 } else { a };
                            let ob = if b == i { s0.len() - 1 } else { b };
                            assert(s1[a] == s0[oa]);
                            assert(s1[b] == s0[ob]);
                        }
                    }
                }
                self.players_by_address = entries;
                proof {
                    assert forall|a: PeerAddress| #[trigger] self@.contains_key(a) <==> old(self)@.remove(addr).contains_key(a) by {
                        if self@.contains_key(a) {
                            let k = choose|k: int| 0 <= k < s1.len() && #[trigger] s1[k].0 == a;
                            let ok = if k == i { s0.len() - 1 } else { k };
                            assert(s0[ok].0 == a);
                            assert(ok != i);
                        }
                        if a != addr && old(self)@.contains_key(a) {
                            let k = choose|k: int| 0 <= k < s0.len() && #[trigger] s0[k].0 == a;
                            assert(k != i);
                            let nk = if k == s0.len() - 1 { i as int } else { k };
                            assert(s1[nk].0 == a);
                        }
                    }
                    assert forall|a: PeerAddress| #[trigger] self@.contains_key(a) implies self@[a] == old(self)@[a] by {
                        let k = choose|k: int| 0 <= k < s1.len() && #[trigger] s1[k].0 == a;
                        let ok = if k == i { s0.len() - 1 } else { k };
                        assert(s0[ok].0 == a);
                        let k0 = choose|k0: int| 0 <= k0 < s0.len() && #[trigger] s0[k0].0 == a;
                        assert(k0 == ok);
                    }
                    assert(self@ =~= old(self)@.remove(addr));
                }
            },
        }
    }
}

} // verus!
