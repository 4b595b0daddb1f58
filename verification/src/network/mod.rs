//! The networking layer of the game: addresses, network identifiers of entities, and the rules of
//! the client-server protocol.
use std::collections::BTreeMap;

use vstd::prelude::*;

use crate::entity::Entity;

pub mod client;
pub mod packets;
pub mod server;
pub mod server_entity_syncer;
pub mod transport;

verus! {

broadcast use {vstd::laws_cmp::group_laws_cmp, vstd::std_specs::btree::group_btree_axioms};

/// The per-side state of the network thread.
pub trait NetworkThreadState {
    /// Closes what the state holds open when the network thread stops.
    fn shutdown(&mut self);
}

/// An IP address.
#[derive(Clone, Copy, Debug, PartialEq, Eq, Structural)]
pub enum IpAddress {
    /// An IPv4 address, most significant octet first.
    V4(u32),
    /// An IPv6 address with its flow information and scope id.
    V6 { addr: u128, flowinfo: u32, scope_id: u32 },
}

/// An IP address and port.
#[derive(Clone, Copy, Debug, PartialEq, Eq, Structural)]
pub struct SocketAddress {
    pub ip: IpAddress,
    pub port: u16,
}

/// Address uniquely identifying a connected network or local peer (client or server on the other
/// side of the connection).
#[derive(Clone, Copy, Debug, PartialEq, Eq, Structural)]
pub enum PeerAddress {
    /// A local, in-process connection with a given ID to distinguish multiple local connections.
    Local(i32),
    /// A remote, over-the-network connection to a given peer at the specified IP address and
    /// port, connected to a local IP and port.
    Network {
        /// The local network interface address and port bound for this peer
        local: SocketAddress,
        /// The peer's address and port
        remote: SocketAddress,
    },
}

impl PeerAddress {
    /// Obtains the underlying socket address for a remote address, or None for other types.
    pub fn remote_addr(self) -> (r: Option<SocketAddress>)
        ensures
            r == match self {
                PeerAddress::Network { remote, .. } => Some(remote),
                _ => None,
            },
    {
        match self {
            PeerAddress::Network { remote, .. } => Some(remote),
            _ => None,
        }
    }
}

/// A non-nil UUID, as its 128 bits.
#[derive(Clone, Copy, Debug, PartialEq, Eq, Structural)]
pub struct NonNilUuid(u128);

impl NonNilUuid {
    /// The bits are not all zero.
    #[verifier::type_invariant]
    pub closed spec fn non_nil(self) -> bool {
        self.0 != 0
    }

    /// The 128 bits of the UUID.
    pub closed spec fn bits(self) -> u128 {
        self.0
    }

    /// The UUID with the given bits, or `None` for the nil UUID.
    pub fn new(bits: u128) -> (r: Option<NonNilUuid>)
        ensures
            r is Some <==> bits != 0,
            r matches Some(u) ==> u.bits() == bits,
    {
        if bits == 0 {
            None
        } else {
            Some(NonNilUuid(bits))
        }
    }

    /// The 128 bits of the UUID.
    pub fn get(self) -> (r: u128)
        ensures
            r == self.bits(),
            r != 0,
    {
        proof {
            use_type_invariant(self);
        }
        self.0
    }
}

/// The bits of a version 4 (random) UUID of the RFC 4122 variant: the version nibble is `4` and
/// the two top bits of the variant byte are `10`.
pub open spec fn is_random_uuid_bits(bits: u128) -> bool {
    bits & 0x0000_0000_0000_F000_C000_0000_0000_0000u128 == 0x0000_0000_0000_4000_8000_0000_0000_0000u128
}

/// Calls `uuid::Uuid::new_v4` and takes its 128 bits. The other bits are random, so only the
/// version and variant bits, which uuid sets, are claimed.
#[verifier::external_body]
fn random_uuid_v4_bits() -> (r: u128)
    ensures
        is_random_uuid_bits(r),
{
    uuid::Uuid::new_v4().as_u128()
}

/// A unique identifier used for disambiguating entities over the network.
#[derive(Clone, Copy, Debug, PartialEq, Eq, Structural)]
pub struct EntityNetworkId(pub NonNilUuid);

impl EntityNetworkId {
    /// Generates a random identifier: a version 4 UUID.
    pub fn random() -> (r: EntityNetworkId)
        ensures
            is_random_uuid_bits(r.0.bits()),
    {
        let bits = random_uuid_v4_bits();
        assert(bits != 0) by (bit_vector)
            requires
                bits & 0x0000_0000_0000_F000_C000_0000_0000_0000u128 == 0x0000_0000_0000_4000_8000_0000_0000_0000u128,
        ;
        match NonNilUuid::new(bits) {
            Some(u) => EntityNetworkId(u),
            None => {
                assert(false);
                EntityNetworkId(NonNilUuid(1))
            },
        }
    }
}

/// Error type for [`EntityNetworkIdLookupTable::get_entity`].
#[derive(Clone, Copy, Debug, PartialEq, Eq, Structural)]
pub enum EntityNetworkIdLookupError {
    /// Zero entities match the query.
    NoSuchEntity(NonNilUuid),
    /// More than one entity matches the query.
    MultipleSuchEntities(NonNilUuid),
}

/// Stores backwards mappings from a network ID to the entities that have it.
pub struct EntityNetworkIdLookupTable {
    network_ids: BTreeMap<u128, Vec<Entity>>,
}

/// The table after `e` gained network id `nid`.
pub open spec fn table_after_add(t: Map<u128, Seq<Entity>>, nid: u128, e: Entity) -> Map<u128, Seq<Entity>> {
    t.insert(nid, if t.contains_key(nid) { t[nid].push(e) } else { seq![e] })
}

/// The entities of `s` other than `e`, in their order.
pub open spec fn without_entity(s: Seq<Entity>, e: Entity) -> Seq<Entity> {
    s.filter(|x: Entity| x != e)
}

/// The table after `e` lost network id `nid`: `e` is taken out of the id's entities, and the id
/// is dropped once no entity has it.
pub open spec fn table_after_discard(t: Map<u128, Seq<Entity>>, nid: u128, e: Entity) -> Map<u128, Seq<Entity>> {
    if !t.contains_key(nid) {
        t
    } else {
        let rest = without_entity(t[nid], e);
        if rest.len() == 0 {
            t.remove(nid)
        } else {
            t.insert(nid, rest)
        }
    }
}

/// What a lookup of `nid` answers for table `t`.
pub open spec fn lookup_result(t: Map<u128, Seq<Entity>>, nid: NonNilUuid) -> Result<Entity, EntityNetworkIdLookupError> {
    if !t.contains_key(nid.bits()) || t[nid.bits()].len() == 0 {
        Err(EntityNetworkIdLookupError::NoSuchEntity(nid))
    } else if t[nid.bits()].len() == 1 {
        Ok(t[nid.bits()][0])
    } else {
        Err(EntityNetworkIdLookupError::MultipleSuchEntities(nid))
    }
}

impl View for EntityNetworkIdLookupTable {
    type V = Map<u128, Seq<Entity>>;

    /// The entities having each network id, in the order they gained it.
    closed spec fn view(&self) -> Map<u128, Seq<Entity>> {
        self.network_ids@.map_values(|v: Vec<Entity>| v@)
    }
}

impl EntityNetworkIdLookupTable {
    /// An empty table.
    pub fn new() -> (r: EntityNetworkIdLookupTable)
        ensures
            r@ == Map::<u128, Seq<Entity>>::empty(),
    {
        let r = EntityNetworkIdLookupTable { network_ids: BTreeMap::new() };
        assert(r@ =~= Map::<u128, Seq<Entity>>::empty());
        r
    }

    /// Looks up an entity by the given network ID: the entity when exactly one has it.
    pub fn get_entity(&self, nid: NonNilUuid) -> (r: Result<Entity, EntityNetworkIdLookupError>)
        ensures
            r == lookup_result(self@, nid),
    {
        let key = nid.get();
        match self.network_ids.get(&key) {
            None => Err(EntityNetworkIdLookupError::NoSuchEntity(nid)),
            Some(v) => {
                if v.len() == 0 {
                    Err(EntityNetworkIdLookupError::NoSuchEntity(nid))
                } else if v.len() == 1 {
                    Ok(v[0])
                } else {
                    Err(EntityNetworkIdLookupError::MultipleSuchEntities(nid))
                }
            },
        }
    }

    /// Records that entity `e` gained network id `nid`.
    pub fn on_add(&mut self, nid: NonNilUuid, e: Entity)
        ensures
            final(self)@ == table_after_add(old(self)@, nid.bits(), e),
    {
        let key = nid.get();
        let mut list = match self.network_ids.remove(&key) {
            Some(v) => v,
            None => Vec::new(),
        };
        list.push(e);
        self.network_ids.insert(key, list);
        proof {
            assert(self@ =~= table_after_add(old(self)@, nid.bits(), e));
        }
    }

    /// Records that entity `e` lost network id `nid`.
    pub fn on_discard(&mut self, nid: NonNilUuid, e: Entity)
        ensures
            final(self)@ == table_after_discard(old(self)@, nid.bits(), e),
    {
        let key = nid.get();
        let list = match self.network_ids.remove(&key) {
            Some(v) => v,
            None => {
                proof {
                    assert(self@ =~= old(self)@);
                }
                return;
            },
        };
        let ghost l0 = list@;
        let mut kept: Vec<Entity> = Vec::new();
        let mut i: usize = 0;
        while i < list.len()
            invariant
                l0 == list@,
                i <= l0.len(),
                kept@ == without_entity(l0.subrange(0, i as int), e),
            decreases l0.len() - i,
        {
            proof {
                reveal(Seq::filter);
                assert(l0.subrange(0, i + 1).drop_last() =~= l0.subrange(0, i as int));
                assert(l0.subrange(0, i + 1).last() == l0[i as int]);
            }
            if list[i] != e {
                kept.push(list[i]);
            }
            i = i + 1;
        }
        proof {
            assert(l0.subrange(0, l0.len() as int) =~= l0);
        }
        if kept.len() > 0 {
            self.network_ids.insert(key, kept);
        }
        proof {
            assert(self@ =~= table_after_discard(old(self)@, nid.bits(), e));
        }
    }
}

/// Looking up the id of an entity that was just added as the only entity with that id finds it.
pub proof fn lemma_lookup_after_add(t: Map<u128, Seq<Entity>>, nid: NonNilUuid, e: Entity)
    requires
        !t.contains_key(nid.bits()) || t[nid.bits()].len() == 0,
    ensures
        lookup_result(table_after_add(t, nid.bits(), e), nid) == Ok::<Entity, EntityNetworkIdLookupError>(e),
{
}

/// Discarding an id from an entity right after adding it restores the table, when that entity did
/// not have the id before and no id maps to an empty list of entities.
pub proof fn lemma_discard_undoes_add(t: Map<u128, Seq<Entity>>, nid: u128, e: Entity)
    requires
        !t.contains_key(nid) || !t[nid].contains(e),
        !t.contains_key(nid) || t[nid].len() > 0,
    ensures
        table_after_discard(table_after_add(t, nid, e), nid, e) == t,
{
    let added = table_after_add(t, nid, e);
    reveal(Seq::filter);
    if t.contains_key(nid) {
        let s = t[nid];
        assert(s.push(e).drop_last() =~= s);
        lemma_filter_keeps_all(s, e);
        assert(without_entity(added[nid], e) == s);
        assert(table_after_discard(added, nid, e) =~= t);
    } else {
        let one = seq![e];
        assert(one.drop_last() =~= Seq::<Entity>::empty());
        assert(without_entity(Seq::<Entity>::empty(), e) =~= Seq::<Entity>::empty());
        assert(without_entity(one, e) =~= Seq::<Entity>::empty());
        assert(table_after_discard(added, nid, e) =~= t);
    }
}

proof fn lemma_filter_keeps_all(s: Seq<Entity>, e: Entity)
    requires
        !s.contains(e),
    ensures
        without_entity(s, e) == s,
    decreases s.len(),
{
    reveal(Seq::filter);
    if s.len() == 0 {
        assert(without_entity(s, e) =~= s);
    } else {
        let init = s.drop_last();
        assert(!init.contains(e)) by {
            if init.contains(e) {
                let k = choose|k: int| 0 <= k < init.len() && init[k] == e;
                assert(s[k] == e);
            }
        }
        lemma_filter_keeps_all(init, e);
        assert(init.push(s.last()) =~= s);
    }
}


/// Which entity holds which network id after `events`, starting from no holder: an event
/// `(true, nid, e)` is `e` gaining `nid`, `(false, nid, e)` is `e` losing it.
pub open spec fn holders_after(events: Seq<(bool, u128, Entity)>) -> Map<Entity, u128>
    decreases events.len(),
{
    if events.len() == 0 {
        Map::empty()
    } else {
        let h = holders_after(events.drop_last());
        let (gained, nid, e) = events.last();
        if gained {
            h.insert(e, nid)
        } else {
            h.remove(e)
        }
    }
}

/// Each event is possible where it happens: an entity gains an id only while it holds none, and
/// loses only the id it holds.
pub open spec fn events_valid(events: Seq<(bool, u128, Entity)>) -> bool
    decreases events.len(),
{
    events.len() == 0 || {
        let h = holders_after(events.drop_last());
        let (gained, nid, e) = events.last();
        &&& events_valid(events.drop_last())
        &&& gained ==> !h.contains_key(e)
        &&& !gained ==> h.contains_key(e) && h[e] == nid
    }
}

/// The lookup table after recording `events` in order onto `t`.
pub open spec fn table_after_events(t: Map<u128, Seq<Entity>>, events: Seq<(bool, u128, Entity)>) -> Map<
    u128,
    Seq<Entity>,
>
    decreases events.len(),
{
    if events.len() == 0 {
        t
    } else {
        let prev = table_after_events(t, events.drop_last());
        let (gained, nid, e) = events.last();
        if gained {
            table_after_add(prev, nid, e)
        } else {
            table_after_discard(prev, nid, e)
        }
    }
}

/// Table `t` lists, for each id, exactly the entities holding it in `h`, each once, and no id
/// maps to an empty list.
pub open spec fn mirrors_holders(t: Map<u128, Seq<Entity>>, h: Map<Entity, u128>) -> bool {
    &&& forall|nid: u128| #[trigger] t.contains_key(nid) ==> t[nid].len() > 0 && t[nid].no_duplicates()
    &&& forall|nid: u128, e: Entity|
        t.contains_key(nid) && #[trigger] t[nid].contains(e) ==> h.contains_key(e) && h[e] == nid
    &&& forall|e: Entity| #[trigger] h.contains_key(e) ==> t.contains_key(h[e]) && t[h[e]].contains(e)
}

/// Starting from an empty table, recording any possible sequence of ids gained and lost keeps
/// the table listing, for each id, exactly the entities holding it, each once, with no id left
/// mapped to an empty list.
pub proof fn lemma_table_mirrors_holders(events: Seq<(bool, u128, Entity)>)
    requires
        events_valid(events),
    ensures
        mirrors_holders(table_after_events(Map::empty(), events), holders_after(events)),
    decreases events.len(),
{
    if events.len() > 0 {
        let init = events.drop_last();
        lemma_table_mirrors_holders(init);
        let t = table_after_events(Map::empty(), init);
        let h = holders_after(init);
        let (gained, nid, e) = events.last();
        let t2 = table_after_events(Map::empty(), events);
        let h2 = holders_after(events);
        if gained {
            assert(!(t.contains_key(nid) && t[nid].contains(e)));
            let l = if t.contains_key(nid) { t[nid].push(e) } else { seq![e] };
            assert(t2 == t.insert(nid, l));
            assert forall|x: Entity| #[trigger] l.contains(x) <==> (x == e || (t.contains_key(nid) && t[nid].contains(x))) by {
                if t.contains_key(nid) {
                    if l.contains(x) && x != e {
                        let k = choose|k: int| 0 <= k < l.len() && l[k] == x;
                        assert(t[nid][k] == x);
                    }
                    if t[nid].contains(x) {
                        let k = choose|k: int| 0 <= k < t[nid].len() && t[nid][k] == x;
                        assert(l[k] == x);
                    }
                    assert(l[t[nid].len() as int] == e);
                } else {
                    assert(l[0] == e);
                }
            }
            assert(l.no_duplicates()) by {
                if t.contains_key(nid) {
                    assert forall|i: int, j: int| 0 <= i < l.len() && 0 <= j < l.len() && i != j implies l[i] != l[j] by {
                        if i < t[nid].len() && j < t[nid].len() {
                        } else if i < t[nid].len() {
                            assert(t[nid].contains(l[i]));
                        } else {
                            assert(t[nid].contains(l[j]));
                        }
                    }
                }
            }
            assert forall|n: u128, x: Entity| t2.contains_key(n) && #[trigger] t2[n].contains(x) implies h2.contains_key(x)
                && h2[x] == n by {
                if n != nid {
                    assert(t2[n] == t[n]);
                }
            }
            assert forall|x: Entity| #[trigger] h2.contains_key(x) implies t2.contains_key(h2[x]) && t2[h2[x]].contains(x) by {
                if x != e {
                    assert(h.contains_key(x));
                    if h[x] == nid {
                        assert(l.contains(x));
                    }
                }
            }
        } else {
            assert(t.contains_key(nid) && t[nid].contains(e));
            let rest = without_entity(t[nid], e);
            lemma_without_entity(t[nid], e);
            assert forall|n: u128, x: Entity| t2.contains_key(n) && #[trigger] t2[n].contains(x) implies h2.contains_key(x)
                && h2[x] == n by {
                if n != nid {
                    assert(t2[n] == t[n]);
                } else {
                    assert(t2[n] == rest);
                }
            }
            assert forall|x: Entity| #[trigger] h2.contains_key(x) implies t2.contains_key(h2[x]) && t2[h2[x]].contains(x) by {
                assert(h.contains_key(x) && x != e);
                if h[x] == nid {
                    assert(rest.contains(x));
                    assert(rest.len() > 0);
                }
            }
        }
    }
}

/// Taking `e` out of `s` keeps every other element and no repetition.
proof fn lemma_without_entity(s: Seq<Entity>, e: Entity)
    ensures
        forall|x: Entity| #[trigger] without_entity(s, e).contains(x) <==> s.contains(x) && x != e,
        s.no_duplicates() ==> without_entity(s, e).no_duplicates(),
    decreases s.len(),
{
    reveal(Seq::filter);
    if s.len() == 0 {
        assert(without_entity(s, e) =~= Seq::<Entity>::empty());
    } else {
        let init = s.drop_last();
        let last = s.last();
        lemma_without_entity(init, e);
        assert(init.push(last) =~= s);
        let r0 = without_entity(init, e);
        let r = without_entity(s, e);
        assert(r == if last != e { r0.push(last) } else { r0 });
        assert forall|x: Entity| #[trigger] r.contains(x) <==> s.contains(x) && x != e by {
            if s.contains(x) && x != e && x != last {
                let k = choose|k: int| 0 <= k < s.len() && s[k] == x;
                assert(init[k] == x);
                assert(r0.contains(x));
                let m = choose|m: int| 0 <= m < r0.len() && r0[m] == x;
                assert(r[m] == x);
            }
            if r.contains(x) {
                let m = choose|m: int| 0 <= m < r.len() && r[m] == x;
                if m < r0.len() {
                    assert(r0[m] == x);
                    assert(r0.contains(x));
                    let k = choose|k: int| 0 <= k < init.len() && init[k] == x;
                    assert(s[k] == x);
                } else {
                    assert(x == last);
                    assert(s[s.len() - 1] == x);
                }
            }
            if x == last && x != e {
                assert(r[r.len() - 1] == x);
            }
        }
        if s.no_duplicates() {
            assert(init.no_duplicates()) by {
                assert forall|i: int, j: int| 0 <= i < init.len() && 0 <= j < init.len() && i != j implies init[i] != init[j] by {
                    assert(s[i] == init[i] && s[j] == init[j]);
                }
            }
            if last != e {
                assert(!r0.contains(last)) by {
                    if r0.contains(last) {
                        assert(init.contains(last));
                        let k = choose|k: int| 0 <= k < init.len() && init[k] == last;
                        assert(s[k] == s[s.len() - 1]);
                    }
                }
                assert forall|i: int, j: int| 0 <= i < r.len() && 0 <= j < r.len() && i != j implies r[i] != r[j] by {
                    if i < r0.len() && j < r0.len() {
                        assert(r[i] == r0[i] && r[j] == r0[j]);
                    } else if i < r0.len() {
                        assert(r0.contains(r[i]));
                    } else {
                        assert(r0.contains(r[j]));
                    }
                }
            }
        }
    }
}

} // verus!
