//! Synchronizes entity state over the network: which connected players already know of which
//! entity, and what each player must be sent.
use vstd::prelude::*;

use crate::entity::RegistryId;
use crate::network::{EntityNetworkId, NonNilUuid};

verus! {

/// A set of connected players, one bit each. A server hosts at most 63 players at a time, so at
/// least one bit always stays free.
pub type ConnectedPlayersBitset = u64;

/// Whether bit `i` of `x` is set.
pub open spec fn bit_set(x: u64, i: u64) -> bool {
    (x >> i) & 1u64 == 1u64
}

/// The number of clear bits of `x` below bit `n`.
pub open spec fn zeros_below(x: u64, n: nat) -> nat
    decreases n,
{
    if n == 0 {
        0
    } else {
        zeros_below(x, (n - 1) as nat) + if bit_set(x, (n - 1) as u64) {
            0nat
        } else {
            1nat
        }
    }
}

/// The number of clear bits of `x`: the player slots that are still free.
pub open spec fn free_slots(x: u64) -> nat {
    zeros_below(x, 64)
}

/// `loc` is the lowest clear bit of `x`.
pub open spec fn is_lowest_free(x: u64, loc: u32) -> bool {
    &&& loc < 64
    &&& !bit_set(x, loc as u64)
    &&& forall|j: u64| j < loc ==> bit_set(x, j)
}

proof fn lemma_single_bit(loc: u64, i: u64)
    requires
        loc < 64,
        i < 64,
    ensures
        bit_set(1u64 << loc, i) <==> i == loc,
{
    assert(bit_set(1u64 << loc, i) <==> i == loc) by (bit_vector)
        requires
            loc < 64,
            i < 64,
    ;
}

proof fn lemma_or_bit(a: u64, b: u64, i: u64)
    requires
        i < 64,
    ensures
        bit_set(a | b, i) <==> (bit_set(a, i) || bit_set(b, i)),
{
    assert(bit_set(a | b, i) <==> (bit_set(a, i) || bit_set(b, i))) by (bit_vector)
        requires
            i < 64,
    ;
}

proof fn lemma_not_bit(a: u64, i: u64)
    requires
        i < 64,
    ensures
        bit_set(!a, i) <==> !bit_set(a, i),
{
    assert(bit_set(!a, i) <==> !bit_set(a, i)) by (bit_vector)
        requires
            i < 64,
    ;
}

proof fn lemma_and_bit(a: u64, b: u64, i: u64)
    requires
        i < 64,
    ensures
        bit_set(a & b, i) <==> (bit_set(a, i) && bit_set(b, i)),
{
    assert(bit_set(a & b, i) <==> (bit_set(a, i) && bit_set(b, i))) by (bit_vector)
        requires
            i < 64,
    ;
}

/// Setting the clear bit `b` of `x` takes one free slot away, when `b` is below `n`.
proof fn lemma_zeros_after_set(x: u64, b: u64, n: nat)
    requires
        b < 64,
        n <= 64,
        !bit_set(x, b),
    ensures
        zeros_below(x | (1u64 << b), n) + (if b < n {
            1nat
        } else {
            0nat
        }) == zeros_below(x, n),
    decreases n,
{
    if n > 0 {
        lemma_zeros_after_set(x, b, (n - 1) as nat);
        let i = (n - 1) as u64;
        lemma_or_bit(x, 1u64 << b, i);
        lemma_single_bit(b, i);
    }
}

/// A value with a clear bit below `n` has one there.
proof fn lemma_some_zero(x: u64, n: nat)
    requires
        n <= 64,
        zeros_below(x, n) > 0,
    ensures
        exists|i: u64| i < n && !bit_set(x, i),
    decreases n,
{
    if !bit_set(x, (n - 1) as u64) {
        assert(((n - 1) as u64) < n);
    } else {
        lemma_some_zero(x, (n - 1) as nat);
    }
}

/// The number of player slots still free in `x` (its clear bits).
pub fn free_player_slots(x: u64) -> (r: u32)
    ensures
        r == free_slots(x),
{
    let mut count: u32 = 0;
    let mut i: u64 = 0;
    while i < 64
        invariant
            i <= 64,
            count == zeros_below(x, i as nat),
            count <= i,
        decreases 64 - i,
    {
        proof {
            assert((x >> i) & 1u64 == 0u64 || (x >> i) & 1u64 == 1u64) by (bit_vector);
        }
        if (x >> i) & 1u64 == 0 {
            count = count + 1;
        }
        i = i + 1;
    }
    count
}

/// The lowest clear bit of `x`.
fn lowest_free_slot(x: u64) -> (r: u32)
    requires
        free_slots(x) > 0,
    ensures
        is_lowest_free(x, r),
{
    let mut i: u64 = 0;
    while i < 64
        invariant
            i <= 64,
            free_slots(x) > 0,
            forall|j: u64| j < i ==> bit_set(x, j),
        decreases 64 - i,
    {
        if (x >> i) & 1u64 != 1u64 {
            return i as u32;
        }
        i = i + 1;
    }
    proof {
        lemma_some_zero(x, 64);
    }
    0
}

/// Put on connected players who have already received the first batch of entity data.
#[derive(Clone, Copy, Debug, PartialEq, Eq, Structural)]
pub struct PlayerHadFirstEntitySyncTag {
    /// Location in the [`ConnectedPlayersBitset`] corresponding to this player.
    bitset_loc: u32,
}

impl PlayerHadFirstEntitySyncTag {
    /// The location is a bit of the bitset.
    #[verifier::type_invariant]
    pub closed spec fn loc_in_range(self) -> bool {
        self.bitset_loc < 64
    }

    /// The player's location in the bitset.
    pub closed spec fn loc(self) -> u32 {
        self.bitset_loc
    }

    /// The player's location in the bitset.
    pub fn bitset_loc(&self) -> (r: u32)
        ensures
            r == self.loc(),
            r < 64,
    {
        proof {
            use_type_invariant(self);
        }
        self.bitset_loc
    }

    /// The bitset holding just this player.
    pub fn bitset_mask(&self) -> (r: ConnectedPlayersBitset)
        ensures
            r == 1u64 << self.loc(),
            self.loc() < 64,
    {
        proof {
            use_type_invariant(self);
        }
        1u64 << self.bitset_loc
    }
}

/// The bitset of the players holding `tags`.
pub open spec fn players_bits(tags: Seq<PlayerHadFirstEntitySyncTag>) -> u64
    decreases tags.len(),
{
    if tags.len() == 0 {
        0
    } else {
        players_bits(tags.drop_last()) | (1u64 << tags.last().loc())
    }
}

/// The bitset of the slots `locs`.
pub open spec fn slots_bits(locs: Seq<u32>) -> u64
    decreases locs.len(),
{
    if locs.len() == 0 {
        0
    } else {
        slots_bits(locs.drop_last()) | (1u64 << locs.last())
    }
}

/// The bitset of the players holding `tags`.
pub fn players_bitset(tags: &[PlayerHadFirstEntitySyncTag]) -> (r: ConnectedPlayersBitset)
    ensures
        r == players_bits(tags@),
{
    let mut bits: u64 = 0;
    let mut i: usize = 0;
    while i < tags.len()
        invariant
            i <= tags@.len(),
            bits == players_bits(tags@.subrange(0, i as int)),
        decreases tags@.len() - i,
    {
        proof {
            assert(tags@.subrange(0, i + 1).drop_last() =~= tags@.subrange(0, i as int));
        }
        bits = bits | tags[i].bitset_mask();
        i = i + 1;
    }
    proof {
        assert(tags@.subrange(0, tags@.len() as int) =~= tags@);
    }
    bits
}

/// Picks bitset slots for `count` new players, each taking the lowest slot that is free of
/// `existing` and of the slots picked before it; returns the picked slots' bitset and the slots.
pub fn allocate_player_slots(existing: ConnectedPlayersBitset, count: usize) -> (r: (ConnectedPlayersBitset, Vec<u32>))
    requires
        count < free_slots(existing),
    ensures
        r.1@.len() == count,
        r.0 == slots_bits(r.1@),
        forall|k: int| 0 <= k < count ==> is_lowest_free(existing | slots_bits(#[trigger] r.1@.take(k)), r.1@[k]),
{
    let mut bits: u64 = 0;
    let mut locs: Vec<u32> = Vec::new();
    let mut i: usize = 0;
    assert(existing | 0u64 == existing) by (bit_vector);
    while i < count
        invariant
            i <= count,
            count < free_slots(existing),
            locs@.len() == i,
            bits == slots_bits(locs@),
            free_slots(existing | bits) + i == free_slots(existing),
            forall|k: int| 0 <= k < i ==> is_lowest_free(existing | slots_bits(#[trigger] locs@.take(k)), locs@[k]),
        decreases count - i,
    {
        let all = existing | bits;
        let loc = lowest_free_slot(all);
        let mask = 1u64 << loc;
        let ghost old_locs = locs@;
        locs.push(loc);
        let new_bits = bits | mask;
        proof {
            assert(locs@.drop_last() =~= old_locs);
            assert(existing | new_bits == all | mask) by (bit_vector)
                requires
                    all == existing | bits,
                    new_bits == bits | mask,
            ;
            lemma_zeros_after_set(all, loc as u64, 64);
            assert forall|k: int| 0 <= k < i + 1 implies is_lowest_free(
                existing | slots_bits(#[trigger] locs@.take(k)),
                locs@[k],
            ) by {
                if k < i {
                    assert(locs@.take(k) =~= old_locs.take(k));
                } else {
                    assert(locs@.take(k) =~= old_locs);
                }
            }
        }
        bits = new_bits;
        i = i + 1;
    }
    (bits, locs)
}

/// The bitsets of `tags` and of `locs` agree when the tags hold the locations in order.
proof fn lemma_players_bits_of_slots(tags: Seq<PlayerHadFirstEntitySyncTag>, locs: Seq<u32>)
    requires
        tags.len() == locs.len(),
        forall|k: int| 0 <= k < tags.len() ==> #[trigger] tags[k].loc() == locs[k],
    ensures
        players_bits(tags) == slots_bits(locs),
    decreases tags.len(),
{
    if tags.len() > 0 {
        lemma_players_bits_of_slots(tags.drop_last(), locs.drop_last());
    }
}

/// Sends the entity to connected clients and keeps its networked components in sync.
#[derive(Clone, Copy, Debug, PartialEq, Eq, Structural)]
pub struct ServerToClientSyncableEntity {
    /// The registry id of the entity type to spawn and sync on the other side.
    pub registry_id: RegistryId,
    /// The players already aware of the entity.
    aware_players: ConnectedPlayersBitset,
}

/// An entity that was despawned, with the players that must be told so.
#[derive(Clone, Copy, Debug, PartialEq, Eq, Structural)]
pub struct DespawnedEntityToSync {
    /// The network id of the despawned entity.
    pub nid: EntityNetworkId,
    /// The players that were aware of it.
    pub aware_players: ConnectedPlayersBitset,
}

impl ServerToClientSyncableEntity {
    /// The players already aware of the entity.
    pub closed spec fn aware(self) -> u64 {
        self.aware_players
    }

    /// The registry id of the entity type.
    pub closed spec fn registry(self) -> RegistryId {
        self.registry_id
    }

    /// A fresh marker for network sync, that no player is aware of yet.
    pub fn new(registry_id: RegistryId) -> (r: ServerToClientSyncableEntity)
        ensures
            r.registry() == registry_id,
            r.aware() == 0,
    {
        ServerToClientSyncableEntity { registry_id, aware_players: 0 }
    }

    /// The players already aware of the entity.
    pub fn aware_players(&self) -> (r: ConnectedPlayersBitset)
        ensures
            r == self.aware(),
    {
        self.aware_players
    }

    /// The record left behind when the entity with network id `nid` is despawned.
    pub fn on_discard(&self, nid: EntityNetworkId) -> (r: DespawnedEntityToSync)
        ensures
            r.nid == nid,
            r.aware_players == self.aware(),
    {
        DespawnedEntityToSync { nid, aware_players: self.aware_players }
    }
}

/// The awareness of an entity once the first sync reached the new players `new_bits`: players
/// that left are forgotten, and the new players know of it.
pub open spec fn aware_after_first_sync(aware: u64, existing: u64, new_bits: u64) -> u64 {
    (aware & existing) | new_bits
}

/// Gives `new_player_count` players who have not had any entity data yet their bitset slots,
/// each the lowest still free, and records on every syncable entity that they are sent it (and
/// that players gone since are not aware of it). Returns the new players' tags, in order.
pub fn first_entity_sync(
    existing: &[PlayerHadFirstEntitySyncTag],
    new_player_count: usize,
    entities: &mut Vec<ServerToClientSyncableEntity>,
) -> (r: Vec<PlayerHadFirstEntitySyncTag>)
    requires
        new_player_count < free_slots(players_bits(existing@)),
    ensures
        r@.len() == new_player_count,
        forall|k: int|
            0 <= k < new_player_count ==> is_lowest_free(
                players_bits(existing@) | players_bits(#[trigger] r@.take(k)),
                r@[k].loc(),
            ),
        final(entities)@.len() == old(entities)@.len(),
        forall|e: int|
            0 <= e < old(entities)@.len() ==> (#[trigger] final(entities)@[e]).registry() == old(
                entities,
            )@[e].registry() && final(entities)@[e].aware() == aware_after_first_sync(
                old(entities)@[e].aware(),
                players_bits(existing@),
                players_bits(r@),
            ),
{
    let existing_bits = players_bitset(existing);
    let (new_bits, locs) = allocate_player_slots(existing_bits, new_player_count);
    let mut tags: Vec<PlayerHadFirstEntitySyncTag> = Vec::new();
    let mut i: usize = 0;
    while i < locs.len()
        invariant
            i <= locs@.len(),
            tags@.len() == i,
            forall|k: int| 0 <= k < i ==> #[trigger] tags@[k].loc() == locs@[k],
            forall|k: int| 0 <= k < locs@.len() ==> is_lowest_free(existing_bits | slots_bits(#[trigger] locs@.take(k)), locs@[k]),
        decreases locs@.len() - i,
    {
        let loc = locs[i];
        proof {
            assert(is_lowest_free(existing_bits | slots_bits(locs@.take(i as int)), locs@[i as int]));
        }
        tags.push(PlayerHadFirstEntitySyncTag { bitset_loc: loc });
        i = i + 1;
    }
    proof {
        lemma_players_bits_of_slots(tags@, locs@);
        assert forall|k: int| 0 <= k < new_player_count implies is_lowest_free(
            players_bits(existing@) | players_bits(#[trigger] tags@.take(k)),
            tags@[k].loc(),
        ) by {
            lemma_players_bits_of_slots(tags@.take(k), locs@.take(k));
            assert(is_lowest_free(existing_bits | slots_bits(locs@.take(k)), locs@[k]));
        }
    }
    let ghost e0 = entities@;
    let mut e: usize = 0;
    while e < entities.len()
        invariant
            e <= entities@.len(),
            entities@.len() == e0.len(),
            new_bits == players_bits(tags@),
            existing_bits == players_bits(existing@),
            forall|k: int|
                e <= k < e0.len() ==> #[trigger] entities@[k] == e0[k],
            forall|k: int|
                0 <= k < e ==> (#[trigger] entities@[k]).registry() == e0[k].registry()
                    && entities@[k].aware() == aware_after_first_sync(e0[k].aware(), existing_bits, new_bits),
        decreases e0.len() - e,
    {
        let old_entry = entities[e];
        let updated = ServerToClientSyncableEntity {
            registry_id: old_entry.registry_id,
            aware_players: (old_entry.aware_players & existing_bits) | new_bits,
        };
        entities.set(e, updated);
        e = e + 1;
    }
    tags
}

/// Put on an entity when its network-syncable components have changed.
#[derive(Clone, Copy, Debug, PartialEq, Eq, Structural)]
pub struct ServerToClientEntityDirtyTag;

/// What one player must be sent about one entity.
#[derive(Clone, Copy, Debug, PartialEq, Eq, Structural)]
pub enum EntitySyncAction {
    /// Nothing: the player's view of the entity is current.
    Keep,
    /// The entity's full data: the player is not aware of it yet.
    SendFull,
    /// The entity's changes: the player knows of it and it changed.
    SendDelta,
    /// The entity's removal: the player knew of it but should not see it anymore.
    SendRemoval,
}

/// What a player must be sent about an entity it `was_seen` by, that it `should_be_seen` by,
/// and whose networked components changed when `is_dirty`.
pub open spec fn sync_action(was_seen: bool, should_be_seen: bool, is_dirty: bool) -> EntitySyncAction {
    if !was_seen {
        if should_be_seen {
            EntitySyncAction::SendFull
        } else {
            EntitySyncAction::Keep
        }
    } else if !should_be_seen {
        EntitySyncAction::SendRemoval
    } else if is_dirty {
        EntitySyncAction::SendDelta
    } else {
        EntitySyncAction::Keep
    }
}

/// What a player must be sent about an entity it `was_seen` by, that it `should_be_seen` by,
/// and whose networked components changed when `is_dirty`.
pub fn entity_sync_action(was_seen: bool, should_be_seen: bool, is_dirty: bool) -> (r: EntitySyncAction)
    ensures
        r == sync_action(was_seen, should_be_seen, is_dirty),
{
    match (was_seen, should_be_seen, is_dirty) {
        (false, false, _) => EntitySyncAction::Keep,
        (false, true, _) => EntitySyncAction::SendFull,
        (true, true, false) => EntitySyncAction::Keep,
        (true, true, true) => EntitySyncAction::SendDelta,
        (true, false, _) => EntitySyncAction::SendRemoval,
    }
}

/// What a player is sent about an entity depends on what it knew and should know: an entity it
/// did not know of and should see is sent in full, whether or not it changed; a delta is sent
/// only for an entity it knew of, should still see, and that changed; a removal only for an
/// entity it knew of and should no longer see; otherwise nothing.
pub proof fn lemma_sync_action_by_awareness(was_seen: bool, should_be_seen: bool, is_dirty: bool)
    ensures
        !was_seen && should_be_seen ==> sync_action(was_seen, should_be_seen, is_dirty) == EntitySyncAction::SendFull,
        (sync_action(was_seen, should_be_seen, is_dirty) == EntitySyncAction::SendFull) <==> (!was_seen
            && should_be_seen),
        (sync_action(was_seen, should_be_seen, is_dirty) == EntitySyncAction::SendDelta) <==> (was_seen
            && should_be_seen && is_dirty),
        (sync_action(was_seen, should_be_seen, is_dirty) == EntitySyncAction::SendRemoval) <==> (was_seen
            && !should_be_seen),
        (sync_action(was_seen, should_be_seen, is_dirty) == EntitySyncAction::Keep) <==> ((!was_seen
            && !should_be_seen) || (was_seen && should_be_seen && !is_dirty)),
{
}

/// The awareness of an entity after syncing it with the player of bitset `player`, who should
/// see it; only players in `valid` are kept.
pub open spec fn synced_awareness(aware: u64, player: u64, valid: u64) -> u64 {
    ((aware & !player) | player) & valid
}

/// The awareness of an entity after syncing it with each of `players` in turn.
pub open spec fn aware_after_players(aware: u64, players: Seq<PlayerHadFirstEntitySyncTag>, valid: u64) -> u64
    decreases players.len(),
{
    if players.len() == 0 {
        aware
    } else {
        synced_awareness(aware_after_players(aware, players.drop_last(), valid), 1u64 << players.last().loc(), valid)
    }
}

/// What player `j` of `players` must be sent about entity `e`: every entity should be seen by
/// every player, and the player has seen it when its bit is set once players before it synced.
pub open spec fn planned_action(
    entities: Seq<ServerToClientSyncableEntity>,
    dirty: Seq<Option<ServerToClientEntityDirtyTag>>,
    players: Seq<PlayerHadFirstEntitySyncTag>,
    valid: u64,
    j: int,
    e: int,
) -> EntitySyncAction {
    let pm = 1u64 << players[j].loc();
    let m = aware_after_players(entities[e].aware(), players.take(j), valid);
    sync_action(m & pm != 0, true, dirty[e] is Some)
}

/// The indices below `n` of the entities for which player `j` is planned action `a`, in order.
pub open spec fn planned_indices(
    entities: Seq<ServerToClientSyncableEntity>,
    dirty: Seq<Option<ServerToClientEntityDirtyTag>>,
    players: Seq<PlayerHadFirstEntitySyncTag>,
    valid: u64,
    j: int,
    n: nat,
    a: EntitySyncAction,
) -> Seq<usize>
    decreases n,
{
    if n == 0 {
        Seq::empty()
    } else {
        let prev = planned_indices(entities, dirty, players, valid, j, (n - 1) as nat, a);
        if planned_action(entities, dirty, players, valid, j, n - 1) == a {
            prev.push((n - 1) as usize)
        } else {
            prev
        }
    }
}

/// The network ids below `n` of the entities player `j` must be told were removed, in order.
pub open spec fn planned_removals(
    entities: Seq<ServerToClientSyncableEntity>,
    dirty: Seq<Option<ServerToClientEntityDirtyTag>>,
    nids: Seq<EntityNetworkId>,
    players: Seq<PlayerHadFirstEntitySyncTag>,
    valid: u64,
    j: int,
    n: nat,
) -> Seq<NonNilUuid>
    decreases n,
{
    if n == 0 {
        Seq::empty()
    } else {
        let prev = planned_removals(entities, dirty, nids, players, valid, j, (n - 1) as nat);
        if planned_action(entities, dirty, players, valid, j, n - 1) == EntitySyncAction::SendRemoval {
            prev.push(nids[n - 1].0)
        } else {
            prev
        }
    }
}

/// The network ids of the despawned entities that the player of bitset `pm` was aware of.
pub open spec fn despawned_for(despawned: Seq<DespawnedEntityToSync>, pm: u64) -> Seq<NonNilUuid>
    decreases despawned.len(),
{
    if despawned.len() == 0 {
        Seq::empty()
    } else {
        let prev = despawned_for(despawned.drop_last(), pm);
        if despawned.last().aware_players & pm == pm {
            prev.push(despawned.last().nid.0)
        } else {
            prev
        }
    }
}

/// What one player must be sent in one sync round.
pub struct PlayerSyncPlan {
    /// Indices of the entities whose full data must be sent.
    pub insertions: Vec<usize>,
    /// Indices of the entities whose changes must be sent.
    pub deltas: Vec<usize>,
    /// Network ids of the entities the player must forget.
    pub deletions: Vec<NonNilUuid>,
}

/// The network ids of the despawned entities that the player of bitset `pm` was aware of.
fn despawned_deletions(despawned: &[DespawnedEntityToSync], pm: u64) -> (r: Vec<NonNilUuid>)
    ensures
        r@ == despawned_for(despawned@, pm),
{
    let mut r: Vec<NonNilUuid> = Vec::new();
    let mut i: usize = 0;
    while i < despawned.len()
        invariant
            i <= despawned@.len(),
            r@ == despawned_for(despawned@.subrange(0, i as int), pm),
        decreases despawned@.len() - i,
    {
        proof {
            assert(despawned@.subrange(0, i + 1).drop_last() =~= despawned@.subrange(0, i as int));
        }
        if despawned[i].aware_players & pm == pm {
            r.push(despawned[i].nid.0);
        }
        i = i + 1;
    }
    proof {
        assert(despawned@.subrange(0, despawned@.len() as int) =~= despawned@);
    }
    r
}

/// Plans one sync round: for each player in turn, the despawned entities it knew of are to be
/// deleted, and each live entity is to be sent in full, as changes (when it holds the dirty
/// tag), or as a removal as [`sync_action`] says; each entity's awareness is updated after each
/// player. Entities `entities`, `dirty` and `nids` are indexed alike; once the round is planned,
/// the dirty tags are removed and the despawn records are dropped.
pub fn dirty_entity_sync(
    players: &[PlayerHadFirstEntitySyncTag],
    entities: &mut Vec<ServerToClientSyncableEntity>,
    dirty: &mut Vec<Option<ServerToClientEntityDirtyTag>>,
    nids: &[EntityNetworkId],
    despawned: &mut Vec<DespawnedEntityToSync>,
) -> (r: Vec<PlayerSyncPlan>)
    requires
        old(entities)@.len() == old(dirty)@.len(),
        old(entities)@.len() == nids@.len(),
    ensures
        final(entities)@.len() == old(entities)@.len(),
        forall|e: int|
            0 <= e < old(entities)@.len() ==> (#[trigger] final(entities)@[e]).registry() == old(
                entities,
            )@[e].registry() && final(entities)@[e].aware() == aware_after_players(
                old(entities)@[e].aware(),
                players@,
                players_bits(players@),
            ),
        final(dirty)@.len() == old(dirty)@.len(),
        forall|e: int| 0 <= e < final(dirty)@.len() ==> #[trigger] final(dirty)@[e] is None,
        final(despawned)@.len() == 0,
        r@.len() == players@.len(),
        forall|j: int|
            0 <= j < players@.len() ==> {
                &&& (#[trigger] r@[j]).insertions@ == planned_indices(
                    old(entities)@,
                    old(dirty)@,
                    players@,
                    players_bits(players@),
                    j,
                    old(entities)@.len(),
                    EntitySyncAction::SendFull,
                )
                &&& r@[j].deltas@ == planned_indices(
                    old(entities)@,
                    old(dirty)@,
                    players@,
                    players_bits(players@),
                    j,
                    old(entities)@.len(),
                    EntitySyncAction::SendDelta,
                )
                &&& r@[j].deletions@ == despawned_for(old(despawned)@, 1u64 << players@[j].loc()) + planned_removals(
                    old(entities)@,
                    old(dirty)@,
                    nids@,
                    players@,
                    players_bits(players@),
                    j,
                    old(entities)@.len(),
                )
            },
{
    let ghost e0 = entities@;
    let ghost n = e0.len();
    let valid = players_bitset(players);
    let mut plans: Vec<PlayerSyncPlan> = Vec::new();
    let mut j: usize = 0;
    while j < players.len()
        invariant
            j <= players@.len(),
            n == e0.len(),
            entities@.len() == n,
            dirty@.len() == n,
            dirty@ == old(dirty)@,
            despawned@ == old(despawned)@,
            nids@.len() == n,
            valid == players_bits(players@),
            forall|k: int|
                0 <= k < n ==> (#[trigger] entities@[k]).registry() == e0[k].registry()
                    && entities@[k].aware() == aware_after_players(e0[k].aware(), players@.take(j as int), valid),
            plans@.len() == j,
            forall|jj: int|
                0 <= jj < j ==> {
                    &&& (#[trigger] plans@[jj]).insertions@ == planned_indices(e0, dirty@, players@, valid, jj, n, EntitySyncAction::SendFull)
                    &&& plans@[jj].deltas@ == planned_indices(e0, dirty@, players@, valid, jj, n, EntitySyncAction::SendDelta)
                    &&& plans@[jj].deletions@ == despawned_for(despawned@, 1u64 << players@[jj].loc())
                        + planned_removals(e0, dirty@, nids@, players@, valid, jj, n)
                },
        decreases players@.len() - j,
    {
        let pm = players[j].bitset_mask();
        let mut deletions = despawned_deletions(despawned.as_slice(), pm);
        let ghost gone = deletions@;
        let mut insertions: Vec<usize> = Vec::new();
        let mut deltas: Vec<usize> = Vec::new();
        proof {
            assert(players@.take(j + 1).drop_last() =~= players@.take(j as int));
            assert(players@.take(j + 1).last() == players@[j as int]);
        }
        let mut e: usize = 0;
        while e < entities.len()
            invariant
                e <= n,
                j < players@.len(),
                n == e0.len(),
                entities@.len() == n,
                dirty@.len() == n,
                dirty@ == old(dirty)@,
                despawned@ == old(despawned)@,
                nids@.len() == n,
                pm == 1u64 << players@[j as int].loc(),
                players@.take(j + 1).drop_last() == players@.take(j as int),
                players@.take(j + 1).last() == players@[j as int],
                forall|k: int|
                    0 <= k < n ==> (#[trigger] entities@[k]).registry() == e0[k].registry(),
                forall|k: int|
                    e <= k < n ==> (#[trigger] entities@[k]).aware() == aware_after_players(e0[k].aware(), players@.take(j as int), valid),
                forall|k: int|
                    0 <= k < e ==> (#[trigger] entities@[k]).aware() == aware_after_players(e0[k].aware(), players@.take(j + 1), valid),
                insertions@ == planned_indices(e0, dirty@, players@, valid, j as int, e as nat, EntitySyncAction::SendFull),
                deltas@ == planned_indices(e0, dirty@, players@, valid, j as int, e as nat, EntitySyncAction::SendDelta),
                deletions@ == gone + planned_removals(e0, dirty@, nids@, players@, valid, j as int, e as nat),
            decreases n - e,
        {
            let entry = entities[e];
            let old_mask = entry.aware_players;
            let was_seen = old_mask & pm != 0;
            let should_be_seen = true;
            let new_mask = (old_mask & !pm) | if should_be_seen {
                pm
            } else {
                0
            };
            let action = entity_sync_action(was_seen, should_be_seen, dirty[e].is_some());
            match action {
                EntitySyncAction::Keep => {},
                EntitySyncAction::SendFull => {
                    insertions.push(e);
                },
                EntitySyncAction::SendDelta => {
                    deltas.push(e);
                },
                EntitySyncAction::SendRemoval => {
                    deletions.push(nids[e].0);
                },
            }
            entities.set(e, ServerToClientSyncableEntity { registry_id: entry.registry_id, aware_players: new_mask & valid });
            e = e + 1;
        }
        plans.push(PlayerSyncPlan { insertions, deltas, deletions });
        j = j + 1;
    }
    proof {
        assert(players@.take(players@.len() as int) =~= players@);
    }
    let mut k: usize = 0;
    while k < dirty.len()
        invariant
            k <= dirty@.len(),
            dirty@.len() == old(dirty)@.len(),
            forall|i: int| 0 <= i < k ==> #[trigger] dirty@[i] is None,
        decreases dirty@.len() - k,
    {
        dirty.set(k, None);
        k = k + 1;
    }
    despawned.clear();
    plans
}

/// Each slot of `locs` is set in their bitset.
proof fn lemma_slot_in_bits(locs: Seq<u32>, k: int)
    requires
        0 <= k < locs.len(),
        forall|m: int| 0 <= m < locs.len() ==> #[trigger] locs[m] < 64,
    ensures
        bit_set(slots_bits(locs), locs[k] as u64),
    decreases locs.len(),
{
    let last = locs.last();
    lemma_or_bit(slots_bits(locs.drop_last()), 1u64 << last, locs[k] as u64);
    lemma_single_bit(last as u64, locs[k] as u64);
    if k < locs.len() - 1 {
        lemma_slot_in_bits(locs.drop_last(), k);
    }
}

/// Each player's slot is set in the players' bitset.
proof fn lemma_player_in_bits(tags: Seq<PlayerHadFirstEntitySyncTag>, k: int)
    requires
        0 <= k < tags.len(),
        forall|m: int| 0 <= m < tags.len() ==> #[trigger] tags[m].loc() < 64,
    ensures
        bit_set(players_bits(tags), tags[k].loc() as u64),
    decreases tags.len(),
{
    let last = tags.last().loc();
    lemma_or_bit(players_bits(tags.drop_last()), 1u64 << last, tags[k].loc() as u64);
    lemma_single_bit(last as u64, tags[k].loc() as u64);
    if k < tags.len() - 1 {
        lemma_player_in_bits(tags.drop_last(), k);
    }
}

/// The slots handed to new players are pairwise distinct and free of the existing players.
pub proof fn lemma_allocated_slots_distinct(existing: u64, locs: Seq<u32>)
    requires
        forall|k: int| 0 <= k < locs.len() ==> is_lowest_free(existing | slots_bits(#[trigger] locs.take(k)), locs[k]),
    ensures
        forall|k: int| 0 <= k < locs.len() ==> !bit_set(existing, #[trigger] locs[k] as u64),
        forall|k1: int, k2: int| 0 <= k1 < k2 < locs.len() ==> locs[k1] != locs[k2],
{
    assert forall|k: int| 0 <= k < locs.len() implies !bit_set(existing, #[trigger] locs[k] as u64) by {
        assert(is_lowest_free(existing | slots_bits(locs.take(k)), locs[k]));
        lemma_or_bit(existing, slots_bits(locs.take(k)), locs[k] as u64);
    }
    assert forall|k1: int, k2: int| 0 <= k1 < k2 < locs.len() implies locs[k1] != locs[k2] by {
        let prefix = locs.take(k2);
        assert(is_lowest_free(existing | slots_bits(prefix), locs[k2]));
        assert forall|m: int| 0 <= m < prefix.len() implies #[trigger] prefix[m] < 64 by {
            assert(is_lowest_free(existing | slots_bits(locs.take(m)), locs[m]));
        }
        lemma_slot_in_bits(prefix, k1);
        lemma_or_bit(existing, slots_bits(prefix), locs[k1] as u64);
    }
}

/// After a sync round every connected player is aware of every live entity, and no player
/// outside the connected ones stays recorded as aware of it.
pub proof fn lemma_sync_round_informs_all(aware: u64, players: Seq<PlayerHadFirstEntitySyncTag>)
    requires
        players.len() > 0,
        forall|m: int| 0 <= m < players.len() ==> #[trigger] players[m].loc() < 64,
    ensures
        forall|k: int|
            0 <= k < players.len() ==> bit_set(
                aware_after_players(aware, players, players_bits(players)),
                #[trigger] players[k].loc() as u64,
            ),
        forall|i: u64|
            i < 64 && !bit_set(players_bits(players), i) ==> !bit_set(
                #[trigger] aware_after_players(aware, players, players_bits(players)),
                i,
            ),
{
    let valid = players_bits(players);
    assert forall|k: int| 0 <= k < players.len() implies #[trigger] bit_set(valid, players[k].loc() as u64) by {
        lemma_player_in_bits(players, k);
    }
    lemma_aware_after_prefix(aware, players, valid, players.len() as int);
    assert(players.take(players.len() as int) =~= players);
    assert forall|i: u64| i < 64 && !bit_set(valid, i) implies !bit_set(
        #[trigger] aware_after_players(aware, players, valid),
        i,
    ) by {
        let prev = aware_after_players(aware, players.drop_last(), valid);
        let pm = 1u64 << players.last().loc();
        lemma_and_bit((prev & !pm) | pm, valid, i);
    }
}

/// Once the first `j` players synced, each of them is aware of the entity, when all their slots
/// are in `valid`.
proof fn lemma_aware_after_prefix(aware: u64, players: Seq<PlayerHadFirstEntitySyncTag>, valid: u64, j: int)
    requires
        0 <= j <= players.len(),
        forall|m: int| 0 <= m < players.len() ==> #[trigger] players[m].loc() < 64,
        forall|m: int| 0 <= m < players.len() ==> #[trigger] bit_set(valid, players[m].loc() as u64),
    ensures
        forall|k: int| 0 <= k < j ==> bit_set(aware_after_players(aware, players.take(j), valid), #[trigger] players[k].loc() as u64),
    decreases j,
{
    if j > 0 {
        lemma_aware_after_prefix(aware, players, valid, j - 1);
        let pre = players.take(j);
        assert(pre.drop_last() =~= players.take(j - 1));
        assert(pre.last() == players[j - 1]);
        let prev = aware_after_players(aware, players.take(j - 1), valid);
        let last = players[j - 1].loc();
        let pm = 1u64 << last;
        assert forall|k: int| 0 <= k < j implies bit_set(
            aware_after_players(aware, pre, valid),
            #[trigger] players[k].loc() as u64,
        ) by {
            let i = players[k].loc() as u64;
            assert(bit_set(valid, i));
            lemma_single_bit(last as u64, i);
            lemma_not_bit(pm, i);
            lemma_and_bit(prev, !pm, i);
            lemma_or_bit(prev & !pm, pm, i);
            lemma_and_bit((prev & !pm) | pm, valid, i);
        }
    }
}

} // verus!
