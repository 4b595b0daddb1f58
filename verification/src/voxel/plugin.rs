//! Server-side voxel universe upkeep: which chunks to load around chunk loaders, and which
//! players need a fresh copy of which chunk.
use vstd::prelude::*;

use crate::coordinates::{in_chunk_coord, in_chunk_index, AbsBlockPos, AbsChunkPos, Direction};
use crate::entity::Entity;
use crate::voxel::chunk::{BlockEntry, Chunk};
use crate::voxel::chunk_map::ChunkMap;
use crate::promises::{deref_result, poll_step, AsyncResult};
use crate::voxel::persistence::{ChunkPersistenceLayer, ChunkProviderResult};

verus! {

/// The maximum number of stored chunk packets before applying stream backpressure.
pub const CHUNK_PACKET_QUEUE_LENGTH: usize = 20;

/// Radius of the chunk loader placed at the origin of a universe with persistent storage.
pub const CHUNK_LOAD_RADIUS: i32 = 6;

/// A tag marking voxel universes.
#[derive(Clone, Copy, Debug, PartialEq, Eq, Structural)]
pub struct VoxelUniverseTag;

/// Component for entities anchored in the voxel grid.
#[derive(Clone, Copy, Debug, PartialEq, Eq, Structural)]
pub struct VoxelPosition(pub AbsBlockPos);

impl VoxelPosition {
    /// Returns the chunk corresponding to the stored block position.
    pub fn chunk_pos(&self) -> (r: AbsChunkPos)
        ensures
            r == self.0.spec_chunk_pos(),
    {
        self.0.chunk_pos()
    }
}

/// Component that triggers chunk loading in a given radius around itself.
#[derive(Clone, Copy, Debug, PartialEq, Eq, Structural)]
pub struct ChunkLoader {
    /// The radius of the loading area, in chunk units.
    /// If zero or less, does not load anything.
    pub radius: i32,
}

/// A loaded chunk with its revision and the revision that each player was sent.
pub struct LoadedChunk {
    /// The blocks.
    pub chunk: Chunk,
    /// Bumped whenever the blocks change.
    pub revision: u64,
    /// The revision last sent to each player, each player at most once.
    pub player_held_revisions: Vec<(Entity, u64)>,
}

/// The chunk-storing part of a voxel universe.
pub struct VoxelUniverse {
    /// The currently loaded chunks.
    pub loaded_chunks: ChunkMap<LoadedChunk>,
}

/// Persistent storage for chunks, exists alongside [`VoxelUniverse`] on servers.
pub struct PersistentVoxelStorage<L: ChunkPersistenceLayer> {
    /// The layer that loads and saves chunks.
    pub persistence_layer: L,
    /// The positions requested from the layer and not answered yet.
    pub live_requests: ChunkMap<()>,
}

/// Strict lexicographic order of chunk positions by `x`, then `y`, then `z`.
pub open spec fn pos_lt(a: AbsChunkPos, b: AbsChunkPos) -> bool {
    a.x < b.x || (a.x == b.x && (a.y < b.y || (a.y == b.y && a.z < b.z)))
}

/// The positions are in strictly increasing order.
pub open spec fn strictly_sorted(s: Seq<AbsChunkPos>) -> bool {
    forall|i: int, j: int| 0 <= i < j < s.len() ==> pos_lt(#[trigger] s[i], #[trigger] s[j])
}

/// `p` lies in the cube of chunks within `r` of `center` along every axis.
pub open spec fn in_cube(p: AbsChunkPos, center: AbsChunkPos, r: int) -> bool {
    center.x - r <= p.x <= center.x + r && center.y - r <= p.y <= center.y + r && center.z - r <= p.z
        <= center.z + r
}

/// The loading cube of this loader has representable corners.
pub open spec fn loader_fits(l: (ChunkLoader, VoxelPosition)) -> bool {
    let c = l.1.0.spec_chunk_pos();
    l.0.radius <= 0 || (i32::MIN <= c.x - l.0.radius && c.x + l.0.radius <= i32::MAX && i32::MIN <= c.y
        - l.0.radius && c.y + l.0.radius <= i32::MAX && i32::MIN <= c.z - l.0.radius && c.z + l.0.radius
        <= i32::MAX)
}

/// Some loader with a positive radius covers `p`.
pub open spec fn wanted_by(loaders: Seq<(ChunkLoader, VoxelPosition)>, p: AbsChunkPos) -> bool {
    exists|i: int|
        0 <= i < loaders.len() && (#[trigger] loaders[i]).0.radius > 0 && in_cube(
            p,
            loaders[i].1.0.spec_chunk_pos(),
            loaders[i].0.radius as int,
        )
}

/// The positions that need a load request: wanted by a loader, neither loaded nor already
/// requested.
pub open spec fn needs_request(
    loaded: Set<AbsChunkPos>,
    live: Set<AbsChunkPos>,
    loaders: Seq<(ChunkLoader, VoxelPosition)>,
    p: AbsChunkPos,
) -> bool {
    wanted_by(loaders, p) && !loaded.contains(p) && !live.contains(p)
}

/// Whether `a` comes strictly before `b` in [`pos_lt`] order.
fn pos_less(a: &AbsChunkPos, b: &AbsChunkPos) -> (r: bool)
    ensures
        r == pos_lt(*a, *b),
{
    a.x < b.x || (a.x == b.x && (a.y < b.y || (a.y == b.y && a.z < b.z)))
}

/// Adds `p` to a strictly sorted vector, keeping it strictly sorted, when not present yet.
fn insert_sorted(v: &mut Vec<AbsChunkPos>, p: AbsChunkPos)
    requires
        strictly_sorted(old(v)@),
    ensures
        strictly_sorted(final(v)@),
        forall|q: AbsChunkPos| #[trigger] final(v)@.contains(q) <==> (old(v)@.contains(q) || q == p),
{
    let ghost s0 = v@;
    let mut i: usize = 0;
    while i < v.len() && pos_less(&v[i], &p)
        invariant
            v@ == s0,
            i <= v@.len(),
            forall|k: int| 0 <= k < i ==> pos_lt(#[trigger] v@[k], p),
        decreases v@.len() - i,
    {
        i = i + 1;
    }
    if i < v.len() && v[i] == p {
        proof {
            assert(s0[i as int] == p);
            assert(s0.contains(p));
        }
        return;
    }
    v.insert(i, p);
    proof {
        let s1 = v@;
        assert(s1 =~= s0.subrange(0, i as int).push(p) + s0.subrange(i as int, s0.len() as int));
        assert forall|a: int, b: int| 0 <= a < b < s1.len() implies pos_lt(#[trigger] s1[a], #[trigger] s1[b]) by {
            if b < i {
                assert(s1[a] == s0[a] && s1[b] == s0[b]);
            } else if b == i {
                assert(s1[a] == s0[a]);
            } else if a == i {
                assert(s1[b] == s0[b - 1]);
                assert(b - 1 >= i);
                if b - 1 > i {
                    assert(pos_lt(s0[i as int], s0[b - 1]));
                }
            } else if a < i {
                assert(s1[a] == s0[a] && s1[b] == s0[b - 1]);
                assert(pos_lt(s0[a], p));
            } else {
                assert(s1[a] == s0[a - 1] && s1[b] == s0[b - 1]);
            }
        }
        assert forall|q: AbsChunkPos| #[trigger] s1.contains(q) <==> (s0.contains(q) || q == p) by {
            if s1.contains(q) {
                let k = choose|k: int| 0 <= k < s1.len() && s1[k] == q;
                if k < i {
                    assert(s0[k] == q);
                } else if k > i {
                    assert(s0[k - 1] == q);
                }
            }
            if q == p {
                assert(s1[i as int] == p);
            } else if s0.contains(q) {
                let k = choose|k: int| 0 <= k < s0.len() && s0[k] == q;
                if k < i {
                    assert(s1[k] == q);
                } else {
                    assert(s1[k + 1] == q);
                }
            }
        }
    }
}

/// The chunk positions to request for loading: every position within the radius of some
/// loader with a positive radius that is neither loaded nor already requested, in increasing
/// order without repetitions.
pub fn chunks_to_request<V>(
    loaded: &ChunkMap<V>,
    live_requests: &ChunkMap<()>,
    loaders: &[(ChunkLoader, VoxelPosition)],
) -> (r: Vec<AbsChunkPos>)
    requires
        forall|i: int| 0 <= i < loaders@.len() ==> loader_fits(#[trigger] loaders@[i]),
    ensures
        strictly_sorted(r@),
        forall|p: AbsChunkPos|
            r@.contains(p) <==> #[trigger] needs_request(loaded@.dom(), live_requests@.dom(), loaders@, p),
{
    let ghost ls = loaders@;
    let ghost ld = loaded@.dom();
    let ghost lv = live_requests@.dom();
    let mut out: Vec<AbsChunkPos> = Vec::new();
    let mut li: usize = 0;
    while li < loaders.len()
        invariant
            li <= ls.len(),
            ls == loaders@,
            forall|i: int| 0 <= i < ls.len() ==> loader_fits(#[trigger] ls[i]),
            strictly_sorted(out@),
            forall|p: AbsChunkPos|
                out@.contains(p) <==> #[trigger] needs_request(ld, lv, ls.subrange(0, li as int), p),
            ld == loaded@.dom(),
            lv == live_requests@.dom(),
        decreases ls.len() - li,
    {
        let (loader, lpos) = loaders[li];
        let ghost prev = out@;
        let center = lpos.chunk_pos();
        if loader.radius > 0 {
            let r: i64 = loader.radius as i64;
            let mut x: i64 = center.x as i64 - r;
            while x <= center.x as i64 + r
                invariant
                    loader.radius == r,
                    r > 0,
                    loader_fits(ls[li as int]),
                    li < ls.len(),
                    ls[li as int] == (loader, lpos),
                    center == lpos.0.spec_chunk_pos(),
                    center.x - r <= x <= center.x + r + 1,
                    strictly_sorted(out@),
                    ld == loaded@.dom(),
                    lv == live_requests@.dom(),
                    forall|p: AbsChunkPos|
                        out@.contains(p) <==> (#[trigger] prev.contains(p) || (in_cube(p, center, r as int)
                            && p.x < x && !ld.contains(p) && !lv.contains(p))),
                decreases center.x + r + 1 - x,
            {
                let mut y: i64 = center.y as i64 - r;
                while y <= center.y as i64 + r
                    invariant
                        loader.radius == r,
                        r > 0,
                        loader_fits(ls[li as int]),
                        li < ls.len(),
                        ls[li as int] == (loader, lpos),
                        center == lpos.0.spec_chunk_pos(),
                        center.x - r <= x <= center.x + r,
                        center.y - r <= y <= center.y + r + 1,
                        strictly_sorted(out@),
                        ld == loaded@.dom(),
                        lv == live_requests@.dom(),
                        forall|p: AbsChunkPos|
                            out@.contains(p) <==> (#[trigger] prev.contains(p) || (in_cube(p, center, r as int)
                                && (p.x < x || (p.x == x && p.y < y)) && !ld.contains(p) && !lv.contains(p))),
                    decreases center.y + r + 1 - y,
                {
                    let mut z: i64 = center.z as i64 - r;
                    while z <= center.z as i64 + r
                        invariant
                            loader.radius == r,
                            r > 0,
                            loader_fits(ls[li as int]),
                            li < ls.len(),
                            ls[li as int] == (loader, lpos),
                            center == lpos.0.spec_chunk_pos(),
                            center.x - r <= x <= center.x + r,
                            center.y - r <= y <= center.y + r,
                            center.z - r <= z <= center.z + r + 1,
                            strictly_sorted(out@),
                            ld == loaded@.dom(),
                            lv == live_requests@.dom(),
                            forall|p: AbsChunkPos|
                                out@.contains(p) <==> (#[trigger] prev.contains(p) || (in_cube(p, center, r as int)
                                    && (p.x < x || (p.x == x && (p.y < y || (p.y == y && p.z < z))))
                                    && !ld.contains(p) && !lv.contains(p))),
                        decreases center.z + r + 1 - z,
                    {
                        proof {
                            assert(i32::MIN <= x <= i32::MAX);
                            assert(i32::MIN <= y <= i32::MAX);
                            assert(i32::MIN <= z <= i32::MAX);
                        }
                        let cpos = AbsChunkPos { x: x as i32, y: y as i32, z: z as i32 };
                        assert(cpos.x == x && cpos.y == y && cpos.z == z);
                        let ghost before = out@;
                        let absent = !loaded.contains_key(&cpos) && !live_requests.contains_key(&cpos);
                        if absent {
                            insert_sorted(&mut out, cpos);
                        }
                        proof {
                            assert(in_cube(cpos, center, r as int));
                            assert forall|p: AbsChunkPos|
                                out@.contains(p) <==> (#[trigger] prev.contains(p) || (in_cube(p, center, r as int)
                                    && (p.x < x || (p.x == x && (p.y < y || (p.y == y && p.z < z + 1))))
                                    && !ld.contains(p) && !lv.contains(p))) by {
                                assert(before.contains(p) <==> (prev.contains(p) || (in_cube(p, center, r as int)
                                    && (p.x < x || (p.x == x && (p.y < y || (p.y == y && p.z < z))))
                                    && !ld.contains(p) && !lv.contains(p))));
                                if absent {
                                    assert(out@.contains(p) <==> (before.contains(p) || p == cpos));
                                } else {
                                    assert(out@ == before);
                                    assert(ld.contains(cpos) || lv.contains(cpos));
                                }
                                if p.x == x && p.y == y && p.z == z {
                                    assert(p == cpos);
                                }
                            }
                        }
                        z = z + 1;
                    }
                    y = y + 1;
                }
                x = x + 1;
            }
            proof {
                assert forall|p: AbsChunkPos|
                    out@.contains(p) <==> (#[trigger] prev.contains(p) || (in_cube(p, center, loader.radius as int)
                        && !ld.contains(p) && !lv.contains(p))) by {
                    assert(out@.contains(p) <==> (prev.contains(p) || (in_cube(p, center, r as int) && p.x < x
                        && !ld.contains(p) && !lv.contains(p))));
                }
            }
        }
        proof {
            let s1 = ls.subrange(0, li + 1);
            let s0 = ls.subrange(0, li as int);
            assert forall|p: AbsChunkPos| out@.contains(p) <==> #[trigger] needs_request(ld, lv, s1, p) by {
                assert(prev.contains(p) <==> needs_request(ld, lv, s0, p));
                if loader.radius <= 0 {
                    assert(out@ == prev);
                } else {
                    assert(out@.contains(p) <==> (prev.contains(p) || (in_cube(p, center, loader.radius as int)
                        && !ld.contains(p) && !lv.contains(p))));
                }
                if wanted_by(s1, p) {
                    let i = choose|i: int|
                        0 <= i < s1.len() && (#[trigger] s1[i]).0.radius > 0 && in_cube(
                            p,
                            s1[i].1.0.spec_chunk_pos(),
                            s1[i].0.radius as int,
                        );
                    if i < li {
                        assert(s0[i] == s1[i]);
                        assert(wanted_by(s0, p));
                    }
                }
                if wanted_by(s0, p) {
                    let i = choose|i: int|
                        0 <= i < s0.len() && (#[trigger] s0[i]).0.radius > 0 && in_cube(
                            p,
                            s0[i].1.0.spec_chunk_pos(),
                            s0[i].0.radius as int,
                        );
                    assert(s1[i] == s0[i]);
                    assert(wanted_by(s1, p));
                }
                if loader.radius > 0 && in_cube(p, lpos.0.spec_chunk_pos(), loader.radius as int) {
                    assert(s1[li as int] == (loader, lpos));
                    assert(wanted_by(s1, p));
                }
            }
        }
        li = li + 1;
    }
    proof {
        assert(ls.subrange(0, ls.len() as int) =~= ls);
    }
    out
}

/// The state of the loaded chunks and pending requests after taking in `responses` in order:
/// each answered position stops being pending, and each successfully loaded chunk is stored
/// unless a chunk is already loaded there.
pub open spec fn after_responses(
    loaded: Set<AbsChunkPos>,
    live: Set<AbsChunkPos>,
    responses: Seq<ChunkProviderResult>,
) -> (Set<AbsChunkPos>, Set<AbsChunkPos>)
    decreases responses.len(),
{
    if responses.len() == 0 {
        (loaded, live)
    } else {
        let prev = after_responses(loaded, live, responses.drop_last());
        let r = responses.last();
        (if r.1 is Ok { prev.0.insert(r.0) } else { prev.0 }, prev.1.remove(r.0))
    }
}

impl VoxelUniverse {
    /// An empty universe.
    pub fn new() -> (r: VoxelUniverse)
        ensures
            r.loaded_chunks@ == Map::<AbsChunkPos, LoadedChunk>::empty(),
    {
        VoxelUniverse { loaded_chunks: ChunkMap::new() }
    }
}

impl<L: ChunkPersistenceLayer> PersistentVoxelStorage<L> {
    /// Storage backed by `persistence_layer`, with no pending requests.
    pub fn new(persistence_layer: L) -> (r: PersistentVoxelStorage<L>)
        ensures
            r.persistence_layer == persistence_layer,
            r.live_requests@ == Map::<AbsChunkPos, ()>::empty(),
    {
        PersistentVoxelStorage { persistence_layer, live_requests: ChunkMap::new() }
    }
}

/// Takes in load responses: each answered position stops being pending, and each successfully
/// loaded chunk is stored with revision zero and no player revisions, unless a chunk is already
/// loaded there, which is kept. Failed loads are dropped.
pub fn absorb_load_responses(
    universe: &mut VoxelUniverse,
    live_requests: &mut ChunkMap<()>,
    responses: Vec<ChunkProviderResult>,
)
    ensures
        (final(universe).loaded_chunks@.dom(), final(live_requests)@.dom()) == after_responses(
            old(universe).loaded_chunks@.dom(),
            old(live_requests)@.dom(),
            responses@,
        ),
        forall|p: AbsChunkPos|
            #[trigger] old(universe).loaded_chunks@.contains_key(p) ==> final(universe).loaded_chunks@[p]
                == old(universe).loaded_chunks@[p],
{
    let ghost r0 = responses@;
    let ghost l0 = universe.loaded_chunks@;
    let mut responses = responses;
    let n = responses.len();
    let mut i: usize = 0;
    while responses.len() > 0
        invariant
            n == r0.len(),
            responses@.len() + i == n,
            responses@ == r0.subrange(i as int, n as int),
            (universe.loaded_chunks@.dom(), live_requests@.dom()) == after_responses(
                l0.dom(),
                old(live_requests)@.dom(),
                r0.subrange(0, i as int),
            ),
            forall|p: AbsChunkPos|
                #[trigger] l0.contains_key(p) ==> universe.loaded_chunks@.contains_key(p)
                    && universe.loaded_chunks@[p] == l0[p],
        decreases responses@.len(),
    {
        let (pos, result) = responses.remove(0);
        proof {
            assert(r0.subrange(0, i + 1).drop_last() =~= r0.subrange(0, i as int));
            assert(r0[i as int] == (pos, result));
        }
        let _ = live_requests.remove(&pos);
        match result {
            Ok(chunk) => {
                let _ = universe.loaded_chunks.insert_if_absent(
                    pos,
                    LoadedChunk { chunk, revision: 0, player_held_revisions: Vec::new() },
                );
            },
            Err(_) => {},
        }
        proof {
            assert(universe.loaded_chunks@.dom() =~= after_responses(
                l0.dom(),
                old(live_requests)@.dom(),
                r0.subrange(0, i + 1),
            ).0);
            assert(live_requests@.dom() =~= after_responses(
                l0.dom(),
                old(live_requests)@.dom(),
                r0.subrange(0, i + 1),
            ).1);
        }
        i = i + 1;
    }
    proof {
        assert(r0.subrange(0, n as int) =~= r0);
    }
}

/// A chunk loading round that took in responses leading to `mid`: the
/// loaded chunks are those of `mid`, exactly the positions that need a request after the
/// responses were requested, and they were added to the pending requests.
pub open spec fn loading_round(
    mid: (Set<AbsChunkPos>, Set<AbsChunkPos>),
    loaders: Seq<(ChunkLoader, VoxelPosition)>,
    requested: Seq<AbsChunkPos>,
    final_loaded: Set<AbsChunkPos>,
    final_live: Set<AbsChunkPos>,
) -> bool {
    &&& final_loaded == mid.0
    &&& forall|p: AbsChunkPos| #[trigger] requested.contains(p) <==> needs_request(mid.0, mid.1, loaders, p)
    &&& final_live == mid.1 + requested.to_set()
}

/// One round of chunk loading: takes in every response the persistence layer has ready, then
/// asks the layer to load every chunk around the loaders that is neither loaded nor pending, and records those
/// requests as pending. Returns the positions requested, in increasing order.
pub fn server_system_process_chunk_loading<L: ChunkPersistenceLayer>(
    universe: &mut VoxelUniverse,
    persistence: &mut PersistentVoxelStorage<L>,
    loaders: &[(ChunkLoader, VoxelPosition)],
) -> (requested: Vec<AbsChunkPos>)
    requires
        forall|i: int| 0 <= i < loaders@.len() ==> loader_fits(#[trigger] loaders@[i]),
    ensures
        strictly_sorted(requested@),
        forall|p: AbsChunkPos|
            #[trigger] requested@.contains(p) ==> !final(universe).loaded_chunks@.contains_key(p)
                && wanted_by(loaders@, p),
        forall|p: AbsChunkPos| #[trigger] requested@.contains(p) ==> final(persistence).live_requests@.contains_key(p),
        forall|p: AbsChunkPos|
            #[trigger] final(persistence).live_requests@.contains_key(p) ==> (requested@.contains(p) || old(
                persistence,
            ).live_requests@.contains_key(p)),
        forall|p: AbsChunkPos|
            wanted_by(loaders@, p) ==> (#[trigger] final(universe).loaded_chunks@.contains_key(p)
                || final(persistence).live_requests@.contains_key(p)),
        forall|p: AbsChunkPos|
            #[trigger] old(universe).loaded_chunks@.contains_key(p) ==> final(universe).loaded_chunks@.contains_key(
                p,
            ) && final(universe).loaded_chunks@[p] == old(universe).loaded_chunks@[p],
        exists|rs: Seq<ChunkProviderResult>, mid: L|
            #![trigger L::dequeues(&old(persistence).persistence_layer, &mid, usize::MAX, rs)]
            L::dequeues(&old(persistence).persistence_layer, &mid, usize::MAX, rs)
                && L::requests_loads(&mid, &final(persistence).persistence_layer, requested@)
                && loading_round(
                after_responses(old(universe).loaded_chunks@.dom(), old(persistence).live_requests@.dom(), rs),
                loaders@,
                requested@,
                final(universe).loaded_chunks@.dom(),
                final(persistence).live_requests@.dom(),
            ),
{
    let responses = persistence.persistence_layer.try_dequeue_responses(usize::MAX);
    let ghost rs = responses@;
    let ghost mid_layer = persistence.persistence_layer;
    absorb_load_responses(universe, &mut persistence.live_requests, responses);
    let ghost live_mid = persistence.live_requests@;
    let to_request = chunks_to_request(&universe.loaded_chunks, &persistence.live_requests, loaders);
    persistence.persistence_layer.request_load(to_request.as_slice());
    let ghost requested_layer = persistence.persistence_layer;
    proof {
        assert(L::requests_loads(&mid_layer, &requested_layer, to_request@));
    }
    let mut i: usize = 0;
    while i < to_request.len()
        invariant
            i <= to_request@.len(),
            persistence.persistence_layer == requested_layer,
            forall|p: AbsChunkPos|
                #[trigger] persistence.live_requests@.contains_key(p) <==> (live_mid.contains_key(p)
                    || to_request@.subrange(0, i as int).contains(p)),
        decreases to_request@.len() - i,
    {
        persistence.live_requests.insert(to_request[i], ());
        proof {
            assert forall|p: AbsChunkPos|
                #[trigger] persistence.live_requests@.contains_key(p) <==> (live_mid.contains_key(p)
                    || to_request@.subrange(0, i + 1).contains(p)) by {
                if to_request@.subrange(0, i as int).contains(p) {
                    let k = choose|k: int| 0 <= k < i && #[trigger] to_request@.subrange(0, i as int)[k] == p;
                    assert(to_request@.subrange(0, i + 1)[k] == p);
                }
                if to_request@.subrange(0, i + 1).contains(p) {
                    let k = choose|k: int| 0 <= k < i + 1 && #[trigger] to_request@.subrange(0, i + 1)[k] == p;
                    if k < i {
                        assert(to_request@.subrange(0, i as int)[k] == p);
                    }
                }
                if p == to_request@[i as int] {
                    assert(to_request@.subrange(0, i + 1)[i as int] == p);
                }
            }
        }
        i = i + 1;
    }
    proof {
        assert(to_request@.subrange(0, to_request@.len() as int) =~= to_request@);
        let ld = universe.loaded_chunks@.dom();
        let lv = live_mid.dom();
        let mid = after_responses(old(universe).loaded_chunks@.dom(), old(persistence).live_requests@.dom(), rs);
        assert(mid.0 == ld && mid.1 == lv);
        assert(persistence.live_requests@.dom() =~= lv + to_request@.to_set());
        assert(L::dequeues(&old(persistence).persistence_layer, &mid_layer, usize::MAX, rs));
        assert(L::requests_loads(&mid_layer, &persistence.persistence_layer, to_request@));
        assert(loading_round(
            mid,
            loaders@,
            to_request@,
            ld,
            persistence.live_requests@.dom(),
        ));
        lemma_after_responses_shrinks_live(old(universe).loaded_chunks@.dom(), old(persistence).live_requests@.dom(), responses@);
        assert forall|p: AbsChunkPos| #[trigger] to_request@.contains(p) implies !universe.loaded_chunks@.contains_key(p)
            && wanted_by(loaders@, p) by {
            assert(needs_request(ld, lv, loaders@, p));
        }
        assert forall|p: AbsChunkPos| wanted_by(loaders@, p) implies (#[trigger] universe.loaded_chunks@.contains_key(p)
            || persistence.live_requests@.contains_key(p)) by {
            if !ld.contains(p) && !lv.contains(p) {
                assert(needs_request(ld, lv, loaders@, p));
            }
        }
    }
    to_request
}

proof fn lemma_after_responses_shrinks_live(
    loaded: Set<AbsChunkPos>,
    live: Set<AbsChunkPos>,
    responses: Seq<ChunkProviderResult>,
)
    ensures
        after_responses(loaded, live, responses).1.subset_of(live),
        loaded.subset_of(after_responses(loaded, live, responses).0),
    decreases responses.len(),
{
    if responses.len() > 0 {
        lemma_after_responses_shrinks_live(loaded, live, responses.drop_last());
    }
}

/// The revision that `held` records for player `e`, if any (the first entry for `e`).
pub open spec fn held_revision(held: Seq<(Entity, u64)>, e: Entity) -> Option<u64>
    decreases held.len(),
{
    if held.len() == 0 {
        None
    } else if held[0].0 == e {
        Some(held[0].1)
    } else {
        held_revision(held.subrange(1, held.len() as int), e)
    }
}

/// Player `e` lacks the chunk at revision `rev`: it was never sent, or an older revision was.
pub open spec fn is_outdated(held: Seq<(Entity, u64)>, rev: u64, e: Entity) -> bool {
    match held_revision(held, e) {
        None => true,
        Some(v) => v < rev,
    }
}

/// The connected players that must be sent the chunk, in the order of `connected`.
pub open spec fn players_to_send(held: Seq<(Entity, u64)>, rev: u64, connected: Seq<Entity>) -> Seq<Entity>
    decreases connected.len(),
{
    if connected.len() == 0 {
        Seq::empty()
    } else {
        let prev = players_to_send(held, rev, connected.drop_last());
        if is_outdated(held, rev, connected.last()) {
            prev.push(connected.last())
        } else {
            prev
        }
    }
}

/// The held revisions after a refresh: one entry per connected player, in the order of
/// `connected`, recording `rev` for outdated players and the held revision for the others.
pub open spec fn refreshed_revisions(held: Seq<(Entity, u64)>, rev: u64, connected: Seq<Entity>) -> Seq<
    (Entity, u64),
> {
    Seq::new(
        connected.len(),
        |i: int|
            (connected[i], if is_outdated(held, rev, connected[i]) {
                rev
            } else {
                held_revision(held, connected[i]).unwrap()
            }),
    )
}

/// The revision that `held` records for player `e`, if any.
fn find_held(held: &Vec<(Entity, u64)>, e: Entity) -> (r: Option<u64>)
    ensures
        r == held_revision(held@, e),
{
    let ghost s = held@;
    let mut i: usize = 0;
    proof {
        assert(s.subrange(0, s.len() as int) =~= s);
    }
    while i < held.len()
        invariant
            s == held@,
            i <= s.len(),
            held_revision(s, e) == held_revision(s.subrange(i as int, s.len() as int), e),
        decreases s.len() - i,
    {
        let ghost rest = s.subrange(i as int, s.len() as int);
        proof {
            assert(rest.subrange(1, rest.len() as int) =~= s.subrange(i + 1, s.len() as int));
        }
        if held[i].0 == e {
            return Some(held[i].1);
        }
        i = i + 1;
    }
    None
}

/// Forgets the revisions held by players that are no longer connected, and brings every
/// connected player that lacks the chunk at revision `rev` up to date; returns those players,
/// who must be sent the chunk, in the order of `connected`.
pub fn refresh_player_revisions(held: &mut Vec<(Entity, u64)>, rev: u64, connected: &[Entity]) -> (send: Vec<
    Entity,
>)
    ensures
        send@ == players_to_send(old(held)@, rev, connected@),
        final(held)@ == refreshed_revisions(old(held)@, rev, connected@),
{
    let ghost h0 = held@;
    let mut out: Vec<(Entity, u64)> = Vec::new();
    let mut send: Vec<Entity> = Vec::new();
    let mut i: usize = 0;
    while i < connected.len()
        invariant
            i <= connected@.len(),
            send@ == players_to_send(h0, rev, connected@.subrange(0, i as int)),
            out@ == refreshed_revisions(h0, rev, connected@.subrange(0, i as int)),
            held@ == h0,
        decreases connected@.len() - i,
    {
        let pid = connected[i];
        proof {
            assert(connected@.subrange(0, i + 1).drop_last() =~= connected@.subrange(0, i as int));
        }
        let ghost o = out@;
        match find_held(held, pid) {
            Some(v) => {
                if v < rev {
                    send.push(pid);
                    out.push((pid, rev));
                } else {
                    out.push((pid, v));
                }
            },
            None => {
                send.push(pid);
                out.push((pid, rev));
            },
        }
        proof {
            assert(out@ =~= refreshed_revisions(h0, rev, connected@.subrange(0, i + 1)));
        }
        i = i + 1;
    }
    proof {
        assert(connected@.subrange(0, connected@.len() as int) =~= connected@);
    }
    *held = out;
    send
}

/// For every loaded chunk, refreshes the revisions held by the connected players and collects the
/// players that must be sent the chunk; returns the chunks with a non-empty list of such players.
/// Blocks and revisions of the chunks are left as they are.
pub fn server_system_process_chunk_sending(universe: &mut VoxelUniverse, connected: &[Entity]) -> (r: Vec<
    (AbsChunkPos, Vec<Entity>),
>)
    ensures
        final(universe).loaded_chunks@.dom() == old(universe).loaded_chunks@.dom(),
        forall|p: AbsChunkPos|
            #[trigger] old(universe).loaded_chunks@.contains_key(p) ==> ({
                let before = old(universe).loaded_chunks@[p];
                let after = final(universe).loaded_chunks@[p];
                &&& after.chunk == before.chunk
                &&& after.revision == before.revision
                &&& after.player_held_revisions@ == refreshed_revisions(
                    before.player_held_revisions@,
                    before.revision,
                    connected@,
                )
            }),
        forall|i: int|
            0 <= i < r@.len() ==> ({
                let (p, sends) = #[trigger] r@[i];
                &&& old(universe).loaded_chunks@.contains_key(p)
                &&& sends@.len() > 0
                &&& sends@ == players_to_send(
                    old(universe).loaded_chunks@[p].player_held_revisions@,
                    old(universe).loaded_chunks@[p].revision,
                    connected@,
                )
            }),
        forall|p: AbsChunkPos|
            #[trigger] old(universe).loaded_chunks@.contains_key(p) && players_to_send(
                old(universe).loaded_chunks@[p].player_held_revisions@,
                old(universe).loaded_chunks@[p].revision,
                connected@,
            ).len() > 0 ==> exists|i: int| 0 <= i < r@.len() && (#[trigger] r@[i]).0 == p,
        forall|a: int, b: int| 0 <= a < b < r@.len() ==> (#[trigger] r@[a]).0 != (#[trigger] r@[b]).0,
{
    let ghost m0 = universe.loaded_chunks@;
    let positions = universe.loaded_chunks.keys();
    let mut out: Vec<(AbsChunkPos, Vec<Entity>)> = Vec::new();
    let mut i: usize = 0;
    while i < positions.len()
        invariant
            i <= positions@.len(),
            positions@.no_duplicates(),
            forall|p: AbsChunkPos| #[trigger] positions@.contains(p) <==> m0.contains_key(p),
            universe.loaded_chunks@.dom() == m0.dom(),
            forall|p: AbsChunkPos|
                #[trigger] m0.contains_key(p) ==> ({
                    let before = m0[p];
                    let now = universe.loaded_chunks@[p];
                    let done = positions@.subrange(0, i as int).contains(p);
                    &&& now.chunk == before.chunk
                    &&& now.revision == before.revision
                    &&& done ==> now.player_held_revisions@ == refreshed_revisions(
                        before.player_held_revisions@,
                        before.revision,
                        connected@,
                    )
                    &&& !done ==> now.player_held_revisions == before.player_held_revisions
                }),
            forall|k: int|
                0 <= k < out@.len() ==> ({
                    let (p, sends) = #[trigger] out@[k];
                    &&& m0.contains_key(p)
                    &&& sends@.len() > 0
                    &&& sends@ == players_to_send(m0[p].player_held_revisions@, m0[p].revision, connected@)
                }),
            forall|j: int|
                0 <= j < i && players_to_send(
                    m0[positions@[j]].player_held_revisions@,
                    m0[positions@[j]].revision,
                    connected@,
                ).len() > 0 ==> exists|k: int| 0 <= k < out@.len() && (#[trigger] out@[k]).0 == positions@[j],
            forall|k: int| 0 <= k < out@.len() ==> positions@.subrange(0, i as int).contains(#[trigger] out@[k].0),
            forall|a: int, b: int| 0 <= a < b < out@.len() ==> (#[trigger] out@[a]).0 != (#[trigger] out@[b]).0,
        decreases positions@.len() - i,
    {
        let pos = positions[i];
        proof {
            assert(positions@.contains(pos));
        }
        let ghost before_map = universe.loaded_chunks@;
        let taken = universe.loaded_chunks.remove(&pos);
        match taken {
            Some(mut loaded) => {
                let rev = loaded.revision;
                let send = refresh_player_revisions(&mut loaded.player_held_revisions, rev, connected);
                universe.loaded_chunks.insert(pos, loaded);
                let ghost out_before = out@;
                if send.len() > 0 {
                    out.push((pos, send));
                }
                proof {
                    assert(!positions@.subrange(0, i as int).contains(pos)) by {
                        if positions@.subrange(0, i as int).contains(pos) {
                            let k = choose|k: int| 0 <= k < i && #[trigger] positions@.subrange(0, i as int)[k] == pos;
                            assert(positions@[k] == positions@[i as int]);
                        }
                    }
                    assert forall|k: int| 0 <= k < out@.len() implies positions@.subrange(0, i + 1).contains(
                        #[trigger] out@[k].0,
                    ) by {
                        if k < out_before.len() {
                            assert(out@[k] == out_before[k]);
                            let q = out_before[k].0;
                            let m = choose|m: int| 0 <= m < i && #[trigger] positions@.subrange(0, i as int)[m] == q;
                            assert(positions@.subrange(0, i + 1)[m] == q);
                        } else {
                            assert(positions@.subrange(0, i + 1)[i as int] == pos);
                        }
                    }
                    assert forall|a: int, b: int| 0 <= a < b < out@.len() implies (#[trigger] out@[a]).0 != (
                    #[trigger] out@[b]).0 by {
                        if b >= out_before.len() {
                            assert(out@[a] == out_before[a]);
                            assert(positions@.subrange(0, i as int).contains(out_before[a].0));
                        } else {
                            assert(out@[a] == out_before[a]);
                            assert(out@[b] == out_before[b]);
                        }
                    }
                }
                proof {
                    assert(universe.loaded_chunks@ =~= before_map.insert(pos, loaded));
                    assert forall|p: AbsChunkPos| #[trigger] m0.contains_key(p) implies ({
                        let before = m0[p];
                        let now = universe.loaded_chunks@[p];
                        let done = positions@.subrange(0, i + 1).contains(p);
                        &&& now.chunk == before.chunk
                        &&& now.revision == before.revision
                        &&& done ==> now.player_held_revisions@ == refreshed_revisions(
                            before.player_held_revisions@,
                            before.revision,
                            connected@,
                        )
                        &&& !done ==> now.player_held_revisions == before.player_held_revisions
                    }) by {
                        let was_done = positions@.subrange(0, i as int).contains(p);
                        if positions@.subrange(0, i + 1).contains(p) && p != pos {
                            let k = choose|k: int| 0 <= k < i + 1 && #[trigger] positions@.subrange(0, i + 1)[k] == p;
                            assert(positions@.subrange(0, i as int)[k] == p);
                        }
                        if was_done {
                            let k = choose|k: int| 0 <= k < i && #[trigger] positions@.subrange(0, i as int)[k] == p;
                            assert(positions@.subrange(0, i + 1)[k] == p);
                            if p == pos {
                                assert(positions@[k] == positions@[i as int]);
                            }
                        }
                        if p == pos {
                            assert(positions@.subrange(0, i + 1)[i as int] == p);
                            assert(!was_done);
                        }
                    }
                    assert forall|j: int|
                        0 <= j < i + 1 && players_to_send(
                            m0[positions@[j]].player_held_revisions@,
                            m0[positions@[j]].revision,
                            connected@,
                        ).len() > 0 implies exists|k: int| 0 <= k < out@.len() && (#[trigger] out@[k]).0 == positions@[j] by {
                        if j < i {
                            let k = choose|k: int| 0 <= k < out_before.len() && (#[trigger] out_before[k]).0 == positions@[j];
                            assert(out@[k] == out_before[k]);
                        } else {
                            assert(positions@[j] == pos);
                            assert(m0.contains_key(pos));
                            assert(!positions@.subrange(0, i as int).contains(pos)) by {
                                if positions@.subrange(0, i as int).contains(pos) {
                                    let k = choose|k: int| 0 <= k < i && #[trigger] positions@.subrange(0, i as int)[k] == pos;
                                    assert(positions@[k] == positions@[i as int]);
                                }
                            }
                            assert(out@[out@.len() - 1].0 == pos);
                        }
                    }
                }
            },
            None => {
                assert(false);
            },
        }
        i = i + 1;
    }
    proof {
        assert(positions@.subrange(0, positions@.len() as int) =~= positions@);
        assert forall|p: AbsChunkPos|
            #[trigger] m0.contains_key(p) && players_to_send(m0[p].player_held_revisions@, m0[p].revision, connected@).len()
                > 0 implies exists|k: int| 0 <= k < out@.len() && (#[trigger] out@[k]).0 == p by {
            assert(positions@.contains(p));
            let j = choose|j: int| 0 <= j < positions@.len() && positions@[j] == p;
        }
    }
    out
}

proof fn lemma_held_revision_at_least(s: Seq<(Entity, u64)>, e: Entity, rev: u64, i: int)
    requires
        0 <= i < s.len(),
        s[i].0 == e,
        forall|j: int| 0 <= j < s.len() && s[j].0 == e ==> #[trigger] s[j].1 >= rev,
    ensures
        held_revision(s, e) matches Some(v) && v >= rev,
    decreases s.len(),
{
    if s[0].0 != e {
        let t = s.subrange(1, s.len() as int);
        assert forall|j: int| 0 <= j < t.len() && t[j].0 == e implies #[trigger] t[j].1 >= rev by {
            assert(t[j] == s[j + 1]);
        }
        lemma_held_revision_at_least(t, e, rev, i - 1);
    }
}

/// Once the revisions are refreshed for a set of connected players, refreshing again at the same
/// chunk revision sends the chunk to nobody.
pub proof fn lemma_refresh_is_idempotent(held: Seq<(Entity, u64)>, rev: u64, connected: Seq<Entity>)
    ensures
        players_to_send(refreshed_revisions(held, rev, connected), rev, connected) == Seq::<Entity>::empty(),
    decreases connected.len(),
{
    let r = refreshed_revisions(held, rev, connected);
    assert forall|k: int| 0 <= k < connected.len() implies !is_outdated(r, rev, #[trigger] connected[k]) by {
        assert forall|j: int| 0 <= j < r.len() && r[j].0 == connected[k] implies #[trigger] r[j].1 >= rev by {}
        lemma_held_revision_at_least(r, connected[k], rev, k);
    }
    lemma_no_outdated_sends_nothing(r, rev, connected);
}

proof fn lemma_no_outdated_sends_nothing(held: Seq<(Entity, u64)>, rev: u64, connected: Seq<Entity>)
    requires
        forall|k: int| 0 <= k < connected.len() ==> !is_outdated(held, rev, #[trigger] connected[k]),
    ensures
        players_to_send(held, rev, connected) == Seq::<Entity>::empty(),
    decreases connected.len(),
{
    if connected.len() > 0 {
        let init = connected.drop_last();
        assert forall|k: int| 0 <= k < init.len() implies !is_outdated(held, rev, #[trigger] init[k]) by {
            assert(init[k] == connected[k]);
        }
        lemma_no_outdated_sends_nothing(held, rev, init);
        assert(!is_outdated(held, rev, connected[connected.len() - 1]));
    }
}

/// What a player's block action does.
#[derive(Clone, Copy, Debug, PartialEq, Eq, Structural)]
pub enum BlockActionKind {
    /// Places a block against the hit face.
    PlaceBlock,
    /// Breaks the hit block.
    BreakBlock,
}

/// The block a player's action changes: the hit block itself when breaking, its neighbour
/// across the hit face when placing.
pub open spec fn action_target(hit: AbsBlockPos, face: Direction, action: BlockActionKind) -> AbsBlockPos {
    if action == BlockActionKind::PlaceBlock {
        AbsBlockPos {
            x: (hit.x + face.unit().0) as i32,
            y: (hit.y + face.unit().1) as i32,
            z: (hit.z + face.unit().2) as i32,
        }
    } else {
        hit
    }
}

/// Breaking changes the hit block; placing changes the neighbour across the hit face, one step
/// along that face's axis in its direction, and never the hit block itself.
pub proof fn lemma_action_target_by_face(hit: AbsBlockPos, face: Direction)
    requires
        hit.offset_fits(face, 1),
    ensures
        action_target(hit, face, BlockActionKind::BreakBlock) == hit,
        action_target(hit, face, BlockActionKind::PlaceBlock) != hit,
        ({
            let t = action_target(hit, face, BlockActionKind::PlaceBlock);
            match face {
                Direction::XMinus => t.x == hit.x - 1 && t.y == hit.y && t.z == hit.z,
                Direction::XPlus => t.x == hit.x + 1 && t.y == hit.y && t.z == hit.z,
                Direction::YMinus => t.x == hit.x && t.y == hit.y - 1 && t.z == hit.z,
                Direction::YPlus => t.x == hit.x && t.y == hit.y + 1 && t.z == hit.z,
                Direction::ZMinus => t.x == hit.x && t.y == hit.y && t.z == hit.z - 1,
                Direction::ZPlus => t.x == hit.x && t.y == hit.y && t.z == hit.z + 1,
            }
        }),
{
}

/// The block a player's action changes: the hit block itself when breaking, its neighbour
/// across the hit face when placing.
pub fn block_action_target(hit: AbsBlockPos, face: Direction, action: BlockActionKind) -> (r: AbsBlockPos)
    requires
        action == BlockActionKind::PlaceBlock ==> hit.offset_fits(face, 1),
    ensures
        action == BlockActionKind::BreakBlock ==> r == hit,
        action == BlockActionKind::PlaceBlock ==> r == (AbsBlockPos {
            x: (hit.x + face.unit().0) as i32,
            y: (hit.y + face.unit().1) as i32,
            z: (hit.z + face.unit().2) as i32,
        }),
{
    match action {
        BlockActionKind::PlaceBlock => hit.direction_offset(face, 1),
        BlockActionKind::BreakBlock => hit,
    }
}

/// The universe after writing `block` at `target`: when the target's chunk is loaded (and holds
/// a full set of blocks), that block changes and the chunk's revision is bumped; nothing else
/// changes.
pub open spec fn block_written(
    before: Map<AbsChunkPos, LoadedChunk>,
    after: Map<AbsChunkPos, LoadedChunk>,
    target: AbsBlockPos,
    block: BlockEntry,
) -> bool {
    let cpos = target.spec_chunk_pos();
    let (lx, ly, lz) = (
        in_chunk_coord(target.x as int),
        in_chunk_coord(target.y as int),
        in_chunk_coord(target.z as int),
    );
    if before.contains_key(cpos) && before[cpos].chunk.wf() {
        &&& after.dom() == before.dom()
        &&& forall|p: AbsChunkPos| #[trigger] after.contains_key(p) && p != cpos ==> after[p] == before[p]
        &&& after[cpos].chunk.wf()
        &&& after[cpos].chunk@ == before[cpos].chunk@.update(in_chunk_index(lx, ly, lz), block)
        &&& after[cpos].revision == if before[cpos].revision < u64::MAX {
            before[cpos].revision + 1
        } else {
            0
        }
        &&& after[cpos].player_held_revisions@ == before[cpos].player_held_revisions@
    } else {
        after == before
    }
}

/// Writes `block` at `target` when its chunk is loaded, bumping the chunk's revision; returns
/// the chunk's position and a copy of its blocks, to be saved, or `None` when nothing changed.
pub fn set_loaded_block(universe: &mut VoxelUniverse, target: AbsBlockPos, block: BlockEntry) -> (r: Option<(AbsChunkPos, Chunk)>)
    ensures
        block_written(old(universe).loaded_chunks@, final(universe).loaded_chunks@, target, block),
        r is Some <==> (old(universe).loaded_chunks@.contains_key(target.spec_chunk_pos())
            && old(universe).loaded_chunks@[target.spec_chunk_pos()].chunk.wf()),
        r matches Some(saved) ==> saved.0 == target.spec_chunk_pos()
            && saved.1@ == final(universe).loaded_chunks@[target.spec_chunk_pos()].chunk@,
{
    let (cpos, local) = target.split_chunk_component();
    let entry = universe.loaded_chunks.remove(&cpos);
    match entry {
        None => {
            proof {
                assert(!old(universe).loaded_chunks@.contains_key(target.spec_chunk_pos()));
                assert(universe.loaded_chunks@ =~= old(universe).loaded_chunks@);
            }
            None
        },
        Some(loaded) => {
            if !loaded.chunk.is_complete() {
                universe.loaded_chunks.insert(cpos, loaded);
                proof {
                    assert(universe.loaded_chunks@ =~= old(universe).loaded_chunks@);
                }
                return None;
            }
            let LoadedChunk { chunk, revision, player_held_revisions } = loaded;
            let mut chunk = chunk;
            let ghost before = chunk@;
            chunk.put(local, block);
            let saved = chunk.duplicate();
            let updated = LoadedChunk { chunk, revision: revision.wrapping_add(1), player_held_revisions };
            universe.loaded_chunks.insert(cpos, updated);
            proof {
                assert(universe.loaded_chunks@.dom() =~= old(universe).loaded_chunks@.dom());
            }
            Some((cpos, saved))
        },
    }
}

/// Performs a player's block action on the block hit at `hit` through face `face`: places a
/// `stone` block against the face or breaks the hit block into `empty`, when the target's chunk
/// is loaded, and asks `persistence` (when the universe has persistent storage) to save the
/// changed chunk. Returns whether a block changed.
pub fn perform_block_action<L: ChunkPersistenceLayer>(
    universe: &mut VoxelUniverse,
    persistence: Option<&mut L>,
    hit: AbsBlockPos,
    face: Direction,
    action: BlockActionKind,
    stone: u32,
    empty: u32,
) -> (r: bool)
    requires
        action == BlockActionKind::PlaceBlock ==> hit.offset_fits(face, 1),
    ensures
        ({
            let target = action_target(hit, face, action);
            let block = BlockEntry {
                id: if action == BlockActionKind::PlaceBlock {
                    stone
                } else {
                    empty
                },
                metadata: 0,
            };
            &&& block_written(old(universe).loaded_chunks@, final(universe).loaded_chunks@, target, block)
            &&& r == (old(universe).loaded_chunks@.contains_key(target.spec_chunk_pos())
                && old(universe).loaded_chunks@[target.spec_chunk_pos()].chunk.wf())
        }),
        persistence matches Some(layer) ==> {
            let cpos = action_target(hit, face, action).spec_chunk_pos();
            &&& r ==> exists|saved: Chunk|
                #[trigger] L::requests_saves(&*layer, &*final(layer), seq![(cpos, saved)])
                    && saved@ == final(universe).loaded_chunks@[cpos].chunk@
            &&& !r ==> *final(layer) == *layer
        },
{
    let target = block_action_target(hit, face, action);
    let block = match action {
        BlockActionKind::PlaceBlock => BlockEntry::new(stone, 0),
        BlockActionKind::BreakBlock => BlockEntry::new(empty, 0),
    };
    match set_loaded_block(universe, target, block) {
        Some((cpos, chunk)) => {
            match persistence {
                Some(layer) => {
                    let ghost saved = chunk;
                    let mut saves: Vec<(AbsChunkPos, Chunk)> = Vec::new();
                    saves.push((cpos, chunk));
                    proof {
                        assert(saves@ =~= seq![(cpos, saved)]);
                    }
                    layer.request_save(saves);
                },
                None => {},
            }
            true
        },
        None => false,
    }
}

/// What to do for a connected player that has no chunk stream yet.
pub enum ChunkStreamStep<S> {
    /// Ask the network thread for a new stream, and wait for it.
    RequestStream,
    /// The stream is not open yet: keep waiting.
    KeepWaiting,
    /// The stream is open: the player gets it and stops waiting.
    Ready(S),
    /// Opening the stream failed: report it; the player keeps waiting.
    Failed,
}

/// The next step towards a player's chunk stream, polling its pending request `awaiting` if
/// there is one (the request stays pending until the stream is handed over).
pub fn chunk_stream_step<S: Clone>(awaiting: &mut Option<AsyncResult<S>>) -> (r: ChunkStreamStep<S>)
    ensures
        *old(awaiting) is None ==> r is RequestStream && *final(awaiting) is None,
        *old(awaiting) matches Some(a) ==> exists|out: Option<Result<S, anyhow::Error>>, b: AsyncResult<S>|
            #[trigger] poll_step(a, b, out) && *final(awaiting) == Some(b) && match out {
                None => r is KeepWaiting,
                Some(Ok(s)) => r matches ChunkStreamStep::Ready(t) && cloned::<S>(s, t),
                Some(Err(_)) => r is Failed,
            },
{
    match awaiting.take() {
        None => ChunkStreamStep::RequestStream,
        Some(result) => {
            let mut result = result;
            let ghost before = result;
            let polled = result.poll();
            let ghost out = deref_result(polled);
            let r = match polled {
                None => ChunkStreamStep::KeepWaiting,
                Some(Ok(stream)) => ChunkStreamStep::Ready(stream.clone()),
                Some(Err(_)) => ChunkStreamStep::Failed,
            };
            let ghost after = result;
            *awaiting = Some(result);
            proof {
                assert(poll_step(before, after, out));
            }
            r
        },
    }
}

} // verus!
