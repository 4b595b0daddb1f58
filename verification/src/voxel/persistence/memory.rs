//! In-memory chunk persistence layer for testing purposes.
use std::collections::VecDeque;

use vstd::prelude::*;

use crate::coordinates::AbsChunkPos;
use crate::voxel::chunk::{BlockEntry, Chunk};
use crate::voxel::chunk_map::ChunkMap;
use crate::voxel::persistence::{drain_front_into, ChunkPersistenceLayer, ChunkPersistenceLayerStats, ChunkProviderResult};

verus! {

/// Synchronous, in-memory persistence layer.
/// Missing chunks are generated from an underlying provider, they are only cached in memory on
/// explicit save requests.
pub struct MemoryPersistenceLayer<U, D = ()> {
    underlying_provider: U,
    queue: VecDeque<ChunkProviderResult<D>>,
    storage: ChunkMap<Chunk<D>>,
}

/// The stored blocks of each saved chunk.
pub open spec fn stored_blocks<D>(m: Map<AbsChunkPos, Chunk<D>>) -> Map<AbsChunkPos, Seq<BlockEntry>> {
    m.map_values(|c: Chunk<D>| c@)
}

/// The extra data of each saved chunk.
pub open spec fn stored_extra<D>(m: Map<AbsChunkPos, Chunk<D>>) -> Map<AbsChunkPos, D> {
    m.map_values(|c: Chunk<D>| c.extra())
}

/// The stored extra data after saving `chunks` in order onto `m`: later entries overwrite earlier
/// ones.
pub open spec fn extras_saved_onto<D>(m: Map<AbsChunkPos, D>, chunks: Seq<(AbsChunkPos, Chunk<D>)>) -> Map<
    AbsChunkPos,
    D,
>
    decreases chunks.len(),
{
    if chunks.len() == 0 {
        m
    } else {
        extras_saved_onto(m, chunks.drop_last()).insert(chunks.last().0, chunks.last().1.extra())
    }
}

/// The responses `q[from..]` are successful loads carrying a clone of the extra data saved for
/// their position in `extras`.
pub open spec fn served_with_saved_extra<D: Clone>(q: Seq<ChunkProviderResult<D>>, from: int, extras: Map<AbsChunkPos, D>) -> bool {
    forall|i: int|
        from <= i < q.len() ==> ((#[trigger] q[i]).1 matches Ok(c) && extras.contains_key(q[i].0) && cloned::<D>(
            extras[q[i].0],
            c.extra(),
        ))
}

/// The storage after saving `chunks` in order onto `m`: later entries overwrite earlier ones.
pub open spec fn saved_onto<D>(m: Map<AbsChunkPos, Seq<BlockEntry>>, chunks: Seq<(AbsChunkPos, Chunk<D>)>) -> Map<
    AbsChunkPos,
    Seq<BlockEntry>,
>
    decreases chunks.len(),
{
    if chunks.len() == 0 {
        m
    } else {
        saved_onto(m, chunks.drop_last()).insert(chunks.last().0, chunks.last().1@)
    }
}

/// The responses served from storage for `coords`: the stored positions, in request order.
pub open spec fn served_from_storage(m: Map<AbsChunkPos, Seq<BlockEntry>>, coords: Seq<AbsChunkPos>) -> Seq<
    (AbsChunkPos, Seq<BlockEntry>),
>
    decreases coords.len(),
{
    if coords.len() == 0 {
        Seq::empty()
    } else {
        let prev = served_from_storage(m, coords.drop_last());
        let p = coords.last();
        if m.contains_key(p) {
            prev.push((p, m[p]))
        } else {
            prev
        }
    }
}

/// The requested positions not found in storage, in request order.
pub open spec fn missing_from_storage(m: Map<AbsChunkPos, Seq<BlockEntry>>, coords: Seq<AbsChunkPos>) -> Seq<
    AbsChunkPos,
>
    decreases coords.len(),
{
    if coords.len() == 0 {
        Seq::empty()
    } else {
        let prev = missing_from_storage(m, coords.drop_last());
        let p = coords.last();
        if m.contains_key(p) {
            prev
        } else {
            prev.push(p)
        }
    }
}

/// The queued responses, as positions with their successfully loaded blocks.
pub open spec fn queue_as_loaded<D>(q: Seq<ChunkProviderResult<D>>) -> Seq<(AbsChunkPos, Seq<BlockEntry>)> {
    q.map_values(|r: ChunkProviderResult<D>| (r.0, match r.1 { Ok(c) => c@, Err(_) => Seq::empty() }))
}

/// Every queued response is a successful load.
pub open spec fn all_ok<D>(q: Seq<ChunkProviderResult<D>>) -> bool {
    forall|i: int| 0 <= i < q.len() ==> #[trigger] q[i].1 is Ok
}

/// `r` is `k` responses from the underlying provider followed by as many of the oldest entries of
/// queue `q` as fit under `max_count`, and `q_after` is what remains of the queue.
pub open spec fn underlying_then_queue<D>(
    q: Seq<ChunkProviderResult<D>>,
    max_count: int,
    r: Seq<ChunkProviderResult<D>>,
    q_after: Seq<ChunkProviderResult<D>>,
    k: int,
) -> bool {
    let n = r.len() - k;
    &&& 0 <= k <= r.len()
    &&& n == if max_count - k < q.len() { max_count - k } else { q.len() as int }
    &&& r.subrange(k, r.len() as int) == q.subrange(0, n)
    &&& q_after == q.subrange(n, q.len() as int)
}

impl<U: ChunkPersistenceLayer<D>, D> MemoryPersistenceLayer<U, D> {
    /// The stored chunks.
    pub closed spec fn spec_storage(self) -> Map<AbsChunkPos, Seq<BlockEntry>> {
        stored_blocks(self.storage@)
    }

    /// The extra data of each stored chunk.
    pub closed spec fn spec_stored_extra(self) -> Map<AbsChunkPos, D> {
        stored_extra(self.storage@)
    }

    /// The responses served from storage and waiting to be dequeued, oldest first.
    pub closed spec fn spec_queue(self) -> Seq<ChunkProviderResult<D>> {
        self.queue@
    }

    /// The provider that generates missing chunks.
    pub closed spec fn spec_underlying(self) -> U {
        self.underlying_provider
    }

    /// Constructs a new persistence layer that provides chunks from memory, generating any
    /// missing chunks with the given underlying provider.
    pub fn new(underlying_provider: U) -> (r: MemoryPersistenceLayer<U, D>)
        ensures
            r.spec_storage() == Map::<AbsChunkPos, Seq<BlockEntry>>::empty(),
            r.spec_stored_extra() == Map::<AbsChunkPos, D>::empty(),
            r.spec_queue().len() == 0,
            r.spec_underlying() == underlying_provider,
    {
        let r = MemoryPersistenceLayer { underlying_provider, queue: VecDeque::new(), storage: ChunkMap::new() };
        assert(r.spec_storage() =~= Map::<AbsChunkPos, Seq<BlockEntry>>::empty());
        assert(r.spec_stored_extra() =~= Map::<AbsChunkPos, D>::empty());
        r
    }
}

impl<U: ChunkPersistenceLayer<D>, D: Clone> ChunkPersistenceLayer<D> for MemoryPersistenceLayer<U, D> {
    /// Stored positions are served from memory in request order; the others are requested from
    /// the underlying provider in one request, in order, when there are any.
    open spec fn requests_loads(before: &Self, after: &Self, coordinates: Seq<AbsChunkPos>) -> bool {
        let q0 = before.spec_queue();
        let q1 = after.spec_queue();
        let missing = missing_from_storage(before.spec_storage(), coordinates);
        &&& after.spec_storage() == before.spec_storage()
        &&& after.spec_stored_extra() == before.spec_stored_extra()
        &&& served_with_saved_extra(q1, q0.len() as int, before.spec_stored_extra())
        &&& q1.len() >= q0.len()
        &&& q1.subrange(0, q0.len() as int) == q0
        &&& all_ok(q1.subrange(q0.len() as int, q1.len() as int))
        &&& queue_as_loaded(q1.subrange(q0.len() as int, q1.len() as int)) == served_from_storage(
            before.spec_storage(),
            coordinates,
        )
        &&& missing.len() == 0 ==> after.spec_underlying() == before.spec_underlying()
        &&& missing.len() > 0 ==> U::requests_loads(&before.spec_underlying(), &after.spec_underlying(), missing)
    }

    /// The chunks are stored, later entries overwriting earlier ones.
    open spec fn requests_saves(before: &Self, after: &Self, chunks: Seq<(AbsChunkPos, Chunk<D>)>) -> bool {
        &&& after.spec_storage() == saved_onto(before.spec_storage(), chunks)
        &&& after.spec_stored_extra() == extras_saved_onto(before.spec_stored_extra(), chunks)
        &&& after.spec_queue() == before.spec_queue()
        &&& after.spec_underlying() == before.spec_underlying()
    }

    /// The responses the underlying provider hands out come first, then the oldest responses
    /// served from memory, up to `max_count` in all.
    open spec fn dequeues(before: &Self, after: &Self, max_count: usize, responses: Seq<ChunkProviderResult<D>>) -> bool {
        &&& after.spec_storage() == before.spec_storage()
        &&& after.spec_stored_extra() == before.spec_stored_extra()
        &&& exists|k: int|
            #[trigger] underlying_then_queue(before.spec_queue(), max_count as int, responses, after.spec_queue(), k)
                && U::dequeues(
                &before.spec_underlying(),
                &after.spec_underlying(),
                max_count,
                responses.subrange(0, k),
            )
    }

    /// Serves stored chunks from memory, in request order, and forwards the other positions to
    /// the underlying provider in one request.
    fn request_load(&mut self, coordinates: &[AbsChunkPos])
        ensures
            final(self).spec_storage() == old(self).spec_storage(),
            final(self).spec_stored_extra() == old(self).spec_stored_extra(),
            served_with_saved_extra(final(self).spec_queue(), old(self).spec_queue().len() as int, old(self).spec_stored_extra()),
            all_ok(final(self).spec_queue().subrange(
                old(self).spec_queue().len() as int,
                final(self).spec_queue().len() as int,
            )),
            final(self).spec_queue().subrange(0, old(self).spec_queue().len() as int) == old(self).spec_queue(),
            queue_as_loaded(final(self).spec_queue().subrange(
                old(self).spec_queue().len() as int,
                final(self).spec_queue().len() as int,
            )) == served_from_storage(old(self).spec_storage(), coordinates@),
            final(self).spec_queue().len() >= old(self).spec_queue().len(),
            missing_from_storage(old(self).spec_storage(), coordinates@).len() == 0 ==> final(self).spec_underlying()
                == old(self).spec_underlying(),
            missing_from_storage(old(self).spec_storage(), coordinates@).len() > 0 ==> U::requests_loads(
                &old(self).spec_underlying(),
                &final(self).spec_underlying(),
                missing_from_storage(old(self).spec_storage(), coordinates@),
            ),
    {
        let ghost q0 = self.queue@;
        let ghost m = stored_blocks(self.storage@);
        let mut underlying_requests: Vec<AbsChunkPos> = Vec::new();
        let mut i: usize = 0;
        while i < coordinates.len()
            invariant
                i <= coordinates@.len(),
                m == stored_blocks(self.storage@),
                self.storage@ == old(self).storage@,
                served_with_saved_extra(self.queue@, q0.len() as int, stored_extra(old(self).storage@)),
                self.queue@.len() >= q0.len(),
                self.queue@.subrange(0, q0.len() as int) == q0,
                all_ok(self.queue@.subrange(q0.len() as int, self.queue@.len() as int)),
                queue_as_loaded(self.queue@.subrange(q0.len() as int, self.queue@.len() as int))
                    == served_from_storage(m, coordinates@.subrange(0, i as int)),
                underlying_requests@ == missing_from_storage(m, coordinates@.subrange(0, i as int)),
                self.underlying_provider == old(self).underlying_provider,
            decreases coordinates@.len() - i,
        {
            let pos = coordinates[i];
            let ghost before = self.queue@;
            proof {
                assert(coordinates@.subrange(0, i + 1).drop_last() =~= coordinates@.subrange(0, i as int));
            }
            match self.storage.get(&pos) {
                Some(chunk) => {
                    let copy = chunk.duplicate();
                    self.queue.push_back((pos, Ok(copy)));
                    proof {
                        let added = self.queue@.subrange(q0.len() as int, self.queue@.len() as int);
                        let prev = before.subrange(q0.len() as int, before.len() as int);
                        assert(added =~= prev.push((pos, Ok(copy))));
                        assert(self.queue@.subrange(0, q0.len() as int) =~= before.subrange(0, q0.len() as int));
                        assert(queue_as_loaded(added) =~= queue_as_loaded(prev).push((pos, copy@)));
                        assert(served_with_saved_extra(self.queue@, q0.len() as int, stored_extra(old(self).storage@))) by {
                            assert forall|k: int| q0.len() <= k < self.queue@.len() implies ((#[trigger] self.queue@[k]).1 matches Ok(
                                c,
                            ) && stored_extra(old(self).storage@).contains_key(self.queue@[k].0) && cloned::<D>(
                                stored_extra(old(self).storage@)[self.queue@[k].0],
                                c.extra(),
                            )) by {
                                if k < before.len() {
                                    assert(self.queue@[k] == before[k]);
                                }
                            }
                        }
                        assert(all_ok(added)) by {
                            assert forall|k: int| 0 <= k < added.len() implies #[trigger] added[k].1 is Ok by {
                                if k < prev.len() {
                                    assert(added[k] == prev[k]);
                                }
                            }
                        }
                    }
                },
                None => {
                    underlying_requests.push(pos);
                },
            }
            i = i + 1;
        }
        proof {
            assert(coordinates@.subrange(0, coordinates@.len() as int) =~= coordinates@);
        }
        if underlying_requests.len() > 0 {
            self.underlying_provider.request_load(underlying_requests.as_slice());
        }
    }

    /// The underlying provider cancels the loads; storage and served responses are kept.
    open spec fn cancels_loads(before: &Self, after: &Self, coordinates: Seq<AbsChunkPos>) -> bool {
        &&& after.spec_storage() == before.spec_storage()
        &&& after.spec_stored_extra() == before.spec_stored_extra()
        &&& after.spec_queue() == before.spec_queue()
        &&& U::cancels_loads(&before.spec_underlying(), &after.spec_underlying(), coordinates)
    }

    /// Forwards the cancellation to the underlying provider; stored chunks are served at once.
    fn cancel_load(&mut self, coordinates: &[AbsChunkPos])
        ensures
            final(self).spec_storage() == old(self).spec_storage(),
            final(self).spec_stored_extra() == old(self).spec_stored_extra(),
            final(self).spec_queue() == old(self).spec_queue(),
            U::cancels_loads(&old(self).spec_underlying(), &final(self).spec_underlying(), coordinates@),
    {
        self.underlying_provider.cancel_load(coordinates);
    }

    /// Stores the given chunks in memory, later entries overwriting earlier ones.
    fn request_save(&mut self, chunks: Vec<(AbsChunkPos, Chunk<D>)>)
        ensures
            final(self).spec_storage() == saved_onto(old(self).spec_storage(), chunks@),
            final(self).spec_stored_extra() == extras_saved_onto(old(self).spec_stored_extra(), chunks@),
            final(self).spec_queue() == old(self).spec_queue(),
            final(self).spec_underlying() == old(self).spec_underlying(),
    {
        let ghost all = chunks@;
        let ghost m0 = stored_blocks(self.storage@);
        let ghost e0 = stored_extra(self.storage@);
        let mut chunks = chunks;
        let mut k: usize = 0;
        let n = chunks.len();
        while chunks.len() > 0
            invariant
                n == all.len(),
                chunks@.len() + k == n,
                chunks@ == all.subrange(k as int, n as int),
                stored_blocks(self.storage@) == saved_onto(m0, all.subrange(0, k as int)),
                stored_extra(self.storage@) == extras_saved_onto(e0, all.subrange(0, k as int)),
                self.queue@ == old(self).queue@,
                self.underlying_provider == old(self).underlying_provider,
            decreases chunks@.len(),
        {
            let ghost st0 = self.storage@;
            let (pos, chunk) = chunks.remove(0);
            proof {
                assert(all.subrange(0, k + 1).drop_last() =~= all.subrange(0, k as int));
                assert(all[k as int] == (pos, chunk));
            }
            self.storage.insert(pos, chunk);
            proof {
                assert(stored_blocks(self.storage@) =~= stored_blocks(st0).insert(pos, chunk@));
                assert(stored_extra(self.storage@) =~= stored_extra(st0).insert(pos, chunk.extra()));
            }
            k = k + 1;
        }
        proof {
            assert(all.subrange(0, n as int) =~= all);
        }
    }

    /// Hands out the underlying provider's responses first, then fills up to `max_count` with
    /// the oldest responses served from memory.
    fn try_dequeue_responses(&mut self, max_count: usize) -> (r: Vec<ChunkProviderResult<D>>)
        ensures
            r@.len() <= max_count,
            final(self).spec_storage() == old(self).spec_storage(),
            final(self).spec_stored_extra() == old(self).spec_stored_extra(),
            exists|k: int|
                #[trigger] underlying_then_queue(old(self).spec_queue(), max_count as int, r@, final(self).spec_queue(), k)
                    && U::dequeues(&old(self).spec_underlying(), &final(self).spec_underlying(), max_count, r@.subrange(0, k)),
    {
        let mut out = self.underlying_provider.try_dequeue_responses(max_count);
        let k = out.len();
        let ghost o0 = out@;
        drain_front_into(&mut self.queue, &mut out, max_count - k);
        proof {
            assert(out@.subrange(k as int, out@.len() as int) =~= out@.subrange(k as int, out@.len() as int));
            let q = old(self).queue@;
            let n = out@.len() - k;
            assert(out@.subrange(k as int, out@.len() as int) =~= q.subrange(0, n));
            assert(underlying_then_queue(old(self).spec_queue(), max_count as int, out@, self.spec_queue(), k as int));
            assert(out@.subrange(0, k as int) =~= o0);
        }
        out
    }

    /// The underlying provider's loads and saves, and the responses waiting here added to the
    /// underlying provider's (saturating at the largest `usize`).
    open spec fn spec_stats(&self) -> ChunkPersistenceLayerStats {
        let u = self.spec_underlying().spec_stats();
        let responses = self.spec_queue().len() + u.responses_queued;
        ChunkPersistenceLayerStats {
            loads_queued: u.loads_queued,
            saves_queued: u.saves_queued,
            responses_queued: if responses > usize::MAX { usize::MAX } else { responses as usize },
        }
    }

    /// Combines the underlying provider's statistics with the responses waiting here.
    fn stats(&self) -> (r: ChunkPersistenceLayerStats) {
        let underlying = self.underlying_provider.stats();
        ChunkPersistenceLayerStats {
            loads_queued: underlying.loads_queued,
            saves_queued: underlying.saves_queued,
            responses_queued: self.queue.len().saturating_add(underlying.responses_queued),
        }
    }
}

/// The blocks last saved for position `p` among `chunks`, if any.
pub open spec fn last_saved<D>(chunks: Seq<(AbsChunkPos, Chunk<D>)>, p: AbsChunkPos) -> Option<Seq<BlockEntry>>
    decreases chunks.len(),
{
    if chunks.len() == 0 {
        None
    } else if chunks.last().0 == p {
        Some(chunks.last().1@)
    } else {
        last_saved(chunks.drop_last(), p)
    }
}

proof fn lemma_saved_onto_holds_last<D>(m: Map<AbsChunkPos, Seq<BlockEntry>>, chunks: Seq<(AbsChunkPos, Chunk<D>)>, p: AbsChunkPos)
    requires
        last_saved(chunks, p) is Some,
    ensures
        saved_onto(m, chunks).contains_key(p),
        saved_onto(m, chunks)[p] == last_saved(chunks, p).unwrap(),
    decreases chunks.len(),
{
    if chunks.last().0 != p {
        lemma_saved_onto_holds_last(m, chunks.drop_last(), p);
    }
}

/// Loading a position after saving chunks at it serves, from memory, the blocks of the latest
/// of those saves, and asks the underlying provider for nothing.
pub proof fn lemma_load_after_save_serves_saved<D>(
    m: Map<AbsChunkPos, Seq<BlockEntry>>,
    chunks: Seq<(AbsChunkPos, Chunk<D>)>,
    p: AbsChunkPos,
)
    requires
        last_saved(chunks, p) is Some,
    ensures
        served_from_storage(saved_onto(m, chunks), seq![p]) == seq![(p, last_saved(chunks, p).unwrap())],
        missing_from_storage(saved_onto(m, chunks), seq![p]).len() == 0,
{
    lemma_saved_onto_holds_last(m, chunks, p);
    let coords = seq![p];
    assert(coords.drop_last() =~= Seq::<AbsChunkPos>::empty());
    let stored = saved_onto(m, chunks);
    assert(served_from_storage(stored, coords.drop_last()) =~= Seq::<(AbsChunkPos, Seq<BlockEntry>)>::empty());
    assert(missing_from_storage(stored, coords.drop_last()) =~= Seq::<AbsChunkPos>::empty());
    assert(served_from_storage(stored, coords) =~= seq![(p, last_saved(chunks, p).unwrap())]);
}

} // verus!
