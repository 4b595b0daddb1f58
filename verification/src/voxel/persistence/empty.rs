//! Empty chunk persistence layer for testing purposes.
use std::collections::VecDeque;

use vstd::prelude::*;

use crate::coordinates::{AbsChunkPos, CHUNK_DIM};
use crate::voxel::chunk::{BlockEntry, Chunk};
use crate::voxel::persistence::{
    drain_front_into, response_view, ChunkPersistenceLayer, ChunkPersistenceLayerStats, ChunkProviderResult,
};

verus! {

/// Synchronous, empty persistence layer providing fresh, blank chunks every time.
pub struct EmptyPersistenceLayer<D = ()> {
    fill_block: BlockEntry,
    extra_data: D,
    queue: VecDeque<ChunkProviderResult<D>>,
}

/// A loaded chunk whose every block is `fill`.
pub open spec fn is_filled_with<D>(c: Chunk<D>, fill: BlockEntry) -> bool {
    c.wf() && forall|x: int, y: int, z: int|
        0 <= x < CHUNK_DIM && 0 <= y < CHUNK_DIM && 0 <= z < CHUNK_DIM ==> #[trigger] c.block_at(x, y, z) == fill
}

impl<D> EmptyPersistenceLayer<D> {
    /// The block that fresh chunks are filled with.
    pub closed spec fn spec_fill_block(self) -> BlockEntry {
        self.fill_block
    }

    /// The extra data that fresh chunks carry a clone of.
    pub closed spec fn spec_extra_data(self) -> D {
        self.extra_data
    }

    /// The responses waiting to be dequeued, oldest first.
    pub closed spec fn spec_queue(self) -> Seq<ChunkProviderResult<D>> {
        self.queue@
    }

    /// Constructs a new persistence layer that provides chunks filled with `fill_block` and
    /// carrying clones of `extra_data`.
    pub fn new(fill_block: BlockEntry, extra_data: D) -> (r: EmptyPersistenceLayer<D>)
        ensures
            r.spec_fill_block() == fill_block,
            r.spec_extra_data() == extra_data,
            r.spec_queue().len() == 0,
    {
        EmptyPersistenceLayer { fill_block, extra_data, queue: VecDeque::new() }
    }
}

impl<D: Clone> ChunkPersistenceLayer<D> for EmptyPersistenceLayer<D> {
    /// One freshly filled chunk is queued for each requested position, in request order.
    open spec fn requests_loads(before: &Self, after: &Self, coordinates: Seq<AbsChunkPos>) -> bool {
        &&& after.spec_fill_block() == before.spec_fill_block()
        &&& after.spec_extra_data() == before.spec_extra_data()
        &&& after.spec_queue().len() == before.spec_queue().len() + coordinates.len()
        &&& after.spec_queue().subrange(0, before.spec_queue().len() as int) == before.spec_queue()
        &&& forall|i: int|
            0 <= i < coordinates.len() ==> {
                let r = #[trigger] after.spec_queue()[before.spec_queue().len() + i];
                &&& r.0 == coordinates[i]
                &&& r.1 matches Ok(c) && is_filled_with(c, before.spec_fill_block()) && cloned::<D>(
                    before.spec_extra_data(),
                    c.extra(),
                )
            }
    }

    /// Saving changes nothing.
    open spec fn requests_saves(before: &Self, after: &Self, chunks: Seq<(AbsChunkPos, Chunk<D>)>) -> bool {
        &&& after.spec_fill_block() == before.spec_fill_block()
        &&& after.spec_extra_data() == before.spec_extra_data()
        &&& after.spec_queue() == before.spec_queue()
    }

    /// The oldest `min(max_count, queued)` responses are handed out, in queue order.
    open spec fn dequeues(before: &Self, after: &Self, max_count: usize, responses: Seq<ChunkProviderResult<D>>) -> bool {
        let q = before.spec_queue();
        let n = if max_count < q.len() { max_count as int } else { q.len() as int };
        &&& responses == q.subrange(0, n)
        &&& after.spec_queue() == q.subrange(n, q.len() as int)
        &&& after.spec_fill_block() == before.spec_fill_block()
        &&& after.spec_extra_data() == before.spec_extra_data()
    }

    /// Queues one freshly filled chunk for each requested position, in request order.
    fn request_load(&mut self, coordinates: &[AbsChunkPos])
        ensures
            final(self).spec_fill_block() == old(self).spec_fill_block(),
            final(self).spec_queue().len() == old(self).spec_queue().len() + coordinates@.len(),
            final(self).spec_queue().subrange(0, old(self).spec_queue().len() as int) == old(self).spec_queue(),
            forall|i: int|
                0 <= i < coordinates@.len() ==> {
                    let r = #[trigger] final(self).spec_queue()[old(self).spec_queue().len() + i];
                    &&& r.0 == coordinates@[i]
                    &&& r.1 matches Ok(c) && is_filled_with(c, old(self).spec_fill_block()) && cloned::<D>(
                        old(self).spec_extra_data(),
                        c.extra(),
                    )
                },
            final(self).spec_extra_data() == old(self).spec_extra_data(),
    {
        let ghost q0 = self.queue@;
        let mut i: usize = 0;
        while i < coordinates.len()
            invariant
                i <= coordinates@.len(),
                self.queue@.len() == q0.len() + i,
                self.queue@.subrange(0, q0.len() as int) == q0,
                self.fill_block == old(self).fill_block,
                self.extra_data == old(self).extra_data,
                forall|j: int|
                    0 <= j < i ==> {
                        let r = #[trigger] self.queue@[q0.len() + j];
                        &&& r.0 == coordinates@[j]
                        &&& r.1 matches Ok(c) && is_filled_with(c, self.fill_block) && cloned::<D>(
                            self.extra_data,
                            c.extra(),
                        )
                    },
            decreases coordinates@.len() - i,
        {
            let chunk = Chunk::new(self.fill_block, self.extra_data.clone());
            let ghost before = self.queue@;
            self.queue.push_back((coordinates[i], Ok(chunk)));
            proof {
                assert(self.queue@.subrange(0, q0.len() as int) =~= before.subrange(0, q0.len() as int));
                assert forall|j: int| 0 <= j < i + 1 implies {
                    let r = #[trigger] self.queue@[q0.len() + j];
                    &&& r.0 == coordinates@[j]
                    &&& r.1 matches Ok(c) && is_filled_with(c, self.fill_block) && cloned::<D>(
                        self.extra_data,
                        c.extra(),
                    )
                } by {
                    if j < i {
                        assert(self.queue@[q0.len() + j] == before[q0.len() + j]);
                    }
                }
            }
            i = i + 1;
        }
    }

    /// Cancelling changes nothing: every request is answered at once.
    open spec fn cancels_loads(before: &Self, after: &Self, coordinates: Seq<AbsChunkPos>) -> bool {
        &&& after.spec_fill_block() == before.spec_fill_block()
        &&& after.spec_extra_data() == before.spec_extra_data()
        &&& after.spec_queue() == before.spec_queue()
    }

    /// Does nothing.
    fn cancel_load(&mut self, coordinates: &[AbsChunkPos])
        ensures
            final(self).spec_fill_block() == old(self).spec_fill_block(),
            final(self).spec_extra_data() == old(self).spec_extra_data(),
            final(self).spec_queue() == old(self).spec_queue(),
    {
    }

    /// Does nothing: fresh chunks are never stored.
    fn request_save(&mut self, chunks: Vec<(AbsChunkPos, Chunk<D>)>)
        ensures
            final(self).spec_fill_block() == old(self).spec_fill_block(),
            final(self).spec_extra_data() == old(self).spec_extra_data(),
            final(self).spec_queue() == old(self).spec_queue(),
    {
    }

    /// Hands out the oldest `min(max_count, queued)` responses, in queue order.
    fn try_dequeue_responses(&mut self, max_count: usize) -> (r: Vec<ChunkProviderResult<D>>)
        ensures
            ({
                let q = old(self).spec_queue();
                let n = if max_count < q.len() { max_count as int } else { q.len() as int };
                &&& r@ == q.subrange(0, n)
                &&& final(self).spec_queue() == q.subrange(n, q.len() as int)
            }),
            final(self).spec_fill_block() == old(self).spec_fill_block(),
            final(self).spec_extra_data() == old(self).spec_extra_data(),
    {
        let mut out: Vec<ChunkProviderResult<D>> = Vec::new();
        drain_front_into(&mut self.queue, &mut out, max_count);
        proof {
            assert(out@ =~= Seq::<ChunkProviderResult<D>>::empty() + old(self).queue@.subrange(
                0,
                if max_count < old(self).queue@.len() {
                    max_count as int
                } else {
                    old(self).queue@.len() as int
                },
            ));
        }
        out
    }

    /// Only the waiting responses count.
    open spec fn spec_stats(&self) -> ChunkPersistenceLayerStats {
        ChunkPersistenceLayerStats { loads_queued: 0, saves_queued: 0, responses_queued: self.spec_queue().len() as usize }
    }

    /// Reports only the waiting responses.
    fn stats(&self) -> (r: ChunkPersistenceLayerStats) {
        ChunkPersistenceLayerStats { loads_queued: 0, saves_queued: 0, responses_queued: self.queue.len() }
    }
}

} // verus!
