//! Managing chunk persistence and presence in memory.
use std::collections::VecDeque;

use vstd::prelude::*;

use crate::coordinates::AbsChunkPos;
use crate::voxel::chunk::{BlockEntry, Chunk};

pub mod empty;
pub mod generator;
pub mod memory;
pub mod savefile;

verus! {

/// A single response to a chunk loading request, generated some time after calling
/// [`ChunkPersistenceLayer::request_load`].
pub type ChunkProviderResult<D = ()> = (AbsChunkPos, Result<Chunk<D>, anyhow::Error>);

/// Diagnostic statistics from a [`ChunkPersistenceLayer`]
#[derive(Clone, Copy, Debug, PartialEq, Eq, Structural)]
pub struct ChunkPersistenceLayerStats {
    /// Number of chunk loads queued and not resolved.
    pub loads_queued: usize,
    /// Number of chunk saves queued and not resolved.
    pub saves_queued: usize,
    /// Number of chunk load responses waiting in the queue.
    pub responses_queued: usize,
}

/// What a response says: its position, and the loaded blocks or `None` for a failed load.
pub open spec fn response_view<D>(r: ChunkProviderResult<D>) -> (AbsChunkPos, Option<Seq<BlockEntry>>) {
    (r.0, match r.1 {
        Ok(c) => Some(c@),
        Err(_) => None,
    })
}

/// The views of a sequence of responses, in order.
pub open spec fn responses_view<D>(rs: Seq<ChunkProviderResult<D>>) -> Seq<(AbsChunkPos, Option<Seq<BlockEntry>>)> {
    rs.map_values(|r: ChunkProviderResult<D>| response_view(r))
}

/// A provider for chunk data for chunks not present in memory that need to be created/loaded, and
/// a sink for the same data when the chunks are unloaded. The chunks carry extra data of type `D`.
pub trait ChunkPersistenceLayer<D = ()> {
    /// What requesting loads of `coordinates` does to this layer, taking it from `before` to
    /// `after`, as each layer defines it.
    spec fn requests_loads(before: &Self, after: &Self, coordinates: Seq<AbsChunkPos>) -> bool;

    /// Reliably requests the given coordinates to be loaded.
    fn request_load(&mut self, coordinates: &[AbsChunkPos])
        ensures
            Self::requests_loads(&*old(self), &*final(self), coordinates@),
    ;

    /// What cancelling the loads of `coordinates` does to this layer, taking it from `before`
    /// to `after`, as each layer defines it.
    spec fn cancels_loads(before: &Self, after: &Self, coordinates: Seq<AbsChunkPos>) -> bool;

    /// Cancels any in-flight load requests matching the given coordinates.
    fn cancel_load(&mut self, coordinates: &[AbsChunkPos])
        ensures
            Self::cancels_loads(&*old(self), &*final(self), coordinates@),
    ;

    /// What requesting the saving of `chunks` does to this layer, taking it from `before` to
    /// `after`, as each layer defines it.
    spec fn requests_saves(before: &Self, after: &Self, chunks: Seq<(AbsChunkPos, Chunk<D>)>) -> bool;

    /// Reliably requests the saving of the given chunk data; later entries take precedence.
    fn request_save(&mut self, chunks: Vec<(AbsChunkPos, Chunk<D>)>)
        ensures
            Self::requests_saves(&*old(self), &*final(self), chunks@),
    ;

    /// What handing out `responses` when asked for up to `max_count` does to this layer, taking
    /// it from `before` to `after`, as each layer defines it.
    spec fn dequeues(before: &Self, after: &Self, max_count: usize, responses: Seq<ChunkProviderResult<D>>) -> bool;

    /// Provides up to `max_count` resolved chunk loading responses.
    fn try_dequeue_responses(&mut self, max_count: usize) -> (r: Vec<ChunkProviderResult<D>>)
        ensures
            r@.len() <= max_count,
            Self::dequeues(&*old(self), &*final(self), max_count, r@),
    ;

    /// The diagnostic statistics of this layer, as each layer defines them.
    spec fn spec_stats(&self) -> ChunkPersistenceLayerStats;

    /// Get current diagnostic statistics.
    fn stats(&self) -> (r: ChunkPersistenceLayerStats)
        ensures
            r == self.spec_stats(),
    ;
}

/// Removes up to `max_count` responses from the front of `queue` and appends them to `out`,
/// in queue order.
pub fn drain_front_into<D>(queue: &mut VecDeque<ChunkProviderResult<D>>, out: &mut Vec<ChunkProviderResult<D>>, max_count: usize)
    ensures
        ({
            let n = if max_count < old(queue)@.len() { max_count as int } else { old(queue)@.len() as int };
            &&& final(out)@ == old(out)@ + old(queue)@.subrange(0, n)
            &&& final(queue)@ == old(queue)@.subrange(n, old(queue)@.len() as int)
        }),
{
    let ghost q0 = queue@;
    let ghost o0 = out@;
    let n: usize = if max_count < queue.len() { max_count } else { queue.len() };
    let mut i: usize = 0;
    while i < n
        invariant
            n <= q0.len(),
            i <= n,
            queue@ == q0.subrange(i as int, q0.len() as int),
            out@ == o0 + q0.subrange(0, i as int),
        decreases n - i,
    {
        let item = queue.pop_front();
        match item {
            Some(x) => {
                proof {
                    assert(q0.subrange(0, i as int).push(x) =~= q0.subrange(0, i + 1));
                }
                out.push(x);
            },
            None => {
                assert(false);
            },
        }
        i = i + 1;
    }
}

} // verus!
