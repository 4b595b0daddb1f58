//! Generator-backed chunk persistence layer, intended to be used as an underlying layer for a
//! caching layer like the memory one.
use vstd::prelude::*;

use crate::coordinates::{chunk_origin_fits, AbsChunkPos};
use crate::promises::anyhow_message;
use crate::voxel::chunk::Chunk;
use crate::voxel::generator::{is_generated, VoxelGenerator};
use crate::voxel::persistence::{ChunkPersistenceLayer, ChunkPersistenceLayerStats, ChunkProviderResult};

verus! {

/// A persistence layer that answers load requests by running a world generator, giving each
/// chunk a clone of its extra data.
pub struct GeneratorPersistenceLayer<G, D = ()> {
    generator: G,
    extra_data: D,
    live_tasks: Vec<AbsChunkPos>,
}

/// The pending positions after requesting `coords` in order: each position is pending once.
pub open spec fn with_requested(live: Seq<AbsChunkPos>, coords: Seq<AbsChunkPos>) -> Seq<AbsChunkPos>
    decreases coords.len(),
{
    if coords.len() == 0 {
        live
    } else {
        let prev = with_requested(live, coords.drop_last());
        if prev.contains(coords.last()) {
            prev
        } else {
            prev.push(coords.last())
        }
    }
}

/// The pending positions that are not in `coords`, in order.
pub open spec fn without_cancelled(live: Seq<AbsChunkPos>, coords: Seq<AbsChunkPos>) -> Seq<AbsChunkPos> {
    live.filter(|p: AbsChunkPos| !coords.contains(p))
}

/// Whether `p` occurs in `s`.
fn contains_pos(s: &[AbsChunkPos], p: AbsChunkPos) -> (r: bool)
    ensures
        r == s@.contains(p),
{
    let mut i: usize = 0;
    while i < s.len()
        invariant
            i <= s@.len(),
            forall|k: int| 0 <= k < i ==> s@[k] != p,
        decreases s@.len() - i,
    {
        if s[i] == p {
            return true;
        }
        i = i + 1;
    }
    false
}

impl<G: VoxelGenerator<D>, D> GeneratorPersistenceLayer<G, D> {
    /// The generator.
    pub closed spec fn spec_generator(self) -> G {
        self.generator
    }

    /// The extra data that generated chunks carry a clone of.
    pub closed spec fn spec_extra_data(self) -> D {
        self.extra_data
    }

    /// The positions whose chunks are requested and not handed out yet, oldest request first.
    pub closed spec fn spec_live(self) -> Seq<AbsChunkPos> {
        self.live_tasks@
    }

    /// A layer generating chunks with `generator` that carry clones of `extra_data`, with nothing
    /// requested yet.
    pub fn new(generator: G, extra_data: D) -> (r: GeneratorPersistenceLayer<G, D>)
        ensures
            r.spec_generator() == generator,
            r.spec_extra_data() == extra_data,
            r.spec_live() == Seq::<AbsChunkPos>::empty(),
    {
        GeneratorPersistenceLayer { generator, extra_data, live_tasks: Vec::new() }
    }
}

impl<G: VoxelGenerator<D>, D: Clone> ChunkPersistenceLayer<D> for GeneratorPersistenceLayer<G, D> {
    /// Each requested position becomes pending, unless it already is.
    open spec fn requests_loads(before: &Self, after: &Self, coordinates: Seq<AbsChunkPos>) -> bool {
        &&& after.spec_live() == with_requested(before.spec_live(), coordinates)
        &&& after.spec_generator() == before.spec_generator()
        &&& after.spec_extra_data() == before.spec_extra_data()
    }

    /// Saving changes nothing: generated chunks are not stored.
    open spec fn requests_saves(before: &Self, after: &Self, chunks: Seq<(AbsChunkPos, Chunk<D>)>) -> bool {
        &&& after.spec_live() == before.spec_live()
        &&& after.spec_generator() == before.spec_generator()
        &&& after.spec_extra_data() == before.spec_extra_data()
    }

    /// The oldest `min(max_count, pending)` requests are answered in order, each with the chunk
    /// the generator makes there, or an error for a position outside the representable world.
    open spec fn dequeues(before: &Self, after: &Self, max_count: usize, responses: Seq<ChunkProviderResult<D>>) -> bool {
        let live = before.spec_live();
        let n = if max_count < live.len() { max_count as int } else { live.len() as int };
        &&& responses.len() == n
        &&& after.spec_live() == live.subrange(n, live.len() as int)
        &&& forall|i: int|
            0 <= i < n ==> {
                let resp = #[trigger] responses[i];
                &&& resp.0 == live[i]
                &&& chunk_origin_fits(live[i]) ==> (resp.1 matches Ok(c) && is_generated(&before.spec_generator(), live[i], c) && cloned::<D>(
                    before.spec_extra_data(),
                    c.extra(),
                ))
                &&& !chunk_origin_fits(live[i]) ==> resp.1 is Err
            }
        &&& after.spec_generator() == before.spec_generator()
        &&& after.spec_extra_data() == before.spec_extra_data()
    }

    /// Makes each requested position pending, unless it already is.
    fn request_load(&mut self, coordinates: &[AbsChunkPos])
        ensures
            final(self).spec_live() == with_requested(old(self).spec_live(), coordinates@),
            final(self).spec_generator() == old(self).spec_generator(),
            final(self).spec_extra_data() == old(self).spec_extra_data(),
    {
        let mut i: usize = 0;
        while i < coordinates.len()
            invariant
                i <= coordinates@.len(),
                self.live_tasks@ == with_requested(old(self).live_tasks@, coordinates@.subrange(0, i as int)),
                self.generator == old(self).generator,
                self.extra_data == old(self).extra_data,
            decreases coordinates@.len() - i,
        {
            proof {
                assert(coordinates@.subrange(0, i + 1).drop_last() =~= coordinates@.subrange(0, i as int));
            }
            let pos = coordinates[i];
            if !contains_pos(self.live_tasks.as_slice(), pos) {
                self.live_tasks.push(pos);
            }
            i = i + 1;
        }
        proof {
            assert(coordinates@.subrange(0, coordinates@.len() as int) =~= coordinates@);
        }
    }

    /// The pending requests for the given positions are dropped; the generator is kept.
    open spec fn cancels_loads(before: &Self, after: &Self, coordinates: Seq<AbsChunkPos>) -> bool {
        &&& after.spec_live() == without_cancelled(before.spec_live(), coordinates)
        &&& after.spec_generator() == before.spec_generator()
        &&& after.spec_extra_data() == before.spec_extra_data()
    }

    /// Drops the pending requests for the given positions.
    fn cancel_load(&mut self, coordinates: &[AbsChunkPos])
        ensures
            final(self).spec_live() == without_cancelled(old(self).spec_live(), coordinates@),
            final(self).spec_generator() == old(self).spec_generator(),
            final(self).spec_extra_data() == old(self).spec_extra_data(),
    {
        let ghost l0 = self.live_tasks@;
        let mut kept: Vec<AbsChunkPos> = Vec::new();
        let mut i: usize = 0;
        while i < self.live_tasks.len()
            invariant
                self.live_tasks@ == l0,
                i <= l0.len(),
                kept@ == without_cancelled(l0.subrange(0, i as int), coordinates@),
            decreases l0.len() - i,
        {
            proof {
                reveal(Seq::filter);
                assert(l0.subrange(0, i + 1).drop_last() =~= l0.subrange(0, i as int));
            }
            let pos = self.live_tasks[i];
            if !contains_pos(coordinates, pos) {
                kept.push(pos);
            }
            i = i + 1;
        }
        proof {
            assert(l0.subrange(0, l0.len() as int) =~= l0);
        }
        self.live_tasks = kept;
    }

    /// Does nothing: generated chunks are not stored.
    fn request_save(&mut self, chunks: Vec<(AbsChunkPos, Chunk<D>)>)
        ensures
            final(self).spec_live() == old(self).spec_live(),
            final(self).spec_generator() == old(self).spec_generator(),
            final(self).spec_extra_data() == old(self).spec_extra_data(),
    {
    }

    /// Generates the chunks of the oldest `min(max_count, pending)` requests, in request order;
    /// a position whose blocks lie outside the representable coordinates gets an error.
    fn try_dequeue_responses(&mut self, max_count: usize) -> (r: Vec<ChunkProviderResult<D>>)
        ensures
            ({
                let live = old(self).spec_live();
                let n = if max_count < live.len() { max_count as int } else { live.len() as int };
                &&& r@.len() == n
                &&& final(self).spec_live() == live.subrange(n, live.len() as int)
                &&& forall|i: int|
                    0 <= i < n ==> {
                        let resp = #[trigger] r@[i];
                        &&& resp.0 == live[i]
                        &&& chunk_origin_fits(live[i]) ==> (resp.1 matches Ok(c) && is_generated(&old(self).spec_generator(), live[i], c) && cloned::<D>(
                            old(self).spec_extra_data(),
                            c.extra(),
                        ))
                        &&& !chunk_origin_fits(live[i]) ==> resp.1 is Err
                    }
            }),
            final(self).spec_generator() == old(self).spec_generator(),
            final(self).spec_extra_data() == old(self).spec_extra_data(),
    {
        let ghost l0 = self.live_tasks@;
        let n: usize = if max_count < self.live_tasks.len() {
            max_count
        } else {
            self.live_tasks.len()
        };
        let mut out: Vec<ChunkProviderResult<D>> = Vec::new();
        let mut i: usize = 0;
        while i < n
            invariant
                self.live_tasks@ == l0,
                n <= l0.len(),
                i <= n,
                out@.len() == i,
                forall|k: int|
                    0 <= k < i ==> {
                        let resp = #[trigger] out@[k];
                        &&& resp.0 == l0[k]
                        &&& chunk_origin_fits(l0[k]) ==> (resp.1 matches Ok(c) && is_generated(&self.generator, l0[k], c) && cloned::<D>(
                            self.extra_data,
                            c.extra(),
                        ))
                        &&& !chunk_origin_fits(l0[k]) ==> resp.1 is Err
                    },
            decreases n - i,
        {
            let pos = self.live_tasks[i];
            let fits = pos.x >= -67108864 && pos.x < 67108864 && pos.y >= -67108864 && pos.y < 67108864
                && pos.z >= -67108864 && pos.z < 67108864;
            let response: ChunkProviderResult<D> = if fits {
                (pos, Ok(self.generator.generate_chunk(pos, self.extra_data.clone())))
            } else {
                (pos, Err(anyhow_message("chunk position outside the representable world")))
            };
            out.push(response);
            i = i + 1;
        }
        let mut rest: Vec<AbsChunkPos> = Vec::new();
        let mut j: usize = n;
        while j < self.live_tasks.len()
            invariant
                self.live_tasks@ == l0,
                n <= j <= l0.len(),
                rest@ == l0.subrange(n as int, j as int),
            decreases l0.len() - j,
        {
            rest.push(self.live_tasks[j]);
            proof {
                assert(rest@ =~= l0.subrange(n as int, j + 1));
            }
            j = j + 1;
        }
        self.live_tasks = rest;
        out
    }

    /// Every pending request counts as a queued load.
    open spec fn spec_stats(&self) -> ChunkPersistenceLayerStats {
        ChunkPersistenceLayerStats { loads_queued: self.spec_live().len() as usize, saves_queued: 0, responses_queued: 0 }
    }

    /// Every pending request counts as a queued load.
    fn stats(&self) -> (r: ChunkPersistenceLayerStats) {
        ChunkPersistenceLayerStats { loads_queued: self.live_tasks.len(), saves_queued: 0, responses_queued: 0 }
    }
}

} // verus!
