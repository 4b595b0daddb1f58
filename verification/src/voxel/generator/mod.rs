//! World generators.
use vstd::prelude::*;

use crate::coordinates::{chunk_origin_fits, AbsChunkPos, CHUNK_DIM};
use crate::voxel::chunk::{BlockEntry, Chunk};

pub mod flat;

verus! {

/// A chunk generator, making chunks that carry extra data of type `D`.
pub trait VoxelGenerator<D = ()> {
    /// The block this generator puts at in-chunk coordinates `(x, y, z)` of the chunk at
    /// `position`.
    spec fn spec_block(&self, position: AbsChunkPos, x: int, y: int, z: int) -> BlockEntry;

    /// Generates a single chunk at the given coordinates, carrying `extra_data`.
    fn generate_chunk(&self, position: AbsChunkPos, extra_data: D) -> (r: Chunk<D>)
        requires
            chunk_origin_fits(position),
        ensures
            r.wf(),
            r.extra() == extra_data,
            forall|x: int, y: int, z: int|
                0 <= x < CHUNK_DIM && 0 <= y < CHUNK_DIM && 0 <= z < CHUNK_DIM ==> #[trigger] r.block_at(x, y, z)
                    == self.spec_block(position, x, y, z),
    ;
}

/// `c` is the chunk that `g` generates at `position`: a complete chunk holding at every in-chunk
/// position the block the generator puts there.
pub open spec fn is_generated<G: VoxelGenerator<D> + ?Sized, D>(g: &G, position: AbsChunkPos, c: Chunk<D>) -> bool {
    &&& c.wf()
    &&& forall|x: int, y: int, z: int|
        0 <= x < CHUNK_DIM && 0 <= y < CHUNK_DIM && 0 <= z < CHUNK_DIM ==> #[trigger] c.block_at(x, y, z)
            == g.spec_block(position, x, y, z)
}

} // verus!
