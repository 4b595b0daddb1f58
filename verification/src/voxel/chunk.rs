//! Dense block storage for one chunk.
use vstd::prelude::*;

use crate::coordinates::{in_chunk_index, CHUNK_DIM, CHUNK_VOLUME, InChunkPos};

verus! {

/// A single block: its type id in the block registry and type-specific metadata.
#[derive(Clone, Copy, Debug, PartialEq, Eq, Structural)]
pub struct BlockEntry {
    pub id: u32,
    pub metadata: u32,
}

impl BlockEntry {
    /// Constructor.
    pub fn new(id: u32, metadata: u32) -> (r: BlockEntry)
        ensures
            r == (BlockEntry { id, metadata }),
    {
        BlockEntry { id, metadata }
    }
}

/// The blocks of one chunk, and the data that the side holding it keeps alongside them.
pub struct Chunk<D = ()> {
    blocks: Vec<BlockEntry>,
    extra_data: D,
}

impl<D> View for Chunk<D> {
    type V = Seq<BlockEntry>;

    /// The blocks in storage order.
    closed spec fn view(&self) -> Seq<BlockEntry> {
        self.blocks@
    }
}

impl<D> Chunk<D> {
    /// The side-specific data kept with the chunk.
    pub closed spec fn extra(self) -> D {
        self.extra_data
    }

    /// The side-specific data kept with the chunk.
    pub fn extra_data(&self) -> (r: &D)
        ensures
            *r == self.extra(),
    {
        &self.extra_data
    }

    /// The storage holds exactly one entry per in-chunk position.
    pub open spec fn wf(self) -> bool {
        self@.len() == CHUNK_VOLUME
    }

    /// The block stored at in-chunk coordinates `(x, y, z)`.
    pub open spec fn block_at(self, x: int, y: int, z: int) -> BlockEntry {
        self@[in_chunk_index(x, y, z)]
    }

    /// Whether the storage holds exactly one entry per in-chunk position.
    pub fn is_complete(&self) -> (r: bool)
        ensures
            r == self.wf(),
    {
        self.blocks.len() == CHUNK_VOLUME
    }

    /// The blocks in storage order.
    pub fn blocks(&self) -> (r: &[BlockEntry])
        ensures
            r@ == self@,
    {
        self.blocks.as_slice()
    }

    /// A copy of this chunk holding the same blocks and a clone of its extra data.
    pub fn duplicate(&self) -> (r: Chunk<D>)
        where D: Clone,
        ensures
            r@ == self@,
            cloned::<D>(self.extra(), r.extra()),
    {
        Chunk { blocks: self.blocks.clone(), extra_data: self.extra_data.clone() }
    }

    /// A chunk filled entirely with `fill`, keeping `extra_data`.
    pub fn new(fill: BlockEntry, extra_data: D) -> (r: Chunk<D>)
        ensures
            r.wf(),
            r.extra() == extra_data,
            forall|x: int, y: int, z: int|
                0 <= x < CHUNK_DIM && 0 <= y < CHUNK_DIM && 0 <= z < CHUNK_DIM ==> #[trigger] r.block_at(x, y, z)
                    == fill,
    {
        let mut blocks: Vec<BlockEntry> = Vec::with_capacity(CHUNK_VOLUME);
        let mut i: usize = 0;
        while i < CHUNK_VOLUME
            invariant
                i <= CHUNK_VOLUME,
                blocks@.len() == i,
                forall|j: int| 0 <= j < i ==> blocks@[j] == fill,
            decreases CHUNK_VOLUME - i,
        {
            blocks.push(fill);
            i = i + 1;
        }
        Chunk { blocks, extra_data }
    }

    /// Reads the block at the given position.
    pub fn get(&self, p: InChunkPos) -> (r: BlockEntry)
        requires
            self.wf(),
            p.is_valid(),
        ensures
            r == self.block_at(p.x as int, p.y as int, p.z as int),
    {
        let idx = (p.x + 32 * p.z + 1024 * p.y) as usize;
        self.blocks[idx]
    }

    /// Writes the block at the given position, leaving every other position unchanged.
    pub fn put(&mut self, p: InChunkPos, entry: BlockEntry)
        requires
            old(self).wf(),
            p.is_valid(),
        ensures
            final(self).wf(),
            final(self).extra() == old(self).extra(),
            final(self)@ == old(self)@.update(p.index(), entry),
            final(self).block_at(p.x as int, p.y as int, p.z as int) == entry,
            forall|x: int, y: int, z: int|
                0 <= x < CHUNK_DIM && 0 <= y < CHUNK_DIM && 0 <= z < CHUNK_DIM && !(x == p.x && y == p.y && z
                    == p.z) ==> #[trigger] final(self).block_at(x, y, z) == old(self).block_at(x, y, z),
    {
        let idx = (p.x + 32 * p.z + 1024 * p.y) as usize;
        self.blocks.set(idx, entry);
    }

    /// Fills one horizontal layer (fixed `y`) of the chunk with `entry`.
    pub fn fill_layer(&mut self, y: i32, entry: BlockEntry)
        requires
            old(self).wf(),
            0 <= y < CHUNK_DIM,
        ensures
            final(self).wf(),
            final(self).extra() == old(self).extra(),
            forall|x: int, yy: int, z: int|
                0 <= x < CHUNK_DIM && 0 <= yy < CHUNK_DIM && 0 <= z < CHUNK_DIM ==> #[trigger] final(self).block_at(
                    x,
                    yy,
                    z,
                ) == if yy == y {
                    entry
                } else {
                    old(self).block_at(x, yy, z)
                },
    {
        let base: usize = (1024 * y) as usize;
        let mut k: usize = 0;
        while k < 1024
            invariant
                old(self).wf(),
                self.blocks@.len() == CHUNK_VOLUME,
                self.extra_data == old(self).extra_data,
                base == 1024 * y,
                0 <= y < CHUNK_DIM,
                k <= 1024,
                forall|j: int|
                    0 <= j < CHUNK_VOLUME ==> #[trigger] self.blocks@[j] == if base <= j < base + k {
                        entry
                    } else {
                        old(self).blocks@[j]
                    },
            decreases 1024 - k,
        {
            self.blocks.set(base + k, entry);
            k = k + 1;
        }
        proof {
            assert forall|x: int, yy: int, z: int|
                0 <= x < CHUNK_DIM && 0 <= yy < CHUNK_DIM && 0 <= z < CHUNK_DIM implies #[trigger] self.block_at(
                x,
                yy,
                z,
            ) == if yy == y {
                entry
            } else {
                old(self).block_at(x, yy, z)
            } by {
                let j = in_chunk_index(x, yy, z);
                assert(0 <= j < CHUNK_VOLUME);
                assert((base <= j < base + 1024) <==> yy == y);
            }
        }
    }
}

} // verus!
