//! Simple flat world generator
use vstd::prelude::*;

use crate::coordinates::{chunk_origin_fits, AbsChunkPos, CHUNK_DIM};
use crate::voxel::chunk::{BlockEntry, Chunk};
use crate::voxel::generator::VoxelGenerator;

verus! {

/// A layer of blocks to generate.
#[derive(Clone, Copy, Debug, PartialEq, Eq, Structural)]
pub struct FlatLayer {
    /// The type of block to fill the layer with.
    pub block_type: BlockEntry,
    /// The thickness of the layer in blocks, must be positive.
    pub thickness: i32,
}

/// Why the layers given to [`FlatGenerator::new`] were refused.
#[derive(Clone, Copy, Debug, PartialEq, Eq, Structural)]
pub enum FlatGeneratorError {
    /// No layers were given.
    EmptyLayers,
    /// Some layer has a zero or negative thickness.
    NonPositiveThickness,
}

/// A simple voxel generator that creates a world composed of many stacked flat layers.
/// The bottom layer is copied downwards, the top layer is copied upwards to fill the non-defined space.
pub struct FlatGenerator {
    start_y: i32,
    layers: Vec<FlatLayer>,
}

/// Every layer has a positive thickness.
pub open spec fn all_thicknesses_positive(layers: Seq<FlatLayer>) -> bool {
    forall|i: int| 0 <= i < layers.len() ==> #[trigger] layers[i].thickness > 0
}

/// The layer covering height `y`, scanning the stack from layer `i`, whose bottom is at `cur`.
pub open spec fn layer_scan(layers: Seq<FlatLayer>, i: int, cur: int, y: int) -> FlatLayer
    decreases layers.len() - i,
{
    if i < 0 || i >= layers.len() {
        layers.last()
    } else if cur <= y < cur + layers[i].thickness {
        layers[i]
    } else {
        layer_scan(layers, i + 1, cur + layers[i].thickness, y)
    }
}

/// The layer covering height `y` of a stack whose bottom is at `start_y`: the bottom layer at
/// and below `start_y`, the top layer above the stack.
pub open spec fn layer_at(start_y: int, layers: Seq<FlatLayer>, y: int) -> FlatLayer {
    if y <= start_y {
        layers[0]
    } else {
        layer_scan(layers, 0, start_y, y)
    }
}

/// The total thickness of the first `n` layers of the stack.
pub open spec fn thickness_prefix(layers: Seq<FlatLayer>, n: int) -> int
    decreases n,
{
    if n <= 0 {
        0
    } else {
        thickness_prefix(layers, n - 1) + layers[n - 1].thickness
    }
}

proof fn lemma_prefix_monotone(layers: Seq<FlatLayer>, a: int, b: int)
    requires
        all_thicknesses_positive(layers),
        0 <= a <= b <= layers.len(),
    ensures
        thickness_prefix(layers, a) <= thickness_prefix(layers, b),
        a < b ==> thickness_prefix(layers, a) < thickness_prefix(layers, b),
    decreases b - a,
{
    if a < b {
        lemma_prefix_monotone(layers, a, b - 1);
        assert(layers[b - 1].thickness > 0);
    }
}

proof fn lemma_scan_finds_layer(layers: Seq<FlatLayer>, start: int, i: int, k: int, y: int)
    requires
        all_thicknesses_positive(layers),
        0 <= i <= k < layers.len(),
        start + thickness_prefix(layers, k) <= y < start + thickness_prefix(layers, k + 1),
    ensures
        layer_scan(layers, i, start + thickness_prefix(layers, i), y) == layers[k],
    decreases k - i,
{
    if i < k {
        lemma_prefix_monotone(layers, i + 1, k);
        lemma_scan_finds_layer(layers, start, i + 1, k, y);
    }
}

proof fn lemma_scan_above_stack(layers: Seq<FlatLayer>, start: int, i: int, y: int)
    requires
        all_thicknesses_positive(layers),
        0 <= i <= layers.len(),
        layers.len() > 0,
        y >= start + thickness_prefix(layers, layers.len() as int),
    ensures
        layer_scan(layers, i, start + thickness_prefix(layers, i), y) == layers.last(),
    decreases layers.len() - i,
{
    if i < layers.len() {
        lemma_prefix_monotone(layers, i + 1, layers.len() as int);
        lemma_scan_above_stack(layers, start, i + 1, y);
    }
}

/// Layer `k` of a valid stack covers exactly the heights from the top of the layers below it
/// up to its own top; heights at or below the bottom of the stack get the bottom layer, and
/// heights at or above its top get the top layer.
pub proof fn lemma_flat_layer_heights(start_y: int, layers: Seq<FlatLayer>, k: int, y: int)
    requires
        layers.len() > 0,
        all_thicknesses_positive(layers),
    ensures
        y <= start_y ==> layer_at(start_y, layers, y) == layers[0],
        (0 <= k < layers.len() && start_y + thickness_prefix(layers, k) <= y < start_y + thickness_prefix(
            layers,
            k + 1,
        )) ==> layer_at(start_y, layers, y) == layers[k],
        y >= start_y + thickness_prefix(layers, layers.len() as int) ==> layer_at(start_y, layers, y)
            == layers.last(),
{
    if 0 <= k < layers.len() && start_y + thickness_prefix(layers, k) <= y < start_y + thickness_prefix(
        layers,
        k + 1,
    ) && y > start_y {
        lemma_scan_finds_layer(layers, start_y, 0, k, y);
    }
    if 0 <= k < layers.len() && y <= start_y && start_y + thickness_prefix(layers, k) <= y {
        lemma_prefix_monotone(layers, 0, k);
        if k > 0 {
            lemma_prefix_monotone(layers, 0, k);
        }
        assert(k == 0);
    }
    if y >= start_y + thickness_prefix(layers, layers.len() as int) {
        lemma_prefix_monotone(layers, 0, layers.len() as int);
        lemma_scan_above_stack(layers, start_y, 0, y);
    }
}

impl FlatGenerator {
    /// The generator's layers are non-empty and each has positive thickness.
    #[verifier::type_invariant]
    pub closed spec fn wf(self) -> bool {
        self.layers@.len() > 0 && all_thicknesses_positive(self.layers@)
    }

    /// The height of the bottom of the layer stack.
    pub closed spec fn spec_start_y(self) -> int {
        self.start_y as int
    }

    /// The layer stack, bottom first.
    pub closed spec fn spec_layers(self) -> Seq<FlatLayer> {
        self.layers@
    }

    /// Constructs a generator from the given arguments, returning an error if invalid layers were given.
    pub fn new(start_y: i32, layers: Vec<FlatLayer>) -> (r: Result<FlatGenerator, FlatGeneratorError>)
        ensures
            layers@.len() == 0 <==> r == Err::<FlatGenerator, _>(FlatGeneratorError::EmptyLayers),
            (layers@.len() > 0 && !all_thicknesses_positive(layers@)) <==> r == Err::<FlatGenerator, _>(
                FlatGeneratorError::NonPositiveThickness,
            ),
            r is Ok <==> (layers@.len() > 0 && all_thicknesses_positive(layers@)),
            r matches Ok(g) ==> g.wf() && g.spec_start_y() == start_y && g.spec_layers() == layers@,
    {
        if layers.len() == 0 {
            return Err(FlatGeneratorError::EmptyLayers);
        }
        let mut i: usize = 0;
        while i < layers.len()
            invariant
                i <= layers@.len(),
                forall|j: int| 0 <= j < i ==> #[trigger] layers@[j].thickness > 0,
            decreases layers@.len() - i,
        {
            if layers[i].thickness <= 0 {
                return Err(FlatGeneratorError::NonPositiveThickness);
            }
            i = i + 1;
        }
        Ok(FlatGenerator { start_y, layers })
    }

    /// The layer covering the given height.
    pub fn layer_for(&self, y: i32) -> (r: FlatLayer)
        ensures
            r == layer_at(self.spec_start_y(), self.spec_layers(), y as int),
    {
        proof {
            use_type_invariant(self);
        }
        if y <= self.start_y {
            return self.layers[0];
        }
        let mut cur: i64 = self.start_y as i64;
        let mut i: usize = 0;
        while i < self.layers.len()
            invariant
                self.wf(),
                i <= self.layers@.len(),
                (y as int) > self.start_y,
                self.start_y as int <= cur <= (y as int),
                layer_scan(self.layers@, i as int, cur as int, y as int) == layer_scan(
                    self.layers@,
                    0,
                    self.start_y as int,
                    y as int,
                ),
            decreases self.layers@.len() - i,
        {
            let layer = self.layers[i];
            let end_y: i64 = cur + layer.thickness as i64;
            if cur <= y as i64 && (y as i64) < end_y {
                return layer;
            }
            cur = end_y;
            i = i + 1;
        }
        self.layers[self.layers.len() - 1]
    }
}

impl<D> VoxelGenerator<D> for FlatGenerator {
    /// The block of the layer covering the height of `(x, y, z)`.
    open spec fn spec_block(&self, position: AbsChunkPos, x: int, y: int, z: int) -> BlockEntry {
        layer_at(self.spec_start_y(), self.spec_layers(), position.y * CHUNK_DIM + y).block_type
    }

    /// Fills every block of the chunk with the layer covering its height.
    fn generate_chunk(&self, position: AbsChunkPos, extra_data: D) -> (r: Chunk<D>)
        ensures
            forall|x: int, y: int, z: int|
                0 <= x < CHUNK_DIM && 0 <= y < CHUNK_DIM && 0 <= z < CHUNK_DIM ==> #[trigger] r.block_at(x, y, z)
                    == layer_at(self.spec_start_y(), self.spec_layers(), position.y * CHUNK_DIM + y).block_type,
    {
        proof {
            use_type_invariant(self);
        }
        let first_y: i32 = position.y * CHUNK_DIM;
        let first_layer = self.layer_for(first_y).block_type;
        let ghost kept = extra_data;
        let mut chunk = Chunk::new(first_layer, extra_data);
        let mut in_y: i32 = 1;
        while in_y < CHUNK_DIM
            invariant
                self.wf(),
                chunk_origin_fits(position),
                first_y == position.y * CHUNK_DIM,
                1 <= in_y <= CHUNK_DIM,
                chunk.wf(),
                chunk.extra() == kept,
                forall|x: int, y: int, z: int|
                    0 <= x < CHUNK_DIM && 0 <= y < in_y && 0 <= z < CHUNK_DIM ==> #[trigger] chunk.block_at(x, y, z)
                        == layer_at(self.spec_start_y(), self.spec_layers(), first_y + y).block_type,
            decreases CHUNK_DIM - in_y,
        {
            let layer = self.layer_for(first_y + in_y).block_type;
            chunk.fill_layer(in_y, layer);
            in_y = in_y + 1;
        }
        chunk
    }
}

} // verus!
