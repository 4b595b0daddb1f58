//! World decorators: structures placed into freshly generated chunks, such as trees.
use vstd::prelude::*;

use crate::coordinates::{in_chunk_range, InChunkPos, CHUNK_DIM};
use crate::voxel::chunk::{BlockEntry, Chunk};

verus! {

/// In-chunk position `(x, y, z)` is in the trunk of a tree of height `height` rooted at `base`.
pub open spec fn in_trunk(base: InChunkPos, height: int, x: int, y: int, z: int) -> bool {
    x == base.x && z == base.z && base.y <= y < base.y + height
}

/// The offset of `(x, y, z)` from the centre of the crown of a tree of height `height` rooted at
/// `base`; the centre is three blocks below the top of the trunk.
pub open spec fn crown_offset(base: InChunkPos, height: int, x: int, y: int, z: int) -> (int, int, int) {
    (x - base.x, y - (base.y + height - 3), z - base.z)
}

/// An offset of the crown: inside the box `[-4, 4] x [-1, 4] x [-4, 4]` and the ball of radius 5.
pub open spec fn crown_shape(d: (int, int, int)) -> bool {
    &&& -4 <= d.0 <= 4
    &&& -1 <= d.1 <= 4
    &&& -4 <= d.2 <= 4
    &&& d.0 * d.0 + d.1 * d.1 + d.2 * d.2 <= 25
}

/// The rank of a crown offset in the order leaves are placed: by `x`, then `y`, then `z`.
pub open spec fn crown_rank(d: (int, int, int)) -> int {
    (d.0 + 4) * 54 + (d.1 + 1) * 9 + (d.2 + 4)
}

/// The block at `(x, y, z)` once the trunk is placed into a chunk that held `old` there.
pub open spec fn after_trunk(old: BlockEntry, base: InChunkPos, height: int, log: BlockEntry, x: int, y: int, z: int) -> BlockEntry {
    if in_trunk(base, height, x, y, z) {
        log
    } else {
        old
    }
}

/// The block at `(x, y, z)` once the tree is placed into a chunk that held `old` there: the
/// trunk overwrites, then the leaves fill the crown where the block is still `empty`.
pub open spec fn tree_block(
    old: BlockEntry,
    base: InChunkPos,
    height: int,
    log: BlockEntry,
    leaves: BlockEntry,
    empty_id: u32,
    x: int,
    y: int,
    z: int,
) -> BlockEntry {
    let t = after_trunk(old, base, height, log, x, y, z);
    if crown_shape(crown_offset(base, height, x, y, z)) && t.id == empty_id {
        leaves
    } else {
        t
    }
}

/// The crown of a tree sits on top of its trunk: its centre is three blocks below the top of the
/// trunk, so it reaches from four blocks below the top trunk block up to two blocks above it.
/// Directly above the trunk, the two blocks become leaves where they are empty; at the centre's
/// height, every empty block within distance 5 of the trunk (and within 4 along each axis) becomes
/// leaves; farther than 5 from the centre, and below and above that span, nothing but the trunk
/// changes.
pub proof fn lemma_crown_sits_on_trunk_top(
    old: BlockEntry,
    base: InChunkPos,
    height: int,
    log: BlockEntry,
    leaves: BlockEntry,
    empty_id: u32,
    x: int,
    y: int,
    z: int,
)
    requires
        height >= 1,
    ensures
        x == base.x && z == base.z && (y == base.y + height || y == base.y + height + 1) && old.id == empty_id
            ==> tree_block(old, base, height, log, leaves, empty_id, x, y, z) == leaves,
        y == base.y + height - 3 && !(x == base.x && z == base.z) && -4 <= x - base.x <= 4 && -4 <= z - base.z <= 4
            && (x - base.x) * (x - base.x) + (z - base.z) * (z - base.z) <= 25 && old.id == empty_id
            ==> tree_block(old, base, height, log, leaves, empty_id, x, y, z) == leaves,
        (x - base.x) * (x - base.x) + (y - (base.y + height - 3)) * (y - (base.y + height - 3)) + (z - base.z) * (
        z - base.z) > 25 ==> tree_block(old, base, height, log, leaves, empty_id, x, y, z) == (if x == base.x && z
            == base.z && base.y <= y < base.y + height {
            log
        } else {
            old
        }),
        (y < base.y + height - 4 || y > base.y + height + 1) ==> tree_block(
            old,
            base,
            height,
            log,
            leaves,
            empty_id,
            x,
            y,
            z,
        ) == (if x == base.x && z == base.z && base.y <= y < base.y + height {
            log
        } else {
            old
        }),
{
    let dx = x - base.x;
    let dz = z - base.z;
    if y == base.y + height - 3 && -4 <= dx <= 4 && -4 <= dz <= 4 {
        assert(dx * dx + 0 * 0 + dz * dz == dx * dx + dz * dz);
    }
    if x == base.x && z == base.z && (y == base.y + height || y == base.y + height + 1) {
        let dy = y - (base.y + height - 3);
        assert(dy == 3 || dy == 4);
        assert(0 * 0 + dy * dy + 0 * 0 <= 25) by (nonlinear_arith)
            requires
                dy == 3 || dy == 4,
        ;
    }
}

proof fn lemma_rank_decompose(k: int)
    requires
        0 <= k < 486,
    ensures
        ({
            let d = (k / 54 - 4, (k % 54) / 9 - 1, k % 9 - 4);
            &&& -4 <= d.0 <= 4
            &&& -1 <= d.1 <= 4
            &&& -4 <= d.2 <= 4
            &&& crown_rank(d) == k
        }),
{
    assert(k == (k / 54) * 54 + k % 54) by (nonlinear_arith);
    assert(k % 54 == ((k % 54) / 9) * 9 + k % 9) by (nonlinear_arith)
        requires
            0 <= k,
    ;
    assert(k % 9 == (k % 54) % 9) by (nonlinear_arith)
        requires
            0 <= k,
    ;
}

proof fn lemma_rank_injective(a: (int, int, int), b: (int, int, int))
    requires
        -4 <= a.0 <= 4,
        -1 <= a.1 <= 4,
        -4 <= a.2 <= 4,
        -4 <= b.0 <= 4,
        -1 <= b.1 <= 4,
        -4 <= b.2 <= 4,
        crown_rank(a) == crown_rank(b),
    ensures
        a == b,
{
}

/// Places a tree of height `height` rooted at `base`: a trunk of `log` blocks going up from the
/// root, then a crown of `leaves` filling the ball of radius 5 around the point three blocks
/// below the top of the trunk (within `[-4, 4] x [-1, 4] x [-4, 4]` of it), where the block is
/// `empty`. Parts of the tree outside the chunk are left out.
pub fn place_tree<D>(
    chunk: &mut Chunk<D>,
    base: InChunkPos,
    height: i32,
    log: BlockEntry,
    leaves: BlockEntry,
    empty_id: u32,
)
    requires
        old(chunk).wf(),
        base.is_valid(),
        0 <= height <= 1024,
    ensures
        final(chunk).wf(),
        final(chunk).extra() == old(chunk).extra(),
        forall|x: int, y: int, z: int|
            0 <= x < CHUNK_DIM && 0 <= y < CHUNK_DIM && 0 <= z < CHUNK_DIM ==> #[trigger] final(chunk).block_at(x, y, z)
                == tree_block(old(chunk).block_at(x, y, z), base, height as int, log, leaves, empty_id, x, y, z),
{
    let ghost c0 = *chunk;
    let mut t: i32 = 0;
    while t < height
        invariant
            chunk.wf(),
            chunk.extra() == c0.extra(),
            c0.wf(),
            base.is_valid(),
            0 <= t <= height <= 1024,
            forall|x: int, y: int, z: int|
                0 <= x < CHUNK_DIM && 0 <= y < CHUNK_DIM && 0 <= z < CHUNK_DIM ==> #[trigger] chunk.block_at(x, y, z)
                    == after_trunk(c0.block_at(x, y, z), base, t as int, log, x, y, z),
        decreases height - t,
    {
        let ny = base.y + t;
        if ny < CHUNK_DIM {
            let p = InChunkPos { x: base.x, y: ny, z: base.z };
            chunk.put(p, log);
        }
        t = t + 1;
    }
    let ghost c1 = *chunk;
    let mut k: i32 = 0;
    while k < 486
        invariant
            chunk.wf(),
            chunk.extra() == c0.extra(),
            c0.wf(),
            base.is_valid(),
            0 <= height <= 1024,
            0 <= k <= 486,
            forall|x: int, y: int, z: int|
                0 <= x < CHUNK_DIM && 0 <= y < CHUNK_DIM && 0 <= z < CHUNK_DIM ==> #[trigger] c1.block_at(x, y, z)
                    == after_trunk(c0.block_at(x, y, z), base, height as int, log, x, y, z),
            forall|x: int, y: int, z: int|
                0 <= x < CHUNK_DIM && 0 <= y < CHUNK_DIM && 0 <= z < CHUNK_DIM ==> #[trigger] chunk.block_at(x, y, z)
                    == if crown_shape(crown_offset(base, height as int, x, y, z)) && crown_rank(
                    crown_offset(base, height as int, x, y, z),
                ) < k && c1.block_at(x, y, z).id == empty_id {
                    leaves
                } else {
                    c1.block_at(x, y, z)
                },
        decreases 486 - k,
    {
        let dx: i32 = k / 54 - 4;
        let dy: i32 = (k % 54) / 9 - 1;
        let dz: i32 = k % 9 - 4;
        proof {
            lemma_rank_decompose(k as int);
            assert(-4 <= dx <= 4 && -1 <= dy <= 4 && -4 <= dz <= 4);
            assert(0 <= dx * dx <= 16) by (nonlinear_arith)
                requires
                    -4 <= dx <= 4,
            ;
            assert(0 <= dy * dy <= 16) by (nonlinear_arith)
                requires
                    -1 <= dy <= 4,
            ;
            assert(0 <= dz * dz <= 16) by (nonlinear_arith)
                requires
                    -4 <= dz <= 4,
            ;
        }
        if dx * dx + dy * dy + dz * dz <= 25 {
            let nx = base.x + dx;
            let ny = base.y + height - 3 + dy;
            let nz = base.z + dz;
            if 0 <= nx && nx < CHUNK_DIM && 0 <= ny && ny < CHUNK_DIM && 0 <= nz && nz < CHUNK_DIM {
                let p = InChunkPos { x: nx, y: ny, z: nz };
                let current = chunk.get(p);
                proof {
                    let d = crown_offset(base, height as int, nx as int, ny as int, nz as int);
                    assert(d == (dx as int, dy as int, dz as int));
                }
                if current.id == empty_id {
                    chunk.put(p, leaves);
                }
            }
        }
        proof {
            assert forall|x: int, y: int, z: int|
                0 <= x < CHUNK_DIM && 0 <= y < CHUNK_DIM && 0 <= z < CHUNK_DIM implies #[trigger] chunk.block_at(
                x,
                y,
                z,
            ) == if crown_shape(crown_offset(base, height as int, x, y, z)) && crown_rank(
                crown_offset(base, height as int, x, y, z),
            ) < k + 1 && c1.block_at(x, y, z).id == empty_id {
                leaves
            } else {
                c1.block_at(x, y, z)
            } by {
                let d = crown_offset(base, height as int, x, y, z);
                if crown_shape(d) && crown_rank(d) == k {
                    lemma_rank_injective(d, (dx as int, dy as int, dz as int));
                }
            }
        }
        k = k + 1;
    }
    proof {
        assert forall|x: int, y: int, z: int|
            0 <= x < CHUNK_DIM && 0 <= y < CHUNK_DIM && 0 <= z < CHUNK_DIM implies #[trigger] chunk.block_at(x, y, z)
                == tree_block(c0.block_at(x, y, z), base, height as int, log, leaves, empty_id, x, y, z) by {
            let d = crown_offset(base, height as int, x, y, z);
            if crown_shape(d) {
                assert(crown_rank(d) < 486);
            }
        }
    }
}

} // verus!
