//! Client-side voxel bookkeeping: how many received chunks are processed per frame, and which
//! render entities a re-meshed chunk keeps.
use std::collections::VecDeque;

use vstd::prelude::*;

use crate::entity::Entity;
use crate::voxel::chunk::Chunk;
use crate::voxel::plugin::CHUNK_PACKET_QUEUE_LENGTH;

verus! {

/// Takes the chunk packets to process this frame: at most [`CHUNK_PACKET_QUEUE_LENGTH`] of them,
/// oldest first.
pub fn take_chunk_packets<P>(queue: &mut VecDeque<P>) -> (r: Vec<P>)
    ensures
        ({
            let q = old(queue)@;
            let n = if q.len() < CHUNK_PACKET_QUEUE_LENGTH { q.len() as int } else { CHUNK_PACKET_QUEUE_LENGTH as int };
            &&& r@ == q.take(n)
            &&& final(queue)@ == q.skip(n)
        }),
{
    let ghost q = queue@;
    let n: usize = if queue.len() < CHUNK_PACKET_QUEUE_LENGTH {
        queue.len()
    } else {
        CHUNK_PACKET_QUEUE_LENGTH
    };
    let mut out: Vec<P> = Vec::new();
    let mut i: usize = 0;
    while i < n
        invariant
            n <= q.len(),
            i <= n,
            out@ == q.take(i as int),
            queue@ == q.skip(i as int),
        decreases n - i,
    {
        match queue.pop_front() {
            Some(p) => {
                proof {
                    assert(q.take(i + 1) =~= q.take(i as int).push(p));
                    assert(queue@ =~= q.skip(i + 1));
                }
                out.push(p);
            },
            None => {},
        }
        i = i + 1;
    }
    out
}

/// The render entities of a chunk re-meshed into some number of meshes.
pub struct MeshEntityPlan {
    /// The old entities that keep showing a mesh, in order.
    pub kept: Vec<Entity>,
    /// How many new entities to spawn after them.
    pub spawn_count: usize,
    /// The old entities to despawn, in the order they are released.
    pub despawn: Vec<Entity>,
}

/// Reuses a chunk's render entities `old` for `mesh_count` meshes: they are all kept and new
/// ones spawned for the extra meshes, or the surplus is released from the end.
pub fn plan_mesh_entities(old: &[Entity], mesh_count: usize) -> (r: MeshEntityPlan)
    ensures
        old@.len() <= mesh_count ==> r.kept@ == old@ && r.spawn_count == mesh_count - old@.len() && r.despawn@.len()
            == 0,
        old@.len() > mesh_count ==> r.kept@ == old@.take(mesh_count as int) && r.spawn_count == 0 && r.despawn@
            == old@.skip(mesh_count as int).reverse(),
{
    let mut kept: Vec<Entity> = Vec::new();
    let mut i: usize = 0;
    let keep_count: usize = if old.len() < mesh_count {
        old.len()
    } else {
        mesh_count
    };
    while i < keep_count
        invariant
            keep_count <= old@.len(),
            i <= keep_count,
            kept@ == old@.take(i as int),
        decreases keep_count - i,
    {
        proof {
            assert(old@.take(i + 1) =~= old@.take(i as int).push(old@[i as int]));
        }
        kept.push(old[i]);
        i = i + 1;
    }
    let mut despawn: Vec<Entity> = Vec::new();
    let mut j: usize = old.len();
    while j > keep_count
        invariant
            keep_count <= j <= old@.len(),
            despawn@ == old@.skip(j as int).reverse(),
        decreases j,
    {
        j = j - 1;
        proof {
            assert(old@.skip(j as int) =~= seq![old@[j as int]] + old@.skip(j + 1));
            assert(old@.skip(j as int).reverse() =~= old@.skip(j + 1).reverse().push(old@[j as int]));
        }
        despawn.push(old[j]);
    }
    proof {
        assert(old@.take(old@.len() as int) =~= old@);
        assert(old@.skip(old@.len() as int).reverse() =~= Seq::<Entity>::empty());
    }
    let spawn_count: usize = if old.len() < mesh_count {
        mesh_count - old.len()
    } else {
        0
    };
    MeshEntityPlan { kept, spawn_count, despawn }
}


/// Whether the chunk has a block that needs a mesh: a block whose id is among `drawable_ids`,
/// the ids of the block types with a drawable mesh.
pub fn does_chunk_need_rendering<D>(chunk: &Chunk<D>, drawable_ids: &[u32]) -> (r: bool)
    ensures
        r == exists|i: int| 0 <= i < chunk@.len() && drawable_ids@.contains(#[trigger] chunk@[i].id),
{
    let blocks = chunk.blocks();
    let mut i: usize = 0;
    while i < blocks.len()
        invariant
            blocks@ == chunk@,
            i <= blocks@.len(),
            forall|k: int| 0 <= k < i ==> !drawable_ids@.contains(#[trigger] blocks@[k].id),
        decreases blocks@.len() - i,
    {
        let id = blocks[i].id;
        let mut j: usize = 0;
        while j < drawable_ids.len()
            invariant
                j <= drawable_ids@.len(),
                blocks@ == chunk@,
                i < blocks@.len(),
                id == blocks@[i as int].id,
                forall|m: int| 0 <= m < j ==> drawable_ids@[m] != id,
            decreases drawable_ids@.len() - j,
        {
            if drawable_ids[j] == id {
                assert(drawable_ids@[j as int] == chunk@[i as int].id);
                assert(drawable_ids@.contains(chunk@[i as int].id));
                return true;
            }
            j = j + 1;
        }
        assert(!drawable_ids@.contains(id));
        i = i + 1;
    }
    false
}

/// Whether a block's side is drawn: it is hidden only when the side can be clipped and the
/// touching block is drawable with a side facing it that clips.
pub fn face_visible(side_can_be_clipped: bool, touch_drawable: bool, touch_side_can_clip: bool) -> (r: bool)
    ensures
        r == !(side_can_be_clipped && touch_drawable && touch_side_can_clip),
{
    !(side_can_be_clipped && touch_drawable && touch_side_can_clip)
}

} // verus!
