//! Integer coordinates of blocks and chunks in the voxel universe.
use vstd::prelude::*;

verus! {

/// Side length of a cubic chunk, in blocks.
pub const CHUNK_DIM: i32 = 32;

/// Number of blocks in one chunk.
pub const CHUNK_VOLUME: usize = 32768;

/// Absolute position of a block in the universe.
#[derive(Clone, Copy, Debug, PartialEq, Eq, Structural)]
pub struct AbsBlockPos {
    pub x: i32,
    pub y: i32,
    pub z: i32,
}

/// Absolute position of a chunk in the universe, in chunk units.
#[derive(Clone, Copy, Debug, PartialEq, Eq, Structural)]
pub struct AbsChunkPos {
    pub x: i32,
    pub y: i32,
    pub z: i32,
}

/// Position of a block inside its chunk, each component in `0..CHUNK_DIM`.
#[derive(Clone, Copy, Debug, PartialEq, Eq, Structural)]
pub struct InChunkPos {
    pub x: i32,
    pub y: i32,
    pub z: i32,
}

/// Relative offset between two chunk positions, in chunk units.
#[derive(Clone, Copy, Debug, PartialEq, Eq, Structural)]
pub struct RelChunkPos {
    pub x: i32,
    pub y: i32,
    pub z: i32,
}

/// The chunk coordinate that holds block coordinate `b` (floor division by the chunk size).
pub open spec fn chunk_coord(b: int) -> int {
    b / (CHUNK_DIM as int)
}

/// The offset of block coordinate `b` inside its chunk.
pub open spec fn in_chunk_coord(b: int) -> int {
    b % (CHUNK_DIM as int)
}

/// True for a valid in-chunk coordinate.
pub open spec fn in_chunk_range(c: int) -> bool {
    0 <= c < CHUNK_DIM
}

/// The linear index of an in-chunk position in dense chunk storage.
pub open spec fn in_chunk_index(x: int, y: int, z: int) -> int {
    x + 32 * z + 1024 * y
}

/// The chunk coordinate of block coordinate `b`, rounding down.
fn div_chunk(b: i32) -> (r: i32)
    ensures
        r == chunk_coord(b as int),
{
    match b.checked_div_euclid(CHUNK_DIM) {
        Some(v) => v,
        None => {
            assert(false);
            0
        },
    }
}

/// The in-chunk coordinate of block coordinate `b`.
fn rem_chunk(b: i32) -> (r: i32)
    ensures
        r == in_chunk_coord(b as int),
        in_chunk_range(r as int),
{
    match b.checked_rem_euclid(CHUNK_DIM) {
        Some(v) => v,
        None => {
            assert(false);
            0
        },
    }
}

impl InChunkPos {
    /// The coordinates are all inside the chunk.
    pub open spec fn is_valid(self) -> bool {
        in_chunk_range(self.x as int) && in_chunk_range(self.y as int) && in_chunk_range(self.z as int)
    }

    /// The linear index of this position in dense chunk storage.
    pub open spec fn index(self) -> int {
        in_chunk_index(self.x as int, self.y as int, self.z as int)
    }

    /// Constructs a position, or `None` when a coordinate falls outside the chunk.
    pub fn try_new(x: i32, y: i32, z: i32) -> (r: Option<InChunkPos>)
        ensures
            r is Some <==> (in_chunk_range(x as int) && in_chunk_range(y as int) && in_chunk_range(z as int)),
            r matches Some(p) ==> p == (InChunkPos { x, y, z }),
    {
        if 0 <= x && x < CHUNK_DIM && 0 <= y && y < CHUNK_DIM && 0 <= z && z < CHUNK_DIM {
            Some(InChunkPos { x, y, z })
        } else {
            None
        }
    }
}

/// Every valid in-chunk position has an index inside dense chunk storage, and distinct
/// positions have distinct indices.
pub proof fn lemma_in_chunk_index_bounds(p: InChunkPos, q: InChunkPos)
    requires
        p.is_valid(),
        q.is_valid(),
    ensures
        0 <= p.index() < CHUNK_VOLUME,
        p.index() == q.index() ==> p == q,
{
}

impl AbsBlockPos {
    /// Constructor.
    pub fn new(x: i32, y: i32, z: i32) -> (r: AbsBlockPos)
        ensures
            r == (AbsBlockPos { x, y, z }),
    {
        AbsBlockPos { x, y, z }
    }

    /// The chunk containing this block.
    pub open spec fn spec_chunk_pos(self) -> AbsChunkPos {
        AbsChunkPos {
            x: chunk_coord(self.x as int) as i32,
            y: chunk_coord(self.y as int) as i32,
            z: chunk_coord(self.z as int) as i32,
        }
    }

    /// The chunk containing this block.
    pub fn chunk_pos(&self) -> (r: AbsChunkPos)
        ensures
            r == self.spec_chunk_pos(),
    {
        AbsChunkPos { x: div_chunk(self.x), y: div_chunk(self.y), z: div_chunk(self.z) }
    }

    /// Splits the position into the containing chunk and the offset inside it.
    pub fn split_chunk_component(&self) -> (r: (AbsChunkPos, InChunkPos))
        ensures
            r.0 == self.spec_chunk_pos(),
            r.1.is_valid(),
            r.1.x == in_chunk_coord(self.x as int),
            r.1.y == in_chunk_coord(self.y as int),
            r.1.z == in_chunk_coord(self.z as int),
            r.0.x * CHUNK_DIM + r.1.x == self.x,
            r.0.y * CHUNK_DIM + r.1.y == self.y,
            r.0.z * CHUNK_DIM + r.1.z == self.z,
    {
        let c = self.chunk_pos();
        let i = InChunkPos { x: rem_chunk(self.x), y: rem_chunk(self.y), z: rem_chunk(self.z) };
        (c, i)
    }
}

/// True when the first block of the chunk has representable coordinates.
pub open spec fn chunk_origin_fits(c: AbsChunkPos) -> bool {
    i32::MIN <= c.x * CHUNK_DIM && c.x * CHUNK_DIM + CHUNK_DIM - 1 <= i32::MAX
    && i32::MIN <= c.y * CHUNK_DIM && c.y * CHUNK_DIM + CHUNK_DIM - 1 <= i32::MAX
    && i32::MIN <= c.z * CHUNK_DIM && c.z * CHUNK_DIM + CHUNK_DIM - 1 <= i32::MAX
}

impl AbsChunkPos {
    /// Constructor.
    pub fn new(x: i32, y: i32, z: i32) -> (r: AbsChunkPos)
        ensures
            r == (AbsChunkPos { x, y, z }),
    {
        AbsChunkPos { x, y, z }
    }

    /// The absolute position of a block given by its offset inside this chunk.
    pub fn block_pos(&self, p: InChunkPos) -> (r: AbsBlockPos)
        requires
            p.is_valid(),
            chunk_origin_fits(*self),
        ensures
            r.x == self.x * CHUNK_DIM + p.x,
            r.y == self.y * CHUNK_DIM + p.y,
            r.z == self.z * CHUNK_DIM + p.z,
    {
        AbsBlockPos { x: self.x * CHUNK_DIM + p.x, y: self.y * CHUNK_DIM + p.y, z: self.z * CHUNK_DIM + p.z }
    }
}

/// Splitting a block position and rebuilding it from its chunk and in-chunk offset gives the
/// same position back.
pub proof fn lemma_split_then_rebuild(b: AbsBlockPos)
    ensures
        b.spec_chunk_pos().x * CHUNK_DIM + in_chunk_coord(b.x as int) == b.x,
        b.spec_chunk_pos().y * CHUNK_DIM + in_chunk_coord(b.y as int) == b.y,
        b.spec_chunk_pos().z * CHUNK_DIM + in_chunk_coord(b.z as int) == b.z,
        in_chunk_range(in_chunk_coord(b.x as int)),
{
}

/// One of the six axis-aligned directions, naming the faces of a block.
#[derive(Clone, Copy, Debug, PartialEq, Eq, Structural)]
pub enum Direction {
    /// Towards negative x.
    XMinus,
    /// Towards positive x.
    XPlus,
    /// Towards negative y (down).
    YMinus,
    /// Towards positive y (up).
    YPlus,
    /// Towards negative z.
    ZMinus,
    /// Towards positive z.
    ZPlus,
}

impl Direction {
    /// The unit vector of this direction.
    pub open spec fn unit(self) -> (int, int, int) {
        match self {
            Direction::XMinus => (-1, 0, 0),
            Direction::XPlus => (1, 0, 0),
            Direction::YMinus => (0, -1, 0),
            Direction::YPlus => (0, 1, 0),
            Direction::ZMinus => (0, 0, -1),
            Direction::ZPlus => (0, 0, 1),
        }
    }
}

impl AbsBlockPos {
    /// The position `distance` blocks away from this one in direction `dir`, when representable.
    pub open spec fn offset_fits(self, dir: Direction, distance: i32) -> bool {
        let u = dir.unit();
        &&& i32::MIN <= self.x + u.0 * distance <= i32::MAX
        &&& i32::MIN <= self.y + u.1 * distance <= i32::MAX
        &&& i32::MIN <= self.z + u.2 * distance <= i32::MAX
    }

    /// Whether the position `distance` blocks away from this one in direction `dir` is
    /// representable.
    pub fn can_offset(&self, dir: Direction, distance: i32) -> (r: bool)
        ensures
            r == self.offset_fits(dir, distance),
    {
        let (ux, uy, uz): (i64, i64, i64) = match dir {
            Direction::XMinus => (-1, 0, 0),
            Direction::XPlus => (1, 0, 0),
            Direction::YMinus => (0, -1, 0),
            Direction::YPlus => (0, 1, 0),
            Direction::ZMinus => (0, 0, -1),
            Direction::ZPlus => (0, 0, 1),
        };
        let d: i64 = distance as i64;
        let x: i64 = self.x as i64 + ux * d;
        let y: i64 = self.y as i64 + uy * d;
        let z: i64 = self.z as i64 + uz * d;
        let lo: i64 = i32::MIN as i64;
        let hi: i64 = i32::MAX as i64;
        lo <= x && x <= hi && lo <= y && y <= hi && lo <= z && z <= hi
    }

    /// The position `distance` blocks away from this one in direction `dir`.
    pub fn direction_offset(&self, dir: Direction, distance: i32) -> (r: AbsBlockPos)
        requires
            self.offset_fits(dir, distance),
        ensures
            r.x == self.x + dir.unit().0 * distance,
            r.y == self.y + dir.unit().1 * distance,
            r.z == self.z + dir.unit().2 * distance,
    {
        match dir {
            Direction::XMinus => AbsBlockPos { x: self.x - distance, y: self.y, z: self.z },
            Direction::XPlus => AbsBlockPos { x: self.x + distance, y: self.y, z: self.z },
            Direction::YMinus => AbsBlockPos { x: self.x, y: self.y - distance, z: self.z },
            Direction::YPlus => AbsBlockPos { x: self.x, y: self.y + distance, z: self.z },
            Direction::ZMinus => AbsBlockPos { x: self.x, y: self.y, z: self.z - distance },
            Direction::ZPlus => AbsBlockPos { x: self.x, y: self.y, z: self.z + distance },
        }
    }
}

} // verus!
