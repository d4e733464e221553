use vstd::prelude::*;

verus! {

/// Horizontal extent of a chunk, in blocks, along x and along z.
pub const CHUNK_DIMENSION: u8 = 16;

/// Vertical extent of a chunk, in blocks.
pub const CHUNK_HEIGHT: u8 = 208;

/// Number of cells held by one chunk.
pub const CHUNK_VOLUME: usize = 53248;

/// Number of fixed-point units in one block length.
pub const SUBUNITS: i64 = 1000;

/// A point or a direction in fixed-point world units (`SUBUNITS` per block).
#[derive(Clone, Copy, Debug, PartialEq, Eq, Structural)]
pub struct FixedVec3 {
    pub x: i64,
    pub y: i64,
    pub z: i64,
}

/// An integer block coordinate, either chunk-local or world-space.
#[derive(Clone, Copy, Debug, PartialEq, Eq, Structural)]
pub struct BlockPos {
    pub x: i32,
    pub y: i32,
    pub z: i32,
}

/// The coordinate of a chunk on the horizontal chunk grid.
#[derive(Clone, Copy, Debug, PartialEq, Eq, Structural)]
pub struct ChunkPos {
    pub x: i32,
    pub z: i32,
}

impl BlockPos {
    pub fn new(x: i32, y: i32, z: i32) -> (r: BlockPos)
        ensures
            r.x == x,
            r.y == y,
            r.z == z,
    {
        BlockPos { x, y, z }
    }
}

impl FixedVec3 {
    pub fn new(x: i64, y: i64, z: i64) -> (r: FixedVec3)
        ensures
            r.x == x,
            r.y == y,
            r.z == z,
    {
        FixedVec3 { x, y, z }
    }
}

impl ChunkPos {
    pub fn new(x: i32, z: i32) -> (r: ChunkPos)
        ensures
            r.x == x,
            r.z == z,
    {
        ChunkPos { x, z }
    }
}

/// The cell lies inside a chunk's local bounds.
pub open spec fn in_chunk(x: int, y: int, z: int) -> bool {
    0 <= x < 16 && 0 <= y < 208 && 0 <= z < 16
}

/// Linear index of a local cell: x varies fastest, then z, then y.
pub open spec fn cell_index(x: int, y: int, z: int) -> int {
    x + z * 16 + y * 256
}

pub open spec fn index_x(i: int) -> int {
    i % 16
}

pub open spec fn index_z(i: int) -> int {
    (i / 16) % 16
}

pub open spec fn index_y(i: int) -> int {
    i / 256
}

/// Chunk-grid coordinate of a world coordinate along x or z (floor division).
pub open spec fn chunk_coord(w: int) -> int {
    w / 16
}

/// Chunk-local coordinate of a world coordinate along x or z (Euclidean remainder).
pub open spec fn local_coord(w: int) -> int {
    w % 16
}

pub proof fn lemma_cell_index_bounds(x: int, y: int, z: int)
    requires
        in_chunk(x, y, z),
    ensures
        0 <= cell_index(x, y, z) < 53248,
        index_x(cell_index(x, y, z)) == x,
        index_y(cell_index(x, y, z)) == y,
        index_z(cell_index(x, y, z)) == z,
{
    let i = cell_index(x, y, z);
    assert(i / 256 == y) by (nonlinear_arith)
        requires i == x + z * 16 + y * 256, 0 <= x < 16, 0 <= z < 16;
    assert(i / 16 == z + y * 16) by (nonlinear_arith)
        requires i == x + z * 16 + y * 256, 0 <= x < 16, 0 <= z < 16;
    assert(i % 16 == x) by (nonlinear_arith)
        requires i == x + z * 16 + y * 256, 0 <= x < 16, 0 <= z < 16;
    assert((z + y * 16) % 16 == z) by (nonlinear_arith)
        requires 0 <= z < 16, 0 <= y;
}

pub proof fn lemma_index_cell(i: int)
    requires
        0 <= i < 53248,
    ensures
        in_chunk(index_x(i), index_y(i), index_z(i)),
        cell_index(index_x(i), index_y(i), index_z(i)) == i,
{
    assert(i == i % 16 + ((i / 16) % 16) * 16 + (i / 256) * 256 && i / 256 < 208) by (nonlinear_arith)
        requires 0 <= i < 53248;
}

pub proof fn lemma_cell_index_injective(x1: int, y1: int, z1: int, x2: int, y2: int, z2: int)
    requires
        in_chunk(x1, y1, z1),
        in_chunk(x2, y2, z2),
        cell_index(x1, y1, z1) == cell_index(x2, y2, z2),
    ensures
        x1 == x2 && y1 == y2 && z1 == z2,
{
    lemma_cell_index_bounds(x1, y1, z1);
    lemma_cell_index_bounds(x2, y2, z2);
}

/// Splits a world-space block coordinate into the chunk that holds it and
/// the local coordinate inside that chunk. Works for negative coordinates.
pub fn world_to_local(world_pos: BlockPos) -> (r: (ChunkPos, BlockPos))
    ensures
        r.0.x == chunk_coord(world_pos.x as int),
        r.0.z == chunk_coord(world_pos.z as int),
        r.1.x == local_coord(world_pos.x as int),
        r.1.y == world_pos.y,
        r.1.z == local_coord(world_pos.z as int),
{
    let cx = match world_pos.x.checked_div_euclid(16) { Some(v) => v, None => 0 };
    let cz = match world_pos.z.checked_div_euclid(16) { Some(v) => v, None => 0 };
    let lx = match world_pos.x.checked_rem_euclid(16) { Some(v) => v, None => 0 };
    let lz = match world_pos.z.checked_rem_euclid(16) { Some(v) => v, None => 0 };
    (ChunkPos { x: cx, z: cz }, BlockPos { x: lx, y: world_pos.y, z: lz })
}

/// Reassembling a world coordinate from the chunk coordinate and the local
/// coordinate that `world_to_local` gives returns the original coordinate,
/// for negative coordinates too; the local part always lies in the chunk's
/// horizontal bounds.
pub proof fn lemma_world_to_local_round_trip(w: BlockPos)
    ensures
        chunk_coord(w.x as int) * 16 + local_coord(w.x as int) == w.x,
        chunk_coord(w.z as int) * 16 + local_coord(w.z as int) == w.z,
        0 <= local_coord(w.x as int) < 16,
        0 <= local_coord(w.z as int) < 16,
{
    let x = w.x as int;
    let z = w.z as int;
    assert(x == (x / 16) * 16 + x % 16 && 0 <= x % 16 < 16) by (nonlinear_arith);
    assert(z == (z / 16) * 16 + z % 16 && 0 <= z % 16 < 16) by (nonlinear_arith);
}

} // verus!
