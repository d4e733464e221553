use vstd::prelude::*;
use crate::lighting::{light_settled, sky_light};
use crate::mesh::{build_mesh, mesh_of, ChunkMesh};
use crate::coords::{in_chunk, cell_index, lemma_cell_index_bounds, BlockPos, ChunkPos, CHUNK_VOLUME};

verus! {

/// Block type of a cell: `0` is air, anything else is solid.
pub open spec fn block_in(blocks: Seq<u8>, x: int, y: int, z: int) -> u8 {
    if in_chunk(x, y, z) {
        blocks[cell_index(x, y, z)]
    } else {
        0
    }
}

/// Light level of a cell; cells outside the chunk count as open sky.
pub open spec fn light_in(light: Seq<u8>, x: int, y: int, z: int) -> u8 {
    if in_chunk(x, y, z) {
        light[cell_index(x, y, z)]
    } else {
        15
    }
}

/// Block type at height `y` of a column whose surface is at height `h` and
/// whose dirt layer is `d` blocks deep: stone below `h - d`, dirt from
/// `h - d` to `h - 1`, grass at `h`, air above.
pub open spec fn terrain_block(h: int, d: int, y: int) -> u8 {
    if y < h - d {
        3
    } else if y <= h - 1 {
        2
    } else if y <= h {
        1
    } else {
        0
    }
}

/// Block types of a chunk filled from per-column surface heights and dirt
/// depths; both tables are indexed by `x + 16 * z`, which is a cell's linear
/// index modulo 256.
pub open spec fn terrain_of(heights: Seq<i32>, depths: Seq<u8>) -> Seq<u8> {
    Seq::new(53248, |i: int| terrain_block(heights[i % 256] as int, depths[i % 256] as int, i / 256))
}

/// Dirt depths as the terrain generator draws them: one per column, each in `3..6`.
pub open spec fn valid_depths(depths: Seq<u8>) -> bool {
    depths.len() == 256 && forall|c: int| 0 <= c < 256 ==> 3 <= #[trigger] depths[c] < 6
}

fn terrain_block_exec(h: i64, d: i64, y: i64) -> (r: u8)
    requires
        -0x1_0000_0000 <= h <= 0x1_0000_0000,
        0 <= d <= 255,
    ensures
        r == terrain_block(h as int, d as int, y as int),
{
    if y < h - d {
        3
    } else if y <= h - 1 {
        2
    } else if y <= h {
        1
    } else {
        0
    }
}

/// Relies on rand's `rng()` and `Rng::random_range(lo..hi)`: a draw from
/// the thread-local generator that lies in `lo..hi` (the range is not empty).
#[verifier::external_body]
fn random_in(lo: u8, hi: u8) -> (r: u8)
    requires
        lo < hi,
    ensures
        lo <= r < hi,
{
    rand::Rng::random_range(&mut rand::rng(), lo..hi)
}

/// One chunk of the world: the block types and light levels of its
/// `16 x 208 x 16` cells, its place on the chunk grid, and the surface
/// mesh last built from them.
pub struct Chunk {
    blocks: Vec<u8>,
    light_map: Vec<u8>,
    position: ChunkPos,
    mesh: Option<ChunkMesh>,
}

impl Chunk {
    /// Block types of all cells, by linear cell index.
    pub closed spec fn blocks(&self) -> Seq<u8> {
        self.blocks@
    }

    /// Light levels of all cells, by linear cell index.
    pub closed spec fn light(&self) -> Seq<u8> {
        self.light_map@
    }

    pub closed spec fn grid_pos(&self) -> ChunkPos {
        self.position
    }

    /// The mesh last built, if any.
    pub closed spec fn current_mesh(&self) -> Option<ChunkMesh> {
        self.mesh
    }

    pub open spec fn wf(&self) -> bool {
        self.blocks().len() == 53248 && self.light().len() == 53248
    }

    pub open spec fn block_at(&self, x: int, y: int, z: int) -> u8 {
        block_in(self.blocks(), x, y, z)
    }

    pub open spec fn light_at(&self, x: int, y: int, z: int) -> u8 {
        light_in(self.light(), x, y, z)
    }

    /// A chunk of air and darkness at the given grid position.
    pub fn empty(position: ChunkPos) -> (r: Chunk)
        ensures
            r.wf(),
            r.grid_pos() == position,
            r.current_mesh().is_none(),
            forall|i: int| 0 <= i < 53248 ==> r.blocks()[i] == 0 && r.light()[i] == 0,
    {
        Chunk { blocks: vec![0u8; CHUNK_VOLUME], light_map: vec![0u8; CHUNK_VOLUME], position, mesh: None }
    }

    /// A chunk that holds no cells; it only stands in for a chunk that is
    /// being edited.
    pub(crate) fn vacant(position: ChunkPos) -> (r: Chunk)
        ensures
            r.grid_pos() == position,
    {
        Chunk { blocks: Vec::new(), light_map: Vec::new(), position, mesh: None }
    }

    /// A chunk at `position` whose blocks follow the per-column surface
    /// heights (indexed by `x + 16 * z`), with a dirt depth drawn at random
    /// for each column, and whose light is settled.
    pub fn new(position: ChunkPos, heights: &Vec<i32>) -> (r: Chunk)
        requires
            heights@.len() == 256,
        ensures
            r.wf(),
            r.grid_pos() == position,
            r.current_mesh().is_none(),
            exists|depths: Seq<u8>| valid_depths(depths) && r.blocks() == #[trigger] terrain_of(heights@, depths),
            light_settled(r.blocks(), r.light()),
    {
        let mut chunk = Chunk::empty(position);
        chunk.initialize_blocks(heights);
        chunk.calculate_lighting();
        chunk
    }

    fn initialize_blocks(&mut self, heights: &Vec<i32>)
        requires
            old(self).wf(),
            heights@.len() == 256,
        ensures
            final(self).wf(),
            final(self).grid_pos() == old(self).grid_pos(),
            final(self).current_mesh() == old(self).current_mesh(),
            exists|depths: Seq<u8>| valid_depths(depths) && final(self).blocks() == #[trigger] terrain_of(heights@, depths),
    {
        let mut depths: Vec<u8> = Vec::new();
        let mut c: usize = 0;
        while c < 256
            invariant
                c <= 256,
                depths@.len() == c,
                forall|k: int| 0 <= k < c ==> 3 <= #[trigger] depths@[k] < 6,
            decreases 256 - c,
        {
            depths.push(random_in(3, 6));
            c = c + 1;
        }
        self.fill_terrain(heights, &depths);
    }

    /// Replaces every block by the terrain that the per-column surface
    /// heights and dirt depths describe (both indexed by `x + 16 * z`).
    pub fn fill_terrain(&mut self, heights: &Vec<i32>, depths: &Vec<u8>)
        requires
            old(self).wf(),
            heights@.len() == 256,
            depths@.len() == 256,
        ensures
            final(self).wf(),
            final(self).blocks() == terrain_of(heights@, depths@),
            final(self).light() == old(self).light(),
            final(self).grid_pos() == old(self).grid_pos(),
            final(self).current_mesh() == old(self).current_mesh(),
    {
        let mut blocks: Vec<u8> = Vec::with_capacity(CHUNK_VOLUME);
        let mut i: usize = 0;
        while i < CHUNK_VOLUME
            invariant
                i <= 53248,
                heights@.len() == 256,
                depths@.len() == 256,
                blocks@.len() == i,
                forall|k: int| 0 <= k < i ==> #[trigger] blocks@[k] == terrain_of(heights@, depths@)[k],
            decreases 53248 - i,
        {
            let col = i % 256;
            let b = terrain_block_exec(heights[col] as i64, depths[col] as i64, (i / 256) as i64);
            blocks.push(b);
            i = i + 1;
        }
        proof {
            assert(blocks@ =~= terrain_of(heights@, depths@));
        }
        self.blocks = blocks;
    }

    /// Rebuilds the chunk's mesh from its current blocks and light.
    pub fn reload_chunk(&mut self)
        requires
            old(self).wf(),
        ensures
            final(self).wf(),
            final(self).blocks() == old(self).blocks(),
            final(self).light() == old(self).light(),
            final(self).grid_pos() == old(self).grid_pos(),
            final(self).current_mesh() matches Some(m) && mesh_of(m, final(self).blocks(), final(self).light()),
    {
        let mesh = build_mesh(&self.blocks, &self.light_map);
        self.mesh = Some(mesh);
    }

    /// The mesh last built by `reload_chunk`, if any.
    pub fn mesh(&self) -> (r: Option<&ChunkMesh>)
        ensures
            r matches Some(m) ==> self.current_mesh() == Some(*m),
            r is None ==> self.current_mesh() is None,
    {
        self.mesh.as_ref()
    }

    pub fn position(&self) -> (r: ChunkPos)
        ensures
            r == self.grid_pos(),
    {
        self.position
    }

    pub(crate) fn get_block_index(pos: BlockPos) -> (r: usize)
        requires
            in_chunk(pos.x as int, pos.y as int, pos.z as int),
        ensures
            r == cell_index(pos.x as int, pos.y as int, pos.z as int),
            r < 53248,
    {
        proof {
            lemma_cell_index_bounds(pos.x as int, pos.y as int, pos.z as int);
        }
        (pos.x + pos.z * 16 + pos.y * 256) as usize
    }

    /// The block type at a local position; positions outside the chunk read as air.
    pub fn get_block(&self, pos: BlockPos) -> (r: u8)
        requires
            self.wf(),
        ensures
            r == self.block_at(pos.x as int, pos.y as int, pos.z as int),
    {
        if pos.x < 0 || pos.x >= 16 || pos.y < 0 || pos.y >= 208 || pos.z < 0 || pos.z >= 16 {
            return 0;
        }
        self.blocks[Self::get_block_index(pos)]
    }

    /// Writes one block type at a local position inside the chunk. Light and
    /// mesh are left as they were: rebuilding them is the caller's decision.
    pub fn set_block(&mut self, pos: BlockPos, id: u8)
        requires
            old(self).wf(),
            in_chunk(pos.x as int, pos.y as int, pos.z as int),
        ensures
            final(self).wf(),
            final(self).blocks() == old(self).blocks().update(
                cell_index(pos.x as int, pos.y as int, pos.z as int),
                id,
            ),
            final(self).light() == old(self).light(),
            final(self).grid_pos() == old(self).grid_pos(),
            final(self).current_mesh() == old(self).current_mesh(),
    {
        let i = Self::get_block_index(pos);
        self.blocks.set(i, id);
    }



    /// Recomputes the whole light map from the current blocks by flooding
    /// sky light through air.
    pub fn calculate_lighting(&mut self)
        requires
            old(self).wf(),
        ensures
            final(self).wf(),
            final(self).blocks() == old(self).blocks(),
            final(self).grid_pos() == old(self).grid_pos(),
            final(self).current_mesh() == old(self).current_mesh(),
            light_settled(final(self).blocks(), final(self).light()),
    {
        let light = sky_light(&self.blocks);
        self.light_map = light;
    }


    /// The light level at a local position; positions outside the chunk read as full sky light.
    pub fn get_light(&self, pos: BlockPos) -> (r: u8)
        requires
            self.wf(),
        ensures
            r == self.light_at(pos.x as int, pos.y as int, pos.z as int),
    {
        if pos.x < 0 || pos.x >= 16 || pos.y < 0 || pos.y >= 208 || pos.z < 0 || pos.z >= 16 {
            return 15;
        }
        self.light_map[Self::get_block_index(pos)]
    }

}

} // verus!
