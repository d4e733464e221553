use vstd::prelude::*;
use crate::coords::{chunk_coord, local_coord, in_chunk, cell_index, world_to_local, lemma_world_to_local_round_trip, BlockPos, ChunkPos};
use crate::chunk::{terrain_of, valid_depths, Chunk};
use crate::lighting::light_settled;
use crate::mesh::{mesh_of, lemma_mesh_faces_look_onto_air};

verus! {

/// Why a block edit was refused.
#[derive(Clone, Copy, Debug, PartialEq, Eq, Structural)]
pub enum WorldError {
    /// The position lies in a chunk that was never generated.
    NoSuchChunk,
    /// The position lies above or below the vertical extent of its chunk.
    OutOfRange,
}

/// The chunk lies at grid position `(cx, cz)`.
pub open spec fn at_grid(c: Chunk, cx: int, cz: int) -> bool {
    c.grid_pos().x == cx && c.grid_pos().z == cz
}

/// All generated chunks, at most one per grid position.
pub struct World {
    chunks: Vec<Chunk>,
}

impl World {
    pub closed spec fn chunk_list(&self) -> Seq<Chunk> {
        self.chunks@
    }

    pub open spec fn wf(&self) -> bool {
        &&& forall|k: int| 0 <= k < self.chunk_list().len() ==> (#[trigger] self.chunk_list()[k]).wf()
        &&& forall|a: int, b: int|
            0 <= a < self.chunk_list().len() && 0 <= b < self.chunk_list().len() && a != b
                ==> #[trigger] self.chunk_list()[a].grid_pos() != #[trigger] self.chunk_list()[b].grid_pos()
    }

    /// A chunk was generated at grid position `(cx, cz)`.
    pub open spec fn has_chunk(&self, cx: int, cz: int) -> bool {
        exists|k: int| 0 <= k < self.chunk_list().len() && at_grid(#[trigger] self.chunk_list()[k], cx, cz)
    }

    /// The chunk at grid position `(cx, cz)`, where there is one.
    pub open spec fn chunk_at(&self, cx: int, cz: int) -> Chunk {
        self.chunk_list()[choose|k: int| 0 <= k < self.chunk_list().len() && at_grid(#[trigger] self.chunk_list()[k], cx, cz)]
    }

    /// The block type at a world position: air wherever no chunk was generated.
    pub open spec fn block_at(&self, x: int, y: int, z: int) -> u8 {
        if self.has_chunk(chunk_coord(x), chunk_coord(z)) {
            self.chunk_at(chunk_coord(x), chunk_coord(z)).block_at(local_coord(x), y, local_coord(z))
        } else {
            0
        }
    }

    pub proof fn lemma_chunk_at(&self, k: int)
        requires
            self.wf(),
            0 <= k < self.chunk_list().len(),
        ensures
            self.has_chunk(self.chunk_list()[k].grid_pos().x as int, self.chunk_list()[k].grid_pos().z as int),
            self.chunk_at(self.chunk_list()[k].grid_pos().x as int, self.chunk_list()[k].grid_pos().z as int)
                == self.chunk_list()[k],
    {
        let cx = self.chunk_list()[k].grid_pos().x as int;
        let cz = self.chunk_list()[k].grid_pos().z as int;
        assert(at_grid(self.chunk_list()[k], cx, cz));
        let k2 = choose|k2: int| 0 <= k2 < self.chunk_list().len() && at_grid(#[trigger] self.chunk_list()[k2], cx, cz);
        if k2 != k {
            assert(self.chunk_list()[k2].grid_pos() == self.chunk_list()[k].grid_pos());
        }
    }

    /// A world with no chunks.
    pub fn new() -> (r: World)
        ensures
            r.wf(),
            r.chunk_list().len() == 0,
    {
        World { chunks: Vec::new() }
    }

    fn find_chunk(&self, pos: ChunkPos) -> (r: Option<usize>)
        ensures
            match r {
                Some(k) => k < self.chunk_list().len() && self.chunk_list()[k as int].grid_pos() == pos,
                None => !self.has_chunk(pos.x as int, pos.z as int),
            },
    {
        let mut k: usize = 0;
        while k < self.chunks.len()
            invariant
                k <= self.chunks@.len(),
                forall|j: int| 0 <= j < k ==> !at_grid(#[trigger] self.chunk_list()[j], pos.x as int, pos.z as int),
            decreases self.chunks@.len() - k,
        {
            let p = self.chunks[k].position();
            if p.x == pos.x && p.z == pos.z {
                return Some(k);
            }
            k = k + 1;
        }
        None
    }

    /// Generates the chunk at `pos` from per-column surface heights (indexed
    /// by `x + 16 * z`), settles its light, and puts it in the world in place
    /// of any chunk there before.
    pub fn insert_chunk(&mut self, pos: ChunkPos, heights: &Vec<i32>)
        requires
            old(self).wf(),
            heights@.len() == 256,
        ensures
            final(self).wf(),
            final(self).has_chunk(pos.x as int, pos.z as int),
            final(self).chunk_at(pos.x as int, pos.z as int).grid_pos() == pos,
            exists|depths: Seq<u8>|
                valid_depths(depths) && final(self).chunk_at(pos.x as int, pos.z as int).blocks()
                    == #[trigger] terrain_of(heights@, depths),
            light_settled(
                final(self).chunk_at(pos.x as int, pos.z as int).blocks(),
                final(self).chunk_at(pos.x as int, pos.z as int).light(),
            ),
            forall|cx: int, cz: int|
                !(cx == pos.x && cz == pos.z) ==> #[trigger] final(self).has_chunk(cx, cz) == old(self).has_chunk(cx, cz),
            forall|cx: int, cz: int|
                !(cx == pos.x && cz == pos.z) && old(self).has_chunk(cx, cz) ==> #[trigger] final(self).chunk_at(cx, cz)
                    == old(self).chunk_at(cx, cz),
    {
        let chunk = Chunk::new(pos, heights);
        let ghost old_list = self.chunks@;
        let ghost ins: int;
        match self.find_chunk(pos) {
            Some(k) => {
                let mut c = chunk;
                self.chunks.set_and_swap(k, &mut c);
                proof {
                    ins = k as int;
                }
            },
            None => {
                self.chunks.push(chunk);
                proof {
                    ins = old_list.len() as int;
                }
            },
        }
        proof {
            assert(self.chunk_list()[ins] == chunk);
            self.lemma_chunk_at(ins);
            assert forall|cx: int, cz: int|
                #![trigger self.has_chunk(cx, cz)]
                #![trigger self.chunk_at(cx, cz)]
                !(cx == pos.x && cz == pos.z) implies {
                &&& self.has_chunk(cx, cz) == old(self).has_chunk(cx, cz)
                &&& old(self).has_chunk(cx, cz) ==> self.chunk_at(cx, cz) == old(self).chunk_at(cx, cz)
            } by {
                if old(self).has_chunk(cx, cz) {
                    let k = choose|k: int| 0 <= k < old_list.len() && at_grid(#[trigger] old_list[k], cx, cz);
                    old(self).lemma_chunk_at(k);
                    assert(k != ins);
                    assert(self.chunk_list()[k] == old_list[k]);
                    self.lemma_chunk_at(k);
                }
                if self.has_chunk(cx, cz) {
                    let k = choose|k: int| 0 <= k < self.chunk_list().len() && at_grid(#[trigger] self.chunk_list()[k], cx, cz);
                    assert(k != ins);
                    assert(self.chunk_list()[k] == old_list[k]);
                }
            }
        }
    }

    /// The chunk at a grid position, if one was generated there.
    pub fn chunk(&self, pos: ChunkPos) -> (r: Option<&Chunk>)
        requires
            self.wf(),
        ensures
            match r {
                Some(c) => self.has_chunk(pos.x as int, pos.z as int) && *c == self.chunk_at(pos.x as int, pos.z as int),
                None => !self.has_chunk(pos.x as int, pos.z as int),
            },
    {
        match self.find_chunk(pos) {
            Some(k) => {
                proof {
                    self.lemma_chunk_at(k as int);
                }
                Some(&self.chunks[k])
            },
            None => None,
        }
    }

    /// The grid positions of all generated chunks.
    pub fn chunk_positions(&self) -> (r: Vec<ChunkPos>)
        ensures
            r@.len() == self.chunk_list().len(),
            forall|k: int| 0 <= k < r@.len() ==> #[trigger] r@[k] == self.chunk_list()[k].grid_pos(),
    {
        let mut r: Vec<ChunkPos> = Vec::new();
        let mut k: usize = 0;
        while k < self.chunks.len()
            invariant
                k <= self.chunks@.len(),
                r@.len() == k,
                forall|j: int| 0 <= j < k ==> #[trigger] r@[j] == self.chunk_list()[j].grid_pos(),
            decreases self.chunks@.len() - k,
        {
            r.push(self.chunks[k].position());
            k = k + 1;
        }
        r
    }

    /// The block type at a world position; air wherever no chunk was generated.
    pub fn get_block(&self, world_pos: BlockPos) -> (r: u8)
        requires
            self.wf(),
        ensures
            r == self.block_at(world_pos.x as int, world_pos.y as int, world_pos.z as int),
    {
        let (cp, local) = world_to_local(world_pos);
        match self.find_chunk(cp) {
            Some(k) => {
                proof {
                    self.lemma_chunk_at(k as int);
                }
                self.chunks[k].get_block(local)
            },
            None => 0,
        }
    }

    /// Writes a block type at a world position, then recomputes the owning
    /// chunk's light and rebuilds its mesh before returning.
    pub fn set_block(&mut self, world_pos: BlockPos, id: u8) -> (r: Result<(), WorldError>)
        requires
            old(self).wf(),
        ensures
            final(self).wf(),
            ({
                let x = world_pos.x as int;
                let y = world_pos.y as int;
                let z = world_pos.z as int;
                let cx = chunk_coord(x);
                let cz = chunk_coord(z);
                &&& (r == Err::<(), WorldError>(WorldError::NoSuchChunk)) <==> !old(self).has_chunk(cx, cz)
                &&& (r == Err::<(), WorldError>(WorldError::OutOfRange)) <==> (old(self).has_chunk(cx, cz) && !(0 <= y < 208))
                &&& r is Err ==> final(self).chunk_list() == old(self).chunk_list()
                &&& r is Ok ==> {
                    &&& final(self).block_at(x, y, z) == id
                    &&& forall|x2: int, y2: int, z2: int| !(x2 == x && y2 == y && z2 == z)
                        ==> #[trigger] final(self).block_at(x2, y2, z2) == old(self).block_at(x2, y2, z2)
                    &&& light_settled(final(self).chunk_at(cx, cz).blocks(), final(self).chunk_at(cx, cz).light())
                    &&& final(self).chunk_at(cx, cz).current_mesh() matches Some(m)
                        && mesh_of(m, final(self).chunk_at(cx, cz).blocks(), final(self).chunk_at(cx, cz).light())
                    &&& forall|cx2: int, cz2: int| #[trigger] final(self).has_chunk(cx2, cz2) == old(self).has_chunk(cx2, cz2)
                    &&& forall|cx2: int, cz2: int| !(cx2 == cx && cz2 == cz) && old(self).has_chunk(cx2, cz2)
                        ==> #[trigger] final(self).chunk_at(cx2, cz2) == old(self).chunk_at(cx2, cz2)
                }
            }),
    {
        let (cp, local) = world_to_local(world_pos);
        proof {
            lemma_world_to_local_round_trip(world_pos);
        }
        match self.find_chunk(cp) {
            None => Err(WorldError::NoSuchChunk),
            Some(k) => {
                if world_pos.y < 0 || world_pos.y >= 208 {
                    proof {
                        self.lemma_chunk_at(k as int);
                    }
                    return Err(WorldError::OutOfRange);
                }
                let ghost old_list = self.chunks@;
                let mut chunk = Chunk::vacant(cp);
                self.chunks.set_and_swap(k, &mut chunk);
                chunk.set_block(local, id);
                chunk.calculate_lighting();
                chunk.reload_chunk();
                self.chunks.set_and_swap(k, &mut chunk);
                proof {
                    let ki = k as int;
                    assert(self.chunk_list() == old_list.update(ki, self.chunk_list()[ki]));
                    assert(self.chunk_list()[ki].grid_pos() == old_list[ki].grid_pos());
                    assert(self.wf());
                    self.lemma_chunk_at(ki);
                    old(self).lemma_chunk_at(ki);
                    self.lemma_edit_frame(*old(self), ki);
                    let cx = chunk_coord(world_pos.x as int);
                    let cz = chunk_coord(world_pos.z as int);
                    let li = cell_index(local.x as int, local.y as int, local.z as int);
                    assert forall|x2: int, y2: int, z2: int| !(x2 == world_pos.x && y2 == world_pos.y && z2 == world_pos.z)
                        implies #[trigger] self.block_at(x2, y2, z2) == old(self).block_at(x2, y2, z2) by {
                        let cx2 = chunk_coord(x2);
                        let cz2 = chunk_coord(z2);
                        if cx2 == cx && cz2 == cz && in_chunk(local_coord(x2), y2, local_coord(z2)) {
                            assert(x2 == cx2 * 16 + local_coord(x2) && z2 == cz2 * 16 + local_coord(z2)) by {
                                assert(x2 == (x2 / 16) * 16 + x2 % 16) by (nonlinear_arith);
                                assert(z2 == (z2 / 16) * 16 + z2 % 16) by (nonlinear_arith);
                            }
                            if cell_index(local_coord(x2), y2, local_coord(z2)) == li {
                                crate::coords::lemma_cell_index_injective(
                                    local_coord(x2), y2, local_coord(z2), local.x as int, local.y as int, local.z as int);
                            }
                        }
                    }
                }
                Ok(())
            },
        }
    }

    /// Rebuilds the mesh of every chunk from its blocks and light.
    pub fn reload_world(&mut self)
        requires
            old(self).wf(),
        ensures
            final(self).wf(),
            final(self).chunk_list().len() == old(self).chunk_list().len(),
            forall|k: int| 0 <= k < final(self).chunk_list().len() ==> {
                &&& (#[trigger] final(self).chunk_list()[k]).blocks() == old(self).chunk_list()[k].blocks()
                &&& final(self).chunk_list()[k].light() == old(self).chunk_list()[k].light()
                &&& final(self).chunk_list()[k].grid_pos() == old(self).chunk_list()[k].grid_pos()
                &&& final(self).chunk_list()[k].current_mesh() matches Some(m)
                    && mesh_of(m, final(self).chunk_list()[k].blocks(), final(self).chunk_list()[k].light())
            },
    {
        let ghost old_list = self.chunks@;
        let mut k: usize = 0;
        while k < self.chunks.len()
            invariant
                k <= self.chunks@.len(),
                self.chunks@.len() == old_list.len(),
                old_list == old(self).chunk_list(),
                old(self).wf(),
                forall|j: int| k <= j < old_list.len() ==> #[trigger] self.chunks@[j] == old_list[j],
                forall|j: int| 0 <= j < k ==> {
                    &&& (#[trigger] self.chunks@[j]).wf()
                    &&& self.chunks@[j].blocks() == old_list[j].blocks()
                    &&& self.chunks@[j].light() == old_list[j].light()
                    &&& self.chunks@[j].grid_pos() == old_list[j].grid_pos()
                    &&& self.chunks@[j].current_mesh() matches Some(m)
                        && mesh_of(m, self.chunks@[j].blocks(), self.chunks@[j].light())
                },
            decreases old_list.len() - k,
        {
            let mut chunk = Chunk::vacant(ChunkPos { x: 0, z: 0 });
            self.chunks.set_and_swap(k, &mut chunk);
            assert(chunk == old_list[k as int]);
            assert(chunk.wf());
            chunk.reload_chunk();
            self.chunks.set_and_swap(k, &mut chunk);
            k = k + 1;
        }
        proof {
            assert forall|a: int, b: int|
                0 <= a < self.chunk_list().len() && 0 <= b < self.chunk_list().len() && a != b
                    implies #[trigger] self.chunk_list()[a].grid_pos() != #[trigger] self.chunk_list()[b].grid_pos() by {
                assert(old_list[a].grid_pos() != old_list[b].grid_pos());
            }
        }
    }

    /// Outside the generated chunks the world is air.
    pub proof fn lemma_missing_chunk_is_air(&self, x: int, y: int, z: int)
        requires
            !self.has_chunk(chunk_coord(x), chunk_coord(z)),
        ensures
            self.block_at(x, y, z) == 0,
    {
    }

    /// Once a world position holds air and its chunk's mesh has been rebuilt
    /// (as `set_block` does), no face of that mesh belongs to the position.
    pub proof fn lemma_cleared_block_has_no_faces(&self, x: int, y: int, z: int)
        requires
            self.wf(),
            self.has_chunk(chunk_coord(x), chunk_coord(z)),
            self.block_at(x, y, z) == 0,
            self.chunk_at(chunk_coord(x), chunk_coord(z)).current_mesh() is Some,
            mesh_of(
                self.chunk_at(chunk_coord(x), chunk_coord(z)).current_mesh().unwrap(),
                self.chunk_at(chunk_coord(x), chunk_coord(z)).blocks(),
                self.chunk_at(chunk_coord(x), chunk_coord(z)).light(),
            ),
        ensures
            forall|j: int|
                0 <= j < self.chunk_at(chunk_coord(x), chunk_coord(z)).current_mesh().unwrap().faces@.len() ==> {
                    let b = (#[trigger] self.chunk_at(chunk_coord(x), chunk_coord(z)).current_mesh().unwrap().faces@[j]).block;
                    !(b.x == local_coord(x) && b.y == y && b.z == local_coord(z))
                },
    {
        let c = self.chunk_at(chunk_coord(x), chunk_coord(z));
        let k = choose|k: int| 0 <= k < self.chunk_list().len() && at_grid(#[trigger] self.chunk_list()[k], chunk_coord(x), chunk_coord(z));
        assert(c.wf());
        let m = c.current_mesh().unwrap();
        assert forall|j: int| 0 <= j < m.faces@.len() implies {
            let b = (#[trigger] m.faces@[j]).block;
            !(b.x == local_coord(x) && b.y == y && b.z == local_coord(z))
        } by {
            lemma_mesh_faces_look_onto_air(m, c.blocks(), c.light(), j);
        }
    }

    proof fn lemma_edit_frame(&self, before: World, k: int)
        requires
            before.wf(),
            self.wf(),
            0 <= k < before.chunk_list().len(),
            self.chunk_list().len() == before.chunk_list().len(),
            forall|j: int| 0 <= j < self.chunk_list().len() && j != k ==> self.chunk_list()[j] == before.chunk_list()[j],
            self.chunk_list()[k].grid_pos() == before.chunk_list()[k].grid_pos(),
        ensures
            forall|cx2: int, cz2: int| #[trigger] self.has_chunk(cx2, cz2) == before.has_chunk(cx2, cz2),
            forall|cx2: int, cz2: int|
                !(cx2 == before.chunk_list()[k].grid_pos().x && cz2 == before.chunk_list()[k].grid_pos().z)
                    && before.has_chunk(cx2, cz2) ==> #[trigger] self.chunk_at(cx2, cz2) == before.chunk_at(cx2, cz2),
    {
        assert forall|cx2: int, cz2: int| #[trigger] self.has_chunk(cx2, cz2) == before.has_chunk(cx2, cz2) by {
            if before.has_chunk(cx2, cz2) {
                let j = choose|j: int| 0 <= j < before.chunk_list().len() && at_grid(#[trigger] before.chunk_list()[j], cx2, cz2);
                assert(at_grid(self.chunk_list()[j], cx2, cz2));
            }
            if self.has_chunk(cx2, cz2) {
                let j = choose|j: int| 0 <= j < self.chunk_list().len() && at_grid(#[trigger] self.chunk_list()[j], cx2, cz2);
                assert(at_grid(before.chunk_list()[j], cx2, cz2));
            }
        }
        assert forall|cx2: int, cz2: int|
            !(cx2 == before.chunk_list()[k].grid_pos().x && cz2 == before.chunk_list()[k].grid_pos().z)
                && before.has_chunk(cx2, cz2) implies #[trigger] self.chunk_at(cx2, cz2) == before.chunk_at(cx2, cz2) by {
            let j = choose|j: int| 0 <= j < before.chunk_list().len() && at_grid(#[trigger] before.chunk_list()[j], cx2, cz2);
            before.lemma_chunk_at(j);
            self.lemma_chunk_at(j);
        }
    }
}

} // verus!
