use vstd::prelude::*;
use crate::coords::{in_chunk, cell_index, lemma_cell_index_injective, index_x, index_y, index_z, lemma_index_cell, lemma_cell_index_bounds, BlockPos, CHUNK_VOLUME};
use crate::chunk::{block_in, light_in};

verus! {

/// The six faces of a block, in the order in which the mesh builder tests them.
#[derive(Clone, Copy, Debug, PartialEq, Eq, Structural)]
pub enum Face {
    /// Facing +z.
    Front,
    /// Facing -z.
    Back,
    /// Facing +y.
    Top,
    /// Facing -y.
    Bottom,
    /// Facing -x.
    Left,
    /// Facing +x.
    Right,
}

pub open spec fn face_of(k: int) -> Face {
    if k == 0 {
        Face::Front
    } else if k == 1 {
        Face::Back
    } else if k == 2 {
        Face::Top
    } else if k == 3 {
        Face::Bottom
    } else if k == 4 {
        Face::Left
    } else {
        Face::Right
    }
}

/// Outward normal of a face.
pub open spec fn normal(f: Face) -> (int, int, int) {
    match f {
        Face::Front => (0, 0, 1),
        Face::Back => (0, 0, -1),
        Face::Top => (0, 1, 0),
        Face::Bottom => (0, -1, 0),
        Face::Left => (-1, 0, 0),
        Face::Right => (1, 0, 0),
    }
}

/// First in-plane axis of a face, oriented so that corners run counter-clockwise seen from outside.
pub open spec fn tangent_u(f: Face) -> (int, int, int) {
    match f {
        Face::Front => (1, 0, 0),
        Face::Back => (-1, 0, 0),
        Face::Top => (1, 0, 0),
        Face::Bottom => (1, 0, 0),
        Face::Left => (0, 0, 1),
        Face::Right => (0, 0, -1),
    }
}

/// Second in-plane axis of a face.
pub open spec fn tangent_v(f: Face) -> (int, int, int) {
    match f {
        Face::Front => (0, 1, 0),
        Face::Back => (0, 1, 0),
        Face::Top => (0, 0, 1),
        Face::Bottom => (0, 0, -1),
        Face::Left => (0, 1, 0),
        Face::Right => (0, 1, 0),
    }
}

/// Side of corner `c` along the first axis: corners run (-,-), (+,-), (+,+), (-,+).
pub open spec fn sign_u(c: int) -> int {
    if c == 0 || c == 3 {
        -1
    } else {
        1
    }
}

/// Side of corner `c` along the second axis.
pub open spec fn sign_v(c: int) -> int {
    if c == 0 || c == 1 {
        -1
    } else {
        1
    }
}

/// Flat brightness of a face by orientation, in tenths: top 10, bottom 4, sides 8.
pub open spec fn face_shade(f: Face) -> u8 {
    match f {
        Face::Top => 10,
        Face::Bottom => 4,
        _ => 8,
    }
}

pub open spec fn solid_in(blocks: Seq<u8>, x: int, y: int, z: int) -> bool {
    block_in(blocks, x, y, z) != 0
}

/// Ambient-occlusion score of a corner from its two edge neighbours and its
/// diagonal neighbour: 3 when both edges are solid, else the number of solid ones.
pub open spec fn occlusion(side1: bool, side2: bool, corner: bool) -> u8 {
    if side1 && side2 {
        3
    } else {
        ((if side1 { 1u8 } else { 0u8 }) + (if side2 { 1u8 } else { 0u8 }) + (if corner { 1u8 } else { 0u8 })) as u8
    }
}

/// Occlusion of corner `c` of face `f`, sampled around the face's outward cell `(ax, ay, az)`.
pub open spec fn corner_occlusion(blocks: Seq<u8>, ax: int, ay: int, az: int, f: Face, c: int) -> u8 {
    let u = tangent_u(f);
    let v = tangent_v(f);
    let su = sign_u(c);
    let sv = sign_v(c);
    occlusion(
        solid_in(blocks, ax + su * u.0, ay + su * u.1, az + su * u.2),
        solid_in(blocks, ax + sv * v.0, ay + sv * v.1, az + sv * v.2),
        solid_in(blocks, ax + su * u.0 + sv * v.0, ay + su * u.1 + sv * v.1, az + su * u.2 + sv * v.2),
    )
}

/// One visible face of a block, with what shading it needs.
#[derive(Clone, Copy, Debug)]
pub struct MeshFace {
    /// The local position of the block that owns the face.
    pub block: BlockPos,
    pub face: Face,
    pub block_type: u8,
    /// Sky light of the cell just outside the face.
    pub light: u8,
    /// Ambient-occlusion score of each of the four corners, `0..=3`.
    pub occlusion: [u8; 4],
}

/// One corner of a face, ready to be turned into render data: a corner
/// position on the integer lattice, atlas coordinates in tile units, and
/// the factors of its brightness.
#[derive(Clone, Copy, Debug, PartialEq, Eq, Structural)]
pub struct MeshVertex {
    pub x: i32,
    pub y: i32,
    pub z: i32,
    /// Atlas column, in tiles (`0..=16`); the atlas is 16 tiles wide.
    pub u: u8,
    /// Atlas row, in tiles (`0..=16`).
    pub v: u8,
    /// Ambient-occlusion score `0..=3`: brightness factor `1 - occlusion / 4`.
    pub occlusion: u8,
    /// Sky light `0..=15`: brightness factor `light / 15`.
    pub light: u8,
    /// Face brightness in tenths.
    pub shade: u8,
}

/// The face record that the mesh holds for face `k` of cell `i`.
pub open spec fn face_matches(m: MeshFace, blocks: Seq<u8>, light: Seq<u8>, i: int, k: int) -> bool {
    let x = index_x(i);
    let y = index_y(i);
    let z = index_z(i);
    let f = face_of(k);
    let n = normal(f);
    &&& m.block.x == x && m.block.y == y && m.block.z == z
    &&& m.face == f
    &&& m.block_type == blocks[i]
    &&& m.light == light_in(light, x + n.0, y + n.1, z + n.2)
    &&& forall|c: int| 0 <= c < 4 ==> #[trigger] m.occlusion[c] == corner_occlusion(blocks, x + n.0, y + n.1, z + n.2, f, c)
}

/// Face `k` of cell `i` is emitted when the cell is solid and the cell beyond that face is air.
pub open spec fn face_visible(blocks: Seq<u8>, i: int, k: int) -> bool {
    let n = normal(face_of(k));
    blocks[i] != 0 && block_in(blocks, index_x(i) + n.0, index_y(i) + n.1, index_z(i) + n.2) == 0
}

/// The visible faces among the first `k` faces of cell `i`, as `(cell, face)` pairs.
pub open spec fn cell_faces(blocks: Seq<u8>, i: int, k: int) -> Seq<(int, int)>
    decreases k,
{
    if k <= 0 {
        Seq::empty()
    } else if face_visible(blocks, i, k - 1) {
        cell_faces(blocks, i, k - 1).push((i, k - 1))
    } else {
        cell_faces(blocks, i, k - 1)
    }
}

/// The visible faces of the first `n` cells in linear order, as `(cell, face)` pairs.
pub open spec fn visible_faces(blocks: Seq<u8>, n: int) -> Seq<(int, int)>
    decreases n,
{
    if n <= 0 {
        Seq::empty()
    } else {
        visible_faces(blocks, n - 1) + cell_faces(blocks, n - 1, 6)
    }
}

/// The corner `c` of face `m` as a vertex.
pub open spec fn vertex_of(m: MeshFace, c: int) -> MeshVertex {
    let n = normal(m.face);
    let u = tangent_u(m.face);
    let v = tangent_v(m.face);
    let su = sign_u(c);
    let sv = sign_v(c);
    let tile = m.block_type - 1;
    MeshVertex {
        x: (m.block.x + (1 + n.0 + su * u.0 + sv * v.0) / 2) as i32,
        y: (m.block.y + (1 + n.1 + su * u.1 + sv * v.1) / 2) as i32,
        z: (m.block.z + (1 + n.2 + su * u.2 + sv * v.2) / 2) as i32,
        u: (tile % 16 + (if su > 0 { 1int } else { 0int })) as u8,
        v: (tile / 16 + (if sv > 0 { 1int } else { 0int })) as u8,
        occlusion: m.occlusion[c],
        light: m.light,
        shade: face_shade(m.face),
    }
}

/// Offset of index `m` (of six) within a face's two triangles `0,1,2, 2,3,0`.
pub open spec fn triangle_corner(m: int) -> int {
    if m == 0 || m == 5 {
        0
    } else if m == 1 {
        1
    } else if m == 2 || m == 3 {
        2
    } else {
        3
    }
}

/// The geometry of a chunk: its visible faces, four vertices per face and
/// two triangles per face.
pub struct ChunkMesh {
    pub faces: Vec<MeshFace>,
    pub vertices: Vec<MeshVertex>,
    pub indices: Vec<u32>,
}

/// The mesh is the one that the block types and light levels give.
pub open spec fn mesh_of(mesh: ChunkMesh, blocks: Seq<u8>, light: Seq<u8>) -> bool {
    let keys = visible_faces(blocks, 53248);
    &&& mesh.faces@.len() == keys.len()
    &&& forall|j: int| 0 <= j < keys.len() ==> face_matches(#[trigger] mesh.faces@[j], blocks, light, keys[j].0, keys[j].1)
    &&& mesh.vertices@.len() == 4 * mesh.faces@.len()
    &&& forall|j: int, c: int| 0 <= j < mesh.faces@.len() && 0 <= c < 4 ==> #[trigger] mesh.vertices@[4 * j + c] == vertex_of(mesh.faces@[j], c)
    &&& mesh.indices@.len() == 6 * mesh.faces@.len()
    &&& forall|j: int, m: int| 0 <= j < mesh.faces@.len() && 0 <= m < 6 ==> #[trigger] mesh.indices@[6 * j + m] == 4 * j + triangle_corner(m)
}

proof fn lemma_air_cell_has_no_faces(blocks: Seq<u8>, i: int, k: int)
    requires
        blocks[i] == 0,
    ensures
        cell_faces(blocks, i, k) == Seq::<(int, int)>::empty(),
    decreases k,
{
    if k > 0 {
        lemma_air_cell_has_no_faces(blocks, i, k - 1);
    }
}

proof fn lemma_cell_faces_keys(blocks: Seq<u8>, i: int, k: int)
    requires
        0 <= k <= 6,
    ensures
        forall|j: int| 0 <= j < cell_faces(blocks, i, k).len() ==> {
            &&& #[trigger] cell_faces(blocks, i, k)[j].0 == i
            &&& 0 <= cell_faces(blocks, i, k)[j].1 < 6
            &&& face_visible(blocks, i, cell_faces(blocks, i, k)[j].1)
        },
    decreases k,
{
    if k > 0 {
        lemma_cell_faces_keys(blocks, i, k - 1);
        let a = cell_faces(blocks, i, k - 1);
        assert forall|j: int| 0 <= j < cell_faces(blocks, i, k).len() implies {
            &&& #[trigger] cell_faces(blocks, i, k)[j].0 == i
            &&& 0 <= cell_faces(blocks, i, k)[j].1 < 6
            &&& face_visible(blocks, i, cell_faces(blocks, i, k)[j].1)
        } by {
            if j < a.len() {
                assert(cell_faces(blocks, i, k)[j] == a[j]);
            }
        }
    }
}

proof fn lemma_visible_faces_keys(blocks: Seq<u8>, n: int)
    requires
        n >= 0,
    ensures
        forall|j: int| 0 <= j < visible_faces(blocks, n).len() ==> {
            &&& 0 <= #[trigger] visible_faces(blocks, n)[j].0 < n
            &&& 0 <= visible_faces(blocks, n)[j].1 < 6
            &&& face_visible(blocks, visible_faces(blocks, n)[j].0, visible_faces(blocks, n)[j].1)
        },
    decreases n,
{
    if n > 0 {
        lemma_visible_faces_keys(blocks, n - 1);
        lemma_cell_faces_keys(blocks, n - 1, 6);
        let a = visible_faces(blocks, n - 1);
        let b = cell_faces(blocks, n - 1, 6);
        assert forall|j: int| 0 <= j < visible_faces(blocks, n).len() implies {
            &&& 0 <= #[trigger] visible_faces(blocks, n)[j].0 < n
            &&& 0 <= visible_faces(blocks, n)[j].1 < 6
            &&& face_visible(blocks, visible_faces(blocks, n)[j].0, visible_faces(blocks, n)[j].1)
        } by {
            if j < a.len() {
                assert(visible_faces(blocks, n)[j] == a[j]);
            } else {
                assert(visible_faces(blocks, n)[j] == b[j - a.len()]);
            }
        }
    }
}

fn block_at_exec(blocks: &Vec<u8>, x: i32, y: i32, z: i32) -> (r: u8)
    requires
        blocks@.len() == 53248,
    ensures
        r == block_in(blocks@, x as int, y as int, z as int),
{
    if x < 0 || x >= 16 || y < 0 || y >= 208 || z < 0 || z >= 16 {
        return 0;
    }
    proof {
        lemma_cell_index_bounds(x as int, y as int, z as int);
    }
    blocks[(x + z * 16 + y * 256) as usize]
}

fn light_at_exec(light: &Vec<u8>, x: i32, y: i32, z: i32) -> (r: u8)
    requires
        light@.len() == 53248,
    ensures
        r == light_in(light@, x as int, y as int, z as int),
{
    if x < 0 || x >= 16 || y < 0 || y >= 208 || z < 0 || z >= 16 {
        return 15;
    }
    proof {
        lemma_cell_index_bounds(x as int, y as int, z as int);
    }
    light[(x + z * 16 + y * 256) as usize]
}

/// The face tested `k`-th, with its normal and its two in-plane axes.
fn face_axes(k: usize) -> (r: (Face, (i32, i32, i32), (i32, i32, i32), (i32, i32, i32)))
    requires
        k < 6,
    ensures
        r.0 == face_of(k as int),
        (r.1.0 as int, r.1.1 as int, r.1.2 as int) == normal(r.0),
        (r.2.0 as int, r.2.1 as int, r.2.2 as int) == tangent_u(r.0),
        (r.3.0 as int, r.3.1 as int, r.3.2 as int) == tangent_v(r.0),
{
    if k == 0 {
        (Face::Front, (0, 0, 1), (1, 0, 0), (0, 1, 0))
    } else if k == 1 {
        (Face::Back, (0, 0, -1), (-1, 0, 0), (0, 1, 0))
    } else if k == 2 {
        (Face::Top, (0, 1, 0), (1, 0, 0), (0, 0, 1))
    } else if k == 3 {
        (Face::Bottom, (0, -1, 0), (1, 0, 0), (0, 0, -1))
    } else if k == 4 {
        (Face::Left, (-1, 0, 0), (0, 0, 1), (0, 1, 0))
    } else {
        (Face::Right, (1, 0, 0), (0, 0, -1), (0, 1, 0))
    }
}

fn vertex_ao(side1: bool, side2: bool, corner: bool) -> (r: u8)
    ensures
        r == occlusion(side1, side2, corner),
{
    if side1 && side2 {
        3
    } else {
        let mut occ: u8 = 0;
        if side1 {
            occ = occ + 1;
        }
        if side2 {
            occ = occ + 1;
        }
        if corner {
            occ = occ + 1;
        }
        occ
    }
}

/// `s` times an axis, for a sign `s`.
fn scaled(s: i32, a: (i32, i32, i32)) -> (r: (i32, i32, i32))
    requires
        s == 1 || s == -1,
        -1 <= a.0 <= 1 && -1 <= a.1 <= 1 && -1 <= a.2 <= 1,
    ensures
        r.0 == s * a.0 && r.1 == s * a.1 && r.2 == s * a.2,
        -1 <= r.0 <= 1 && -1 <= r.1 <= 1 && -1 <= r.2 <= 1,
{
    if s > 0 {
        a
    } else {
        (-a.0, -a.1, -a.2)
    }
}

fn corner_signs(c: usize) -> (r: (i32, i32))
    requires
        c < 4,
    ensures
        r.0 == sign_u(c as int),
        r.1 == sign_v(c as int),
{
    if c == 0 {
        (-1, -1)
    } else if c == 1 {
        (1, -1)
    } else if c == 2 {
        (1, 1)
    } else {
        (-1, 1)
    }
}

/// Builds the record of face `k` of the block at local `(x, y, z)`.
fn add_face(blocks: &Vec<u8>, light: &Vec<u8>, x: i32, y: i32, z: i32, k: usize) -> (r: MeshFace)
    requires
        blocks@.len() == 53248,
        light@.len() == 53248,
        0 <= x < 16 && 0 <= y < 208 && 0 <= z < 16,
        k < 6,
    ensures
        ({
            let i = x + z * 16 + y * 256;
            face_matches(r, blocks@, light@, i, k as int)
        }),
{
    let (face, n, u, v) = face_axes(k);
    let ax = x + n.0;
    let ay = y + n.1;
    let az = z + n.2;
    let mut occ: [u8; 4] = [0u8; 4];
    let mut c: usize = 0;
    while c < 4
        invariant
            blocks@.len() == 53248,
            c <= 4,
            -1 <= ax <= 16 && -1 <= ay <= 208 && -1 <= az <= 16,
            -1 <= u.0 <= 1 && -1 <= u.1 <= 1 && -1 <= u.2 <= 1,
            -1 <= v.0 <= 1 && -1 <= v.1 <= 1 && -1 <= v.2 <= 1,
            (u.0 as int, u.1 as int, u.2 as int) == tangent_u(face),
            (v.0 as int, v.1 as int, v.2 as int) == tangent_v(face),
            forall|cc: int| 0 <= cc < c ==> #[trigger] occ[cc] == corner_occlusion(blocks@, ax as int, ay as int, az as int, face, cc),
        decreases 4 - c,
    {
        let (su, sv) = corner_signs(c);
        let du = scaled(su, u);
        let dv = scaled(sv, v);
        let side1 = block_at_exec(blocks, ax + du.0, ay + du.1, az + du.2) != 0;
        let side2 = block_at_exec(blocks, ax + dv.0, ay + dv.1, az + dv.2) != 0;
        let corner = block_at_exec(blocks, ax + du.0 + dv.0, ay + du.1 + dv.1, az + du.2 + dv.2) != 0;
        occ[c] = vertex_ao(side1, side2, corner);
        c = c + 1;
    }
    proof {
        lemma_cell_index_bounds(x as int, y as int, z as int);
    }
    MeshFace {
        block: BlockPos { x, y, z },
        face,
        block_type: block_at_exec(blocks, x, y, z),
        light: light_at_exec(light, ax, ay, az),
        occlusion: occ,
    }
}

/// Finds the visible faces of every solid block, cell by cell in linear order.
fn visible_face_list(blocks: &Vec<u8>, light: &Vec<u8>) -> (faces: Vec<MeshFace>)
    requires
        blocks@.len() == 53248,
        light@.len() == 53248,
    ensures
        faces@.len() == visible_faces(blocks@, 53248).len(),
        faces@.len() <= 6 * 53248,
        forall|j: int| 0 <= j < faces@.len() ==> face_matches(#[trigger] faces@[j], blocks@, light@,
            visible_faces(blocks@, 53248)[j].0, visible_faces(blocks@, 53248)[j].1),
{
    let mut faces: Vec<MeshFace> = Vec::new();
    let mut i: usize = 0;
    while i < CHUNK_VOLUME
        invariant
            i <= 53248,
            blocks@.len() == 53248,
            light@.len() == 53248,
            faces@.len() == visible_faces(blocks@, i as int).len(),
            faces@.len() <= 6 * i,
            forall|j: int| 0 <= j < faces@.len() ==> face_matches(#[trigger] faces@[j], blocks@, light@,
                visible_faces(blocks@, i as int)[j].0, visible_faces(blocks@, i as int)[j].1),
        decreases 53248 - i,
    {
        let ghost before = visible_faces(blocks@, i as int);
        proof {
            lemma_index_cell(i as int);
        }
        let x = (i % 16) as i32;
        let z = ((i / 16) % 16) as i32;
        let y = (i / 256) as i32;
        if blocks[i] != 0 {
            let mut k: usize = 0;
            while k < 6
                invariant
                    i < 53248,
                    k <= 6,
                    blocks@.len() == 53248,
                    light@.len() == 53248,
                    blocks@[i as int] != 0,
                    x == index_x(i as int) && y == index_y(i as int) && z == index_z(i as int),
                    0 <= x < 16 && 0 <= y < 208 && 0 <= z < 16,
                    x + z * 16 + y * 256 == i,
                    before == visible_faces(blocks@, i as int),
                    faces@.len() == before.len() + cell_faces(blocks@, i as int, k as int).len(),
                    faces@.len() <= 6 * i + k,
                    forall|j: int| 0 <= j < faces@.len() ==> face_matches(#[trigger] faces@[j], blocks@, light@,
                        (before + cell_faces(blocks@, i as int, k as int))[j].0,
                        (before + cell_faces(blocks@, i as int, k as int))[j].1),
                decreases 6 - k,
            {
                let (_face, n, _u, _v) = face_axes(k);
                let ghost old_keys = before + cell_faces(blocks@, i as int, k as int);
                if block_at_exec(blocks, x + n.0, y + n.1, z + n.2) == 0 {
                    let f = add_face(blocks, light, x, y, z, k);
                    faces.push(f);
                    proof {
                        assert(before + cell_faces(blocks@, i as int, k + 1) =~= old_keys.push((i as int, k as int)));
                    }
                } else {
                    proof {
                        assert(before + cell_faces(blocks@, i as int, k + 1) =~= old_keys);
                    }
                }
                k = k + 1;
            }
        } else {
            proof {
                lemma_air_cell_has_no_faces(blocks@, i as int, 6);
                assert(before + cell_faces(blocks@, i as int, 6) =~= before);
            }
        }
        i = i + 1;
    }
    faces
}

/// The corner `c` of face `m` as a vertex.
fn face_vertex(m: &MeshFace, c: usize) -> (r: MeshVertex)
    requires
        0 <= m.block.x < 16 && 0 <= m.block.y < 208 && 0 <= m.block.z < 16,
        m.block_type >= 1,
        c < 4,
    ensures
        r == vertex_of(*m, c as int),
{
    let k: usize = match m.face {
        Face::Front => 0,
        Face::Back => 1,
        Face::Top => 2,
        Face::Bottom => 3,
        Face::Left => 4,
        Face::Right => 5,
    };
    let (_face, n, u, v) = face_axes(k);
    let (su, sv) = corner_signs(c);
    let du = scaled(su, u);
    let dv = scaled(sv, v);
    let tile = m.block_type - 1;
    MeshVertex {
        x: m.block.x + (1 + n.0 + du.0 + dv.0) / 2,
        y: m.block.y + (1 + n.1 + du.1 + dv.1) / 2,
        z: m.block.z + (1 + n.2 + du.2 + dv.2) / 2,
        u: tile % 16 + if su > 0 { 1 } else { 0 },
        v: tile / 16 + if sv > 0 { 1 } else { 0 },
        occlusion: m.occlusion[c],
        light: m.light,
        shade: match m.face {
            Face::Top => 10,
            Face::Bottom => 4,
            _ => 8,
        },
    }
}

/// Builds the mesh of a chunk from its block types and light levels: every
/// face of a solid block whose neighbour across it is air, with its corners'
/// ambient occlusion and the light outside it; four vertices and two
/// triangles per face.
pub fn build_mesh(blocks: &Vec<u8>, light: &Vec<u8>) -> (r: ChunkMesh)
    requires
        blocks@.len() == 53248,
        light@.len() == 53248,
    ensures
        mesh_of(r, blocks@, light@),
{
    let faces = visible_face_list(blocks, light);
    let ghost keys = visible_faces(blocks@, 53248);
    let mut vertices: Vec<MeshVertex> = Vec::new();
    let mut indices: Vec<u32> = Vec::new();
    let mut j: usize = 0;
    while j < faces.len()
        invariant
            j <= faces@.len(),
            faces@.len() <= 6 * 53248,
            faces@.len() == keys.len(),
            keys == visible_faces(blocks@, 53248),
            forall|jj: int| 0 <= jj < faces@.len() ==> face_matches(#[trigger] faces@[jj], blocks@, light@, keys[jj].0, keys[jj].1),
            vertices@.len() == 4 * j,
            indices@.len() == 6 * j,
            forall|jj: int, c: int| 0 <= jj < j && 0 <= c < 4 ==> #[trigger] vertices@[4 * jj + c] == vertex_of(faces@[jj], c),
            forall|jj: int, m: int| 0 <= jj < j && 0 <= m < 6 ==> #[trigger] indices@[6 * jj + m] == 4 * jj + triangle_corner(m),
        decreases faces@.len() - j,
    {
        let f = &faces[j];
        proof {
            assert(face_matches(faces@[j as int], blocks@, light@, keys[j as int].0, keys[j as int].1));
            lemma_visible_faces_keys(blocks@, 53248);
            lemma_index_cell(keys[j as int].0);
        }
        let mut c: usize = 0;
        while c < 4
            invariant
                j < faces@.len(),
                *f == faces@[j as int],
                0 <= f.block.x < 16 && 0 <= f.block.y < 208 && 0 <= f.block.z < 16,
                f.block_type >= 1,
                c <= 4,
                vertices@.len() == 4 * j + c,
                forall|jj: int, cc: int| 0 <= jj < j && 0 <= cc < 4 ==> #[trigger] vertices@[4 * jj + cc] == vertex_of(faces@[jj], cc),
                forall|cc: int| 0 <= cc < c ==> #[trigger] vertices@[4 * j + cc] == vertex_of(faces@[j as int], cc),
            decreases 4 - c,
        {
            vertices.push(face_vertex(f, c));
            c = c + 1;
        }
        let base: u32 = (4 * j) as u32;
        indices.push(base);
        indices.push(base + 1);
        indices.push(base + 2);
        indices.push(base + 2);
        indices.push(base + 3);
        indices.push(base);
        j = j + 1;
    }
    ChunkMesh { faces, vertices, indices }
}

proof fn lemma_only_one_solid(blocks: Seq<u8>, i: int, n: int)
    requires
        0 <= n,
        0 <= i,
        forall|j: int| 0 <= j < blocks.len() && j != i ==> blocks[j] == 0,
        n <= blocks.len(),
    ensures
        visible_faces(blocks, n) == if n > i { cell_faces(blocks, i, 6) } else { Seq::<(int, int)>::empty() },
    decreases n,
{
    if n > 0 {
        lemma_only_one_solid(blocks, i, n - 1);
        if n - 1 != i {
            lemma_air_cell_has_no_faces(blocks, n - 1, 6);
            assert(visible_faces(blocks, n - 1) + cell_faces(blocks, n - 1, 6) =~= visible_faces(blocks, n - 1));
        } else {
            assert(Seq::<(int, int)>::empty() + cell_faces(blocks, i, 6) =~= cell_faces(blocks, i, 6));
        }
    }
}

/// A lone solid block in a chunk of air shows all six faces: 6 faces,
/// 24 vertices and 36 indices.
pub proof fn lemma_single_block_mesh(mesh: ChunkMesh, blocks: Seq<u8>, light: Seq<u8>, i: int)
    requires
        blocks.len() == 53248,
        mesh_of(mesh, blocks, light),
        0 <= i < 53248,
        blocks[i] != 0,
        forall|j: int| 0 <= j < 53248 && j != i ==> blocks[j] == 0,
    ensures
        mesh.faces@.len() == 6,
        mesh.vertices@.len() == 24,
        mesh.indices@.len() == 36,
{
    lemma_only_one_solid(blocks, i, 53248);
    lemma_index_cell(i);
    let x = index_x(i);
    let y = index_y(i);
    let z = index_z(i);
    assert forall|k: int| 0 <= k < 6 implies face_visible(blocks, i, k) by {
        let n = normal(face_of(k));
        if in_chunk(x + n.0, y + n.1, z + n.2) {
            lemma_cell_index_bounds(x + n.0, y + n.1, z + n.2);
            if cell_index(x + n.0, y + n.1, z + n.2) == i {
                lemma_cell_index_injective(x + n.0, y + n.1, z + n.2, x, y, z);
            }
        }
    }
    assert(face_visible(blocks, i, 0) && face_visible(blocks, i, 1) && face_visible(blocks, i, 2));
    assert(face_visible(blocks, i, 3) && face_visible(blocks, i, 4) && face_visible(blocks, i, 5));
    assert(cell_faces(blocks, i, 0).len() == 0);
    assert(cell_faces(blocks, i, 1).len() == 1);
    assert(cell_faces(blocks, i, 2).len() == 2);
    assert(cell_faces(blocks, i, 3).len() == 3);
    assert(cell_faces(blocks, i, 4).len() == 4);
    assert(cell_faces(blocks, i, 5).len() == 5);
    assert(cell_faces(blocks, i, 6).len() == 6);
}

/// Every face in a mesh belongs to a solid block and looks onto air; so a
/// face shared by two solid blocks is emitted by neither.
pub proof fn lemma_mesh_faces_look_onto_air(mesh: ChunkMesh, blocks: Seq<u8>, light: Seq<u8>, j: int)
    requires
        blocks.len() == 53248,
        mesh_of(mesh, blocks, light),
        0 <= j < mesh.faces@.len(),
    ensures
        ({
            let f = mesh.faces@[j];
            let n = normal(f.face);
            &&& block_in(blocks, f.block.x as int, f.block.y as int, f.block.z as int) != 0
            &&& block_in(blocks, f.block.x + n.0, f.block.y + n.1, f.block.z + n.2) == 0
        }),
{
    lemma_visible_faces_keys(blocks, 53248);
    let key = visible_faces(blocks, 53248)[j];
    lemma_index_cell(key.0);
    assert(face_matches(mesh.faces@[j], blocks, light, key.0, key.1));
}

} // verus!
