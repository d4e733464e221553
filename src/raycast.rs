use vstd::prelude::*;
use crate::coords::{BlockPos, FixedVec3, SUBUNITS};
use crate::world::World;

verus! {

/// The block a ray struck, and the empty cell it passed through just before.
#[derive(Clone, Copy, Debug, PartialEq, Eq, Structural)]
pub struct BlockRaycast {
    pub block_pos: BlockPos,
    pub prev_block_pos: BlockPos,
}

/// Limits that keep every quantity of a cast within machine integers:
/// origins within about a billion blocks, direction components within
/// about a thousand blocks, and a reach of at most about a thousand blocks.
pub open spec fn ray_in_range(origin: FixedVec3, direction: FixedVec3, max_distance: i64) -> bool {
    &&& -0x100_0000_0000 <= origin.x <= 0x100_0000_0000
    &&& -0x100_0000_0000 <= origin.y <= 0x100_0000_0000
    &&& -0x100_0000_0000 <= origin.z <= 0x100_0000_0000
    &&& -0x10_0000 <= direction.x <= 0x10_0000
    &&& -0x10_0000 <= direction.y <= 0x10_0000
    &&& -0x10_0000 <= direction.z <= 0x10_0000
    &&& 0 <= max_distance <= 0x10_0000
}

pub open spec fn abs(v: int) -> int {
    if v < 0 {
        -v
    } else {
        v
    }
}

/// The cell step along an axis: -1 for a negative component, else +1.
pub open spec fn axis_step(d: int) -> int {
    if d < 0 {
        -1
    } else {
        1
    }
}

/// Fixed-point distance from the origin to the first cell boundary along an
/// axis; divided by `|d|` it is the ray parameter at which the boundary is met.
pub open spec fn first_boundary(o: int, d: int) -> int {
    if d < 0 {
        o - (o / 1000) * 1000
    } else {
        (o / 1000 + 1) * 1000 - o
    }
}

/// The ray meets boundary `na / |da|` no later than `nb / |db|`; an axis
/// that the ray does not move along meets its boundary never.
pub open spec fn meets_no_later(na: int, da: int, nb: int, db: int) -> bool {
    if da == 0 {
        false
    } else if db == 0 {
        true
    } else {
        na * abs(db) <= nb * abs(da)
    }
}

/// The ray parameter `n / |d|` lies below the reach `m / 1000`.
pub open spec fn within_reach(n: int, d: int, m: int) -> bool {
    d != 0 && n * 1000 < m * abs(d)
}

/// The state of a voxel traversal: the current cell, the fixed-point
/// distances to the next boundary on each axis, the face normal crossed
/// last, and whether the distance travelled is still below the reach.
pub type RayState = ((int, int, int), (int, int, int), (int, int, int), bool);

pub open spec fn ray_start(o: FixedVec3, d: FixedVec3, m: int) -> RayState {
    (
        (o.x as int / 1000, o.y as int / 1000, o.z as int / 1000),
        (first_boundary(o.x as int, d.x as int), first_boundary(o.y as int, d.y as int), first_boundary(o.z as int, d.z as int)),
        (0, 0, 0),
        0 < m,
    )
}

/// One step of the traversal: advance along the axis whose boundary comes
/// first (ties go to x, then y, then z), record the distance travelled and
/// the face crossed.
pub open spec fn ray_step(s: RayState, d: FixedVec3, m: int) -> RayState {
    let (c, n, _f, _w) = s;
    if meets_no_later(n.0, d.x as int, n.1, d.y as int) && meets_no_later(n.0, d.x as int, n.2, d.z as int) {
        let st = axis_step(d.x as int);
        ((c.0 + st, c.1, c.2), (n.0 + 1000, n.1, n.2), (-st, 0, 0), within_reach(n.0, d.x as int, m))
    } else if meets_no_later(n.1, d.y as int, n.2, d.z as int) {
        let st = axis_step(d.y as int);
        ((c.0, c.1 + st, c.2), (n.0, n.1 + 1000, n.2), (0, -st, 0), within_reach(n.1, d.y as int, m))
    } else {
        let st = axis_step(d.z as int);
        ((c.0, c.1, c.2 + st), (n.0, n.1, n.2 + 1000), (0, 0, -st), within_reach(n.2, d.z as int, m))
    }
}

/// The traversal after `k` steps.
pub open spec fn ray_state(o: FixedVec3, d: FixedVec3, m: int, k: nat) -> RayState
    decreases k,
{
    if k == 0 {
        ray_start(o, d, m)
    } else {
        ray_step(ray_state(o, d, m, (k - 1) as nat), d, m)
    }
}

/// The cells of the first `k + 1` states were all reached within the reach.
pub open spec fn reached(o: FixedVec3, d: FixedVec3, m: int, k: nat) -> bool {
    forall|j: nat| j <= k ==> (#[trigger] ray_state(o, d, m, j)).3
}

pub open spec fn cell_solid(w: World, c: (int, int, int)) -> bool {
    w.block_at(c.0, c.1, c.2) != 0
}

/// The traversal reaches state `k`, every cell before it is air, and the cell of state `k` is solid.
pub open spec fn first_hit(w: World, o: FixedVec3, d: FixedVec3, m: int, k: nat) -> bool {
    &&& reached(o, d, m, k)
    &&& forall|j: nat| j < k ==> !cell_solid(w, (#[trigger] ray_state(o, d, m, j)).0)
    &&& cell_solid(w, ray_state(o, d, m, k).0)
}

/// What is left of the reach along one axis, in units that shrink by
/// `1000 * 1000` with each step along that axis.
pub open spec fn reach_left(n: int, d: int, m: int) -> int {
    if d != 0 && n * 1000 < m * abs(d) {
        m * abs(d) - n * 1000
    } else {
        0
    }
}

/// `hit` reports the cell of traversal state `k` as struck, and the cell
/// across the face crossed last as the placement cell; state `k` is the
/// first solid one.
pub open spec fn hit_at(w: World, o: FixedVec3, d: FixedVec3, m: int, k: int, hit: BlockRaycast) -> bool {
    let s = ray_state(o, d, m, k as nat);
    &&& k >= 0
    &&& first_hit(w, o, d, m, k as nat)
    &&& hit.block_pos.x == s.0.0 && hit.block_pos.y == s.0.1 && hit.block_pos.z == s.0.2
    &&& hit.prev_block_pos.x == s.0.0 + s.2.0
    &&& hit.prev_block_pos.y == s.0.1 + s.2.1
    &&& hit.prev_block_pos.z == s.0.2 + s.2.2
}

/// What a cast returns: the first solid cell that the traversal reaches
/// within the reach, or nothing when every cell it reaches is air.
pub open spec fn cast_result(w: World, o: FixedVec3, d: FixedVec3, m: int, r: Option<BlockRaycast>) -> bool {
    match r {
        Some(hit) => exists|k: int| #[trigger] hit_at(w, o, d, m, k, hit),
        None => forall|k: nat| reached(o, d, m, k) ==> !cell_solid(w, (#[trigger] ray_state(o, d, m, k)).0),
    }
}

proof fn lemma_hit_is_result(w: World, o: FixedVec3, d: FixedVec3, m: int, k: int, hit: BlockRaycast)
    requires
        hit_at(w, o, d, m, k, hit),
    ensures
        cast_result(w, o, d, m, Some(hit)),
{
    assert(exists|kk: int| #[trigger] hit_at(w, o, d, m, kk, hit));
    let r = Some(hit);
    assert(r->0 == hit);
}

/// The first solid state of a traversal is unique.
pub proof fn lemma_first_hit_unique(w: World, o: FixedVec3, d: FixedVec3, m: int, k1: nat, k2: nat)
    requires
        first_hit(w, o, d, m, k1),
        first_hit(w, o, d, m, k2),
    ensures
        k1 == k2,
{
    if k1 < k2 {
        assert(!cell_solid(w, ray_state(o, d, m, k1).0));
    }
    if k2 < k1 {
        assert(!cell_solid(w, ray_state(o, d, m, k2).0));
    }
}

/// A cast is deterministic: the same world, origin, direction and reach
/// admit one result only.
pub proof fn lemma_cast_deterministic(
    w: World,
    o: FixedVec3,
    d: FixedVec3,
    m: int,
    r1: Option<BlockRaycast>,
    r2: Option<BlockRaycast>,
)
    requires
        cast_result(w, o, d, m, r1),
        cast_result(w, o, d, m, r2),
    ensures
        r1 == r2,
{
    match (r1, r2) {
        (Some(h1), Some(h2)) => {
            let k1 = choose|k: int| #[trigger] hit_at(w, o, d, m, k, h1);
            let k2 = choose|k: int| #[trigger] hit_at(w, o, d, m, k, h2);
            lemma_first_hit_unique(w, o, d, m, k1 as nat, k2 as nat);
            assert(h1.block_pos == h2.block_pos);
            assert(h1.prev_block_pos == h2.prev_block_pos);
        },
        (Some(h1), None) => {
            let k1 = choose|k: int| #[trigger] hit_at(w, o, d, m, k, h1);
            assert(!cell_solid(w, ray_state(o, d, m, k1 as nat).0));
        },
        (None, Some(h2)) => {
            let k2 = choose|k: int| #[trigger] hit_at(w, o, d, m, k, h2);
            assert(!cell_solid(w, ray_state(o, d, m, k2 as nat).0));
        },
        (None, None) => {},
    }
}

/// A ray from `(0.5, 0.5, -5)` along `+z` with a reach beyond 5 blocks,
/// through air at `(0, 0, -5)` to `(0, 0, -1)`, strikes a solid block at
/// the origin cell `(0, 0, 0)` with placement cell `(0, 0, -1)`.
pub proof fn lemma_cast_along_z(w: World, m: int, r: Option<BlockRaycast>)
    requires
        5000 < m,
        forall|z: int| -5 <= z < 0 ==> w.block_at(0, 0, z) == 0,
        w.block_at(0, 0, 0) != 0,
        cast_result(w, FixedVec3 { x: 500, y: 500, z: -5000i64 }, FixedVec3 { x: 0, y: 0, z: 1000 }, m, r),
    ensures
        r == Some(BlockRaycast { block_pos: BlockPos { x: 0, y: 0, z: 0 }, prev_block_pos: BlockPos { x: 0, y: 0, z: -1i32 } }),
{
    let o = FixedVec3 { x: 500, y: 500, z: -5000i64 };
    let d = FixedVec3 { x: 0, y: 0, z: 1000 };
    assert(-5000int / 1000 == -5) by (nonlinear_arith);
    assert(500int / 1000 == 0) by (nonlinear_arith);
    assert(abs(1000) == 1000);
    assert(m * abs(1000) == m * 1000);
    assert(m * 1000 > 5000 * 1000) by (nonlinear_arith)
        requires 5000 < m;
    assert(ray_state(o, d, m, 0) == ((0int, 0int, -5int), (500int, 500int, 1000int), (0int, 0int, 0int), true));
    assert(ray_state(o, d, m, 1) == ((0int, 0int, -4int), (500int, 500int, 2000int), (0int, 0int, -1int), true));
    assert(ray_state(o, d, m, 2) == ((0int, 0int, -3int), (500int, 500int, 3000int), (0int, 0int, -1int), true));
    assert(ray_state(o, d, m, 3) == ((0int, 0int, -2int), (500int, 500int, 4000int), (0int, 0int, -1int), true));
    assert(ray_state(o, d, m, 4) == ((0int, 0int, -1int), (500int, 500int, 5000int), (0int, 0int, -1int), true));
    assert(ray_state(o, d, m, 5) == ((0int, 0int, 0int), (500int, 500int, 6000int), (0int, 0int, -1int), true));
    let hit = BlockRaycast { block_pos: BlockPos { x: 0, y: 0, z: 0 }, prev_block_pos: BlockPos { x: 0, y: 0, z: -1i32 } };
    assert forall|j: nat| j <= 5 implies (#[trigger] ray_state(o, d, m, j)).3 by {
        assert(j == 0 || j == 1 || j == 2 || j == 3 || j == 4 || j == 5);
    }
    assert forall|j: nat| j < 5 implies !cell_solid(w, (#[trigger] ray_state(o, d, m, j)).0) by {
        assert(j == 0 || j == 1 || j == 2 || j == 3 || j == 4);
    }
    assert(hit_at(w, o, d, m, 5, hit));
    let r2 = Some(hit);
    assert(cast_result(w, o, d, m, r2));
    lemma_cast_deterministic(w, o, d, m, r, r2);
}

fn abs_i64(v: i64) -> (r: i64)
    requires
        v > i64::MIN,
    ensures
        r == abs(v as int),
{
    if v < 0 {
        -v
    } else {
        v
    }
}

fn meets_no_later_exec(na: i64, da: i64, nb: i64, db: i64) -> (r: bool)
    requires
        0 <= na <= 0x8000_0000,
        0 <= nb <= 0x8000_0000,
        -0x10_0000 <= da <= 0x10_0000,
        -0x10_0000 <= db <= 0x10_0000,
    ensures
        r == meets_no_later(na as int, da as int, nb as int, db as int),
{
    if da == 0 {
        false
    } else if db == 0 {
        true
    } else {
        let ada = abs_i64(da);
        let adb = abs_i64(db);
        assert(na * adb <= 0x8000_0000 * 0x10_0000) by (nonlinear_arith)
            requires 0 <= na <= 0x8000_0000, 0 <= adb <= 0x10_0000;
        assert(nb * ada <= 0x8000_0000 * 0x10_0000) by (nonlinear_arith)
            requires 0 <= nb <= 0x8000_0000, 0 <= ada <= 0x10_0000;
        assert(na * adb >= 0 && nb * ada >= 0) by (nonlinear_arith)
            requires 0 <= na, 0 <= adb, 0 <= nb, 0 <= ada;
        na * adb <= nb * ada
    }
}

fn within_reach_exec(n: i64, d: i64, m: i64) -> (r: bool)
    requires
        0 <= n <= 0x8000_0000,
        -0x10_0000 <= d <= 0x10_0000,
        0 <= m <= 0x10_0000,
    ensures
        r == within_reach(n as int, d as int, m as int),
        r ==> n < 0x4200_0000 && d != 0,
{
    if d == 0 {
        false
    } else {
        let ad = abs_i64(d);
        assert(m * ad <= 0x10_0000 * 0x10_0000 && m * ad >= 0) by (nonlinear_arith)
            requires 0 <= m <= 0x10_0000, 0 <= ad <= 0x10_0000;
        assert(n * 1000 < m * ad ==> n < 0x4200_0000) by (nonlinear_arith)
            requires m * ad <= 0x10_0000 * 0x10_0000;
        n * 1000 < m * ad
    }
}

proof fn lemma_reach_left(n: int, d: int, m: int, within: bool)
    requires
        0 <= m,
        within ==> within_reach(n, d, m),
    ensures
        reach_left(n + 1000, d, m) <= reach_left(n, d, m),
        within ==> reach_left(n + 1000, d, m) < reach_left(n, d, m),
        reach_left(n, d, m) >= 0,
{
}

/// One axis of the traversal state in machine integers, next to its start.
pub open spec fn axis_inv(p: i32, n: i64, p0: int, n0: int, d: int, within: bool) -> bool {
    &&& 0 <= n0 <= 1000
    &&& n >= n0
    &&& n - n0 == (if d < 0 { p0 - p } else { p - p0 }) * 1000
    &&& within ==> n <= 0x4200_0000 + 1000
    &&& within ==> d == 0 ==> n == n0
}

impl World {
    /// Casts a ray from `origin` along `direction` (fixed-point) and returns
    /// the first solid block it enters before travelling `max_distance`
    /// (fixed-point, measured in lengths of `direction`), with the cell just
    /// before it. Cells are visited by a voxel traversal that steps across
    /// whichever cell boundary comes first (ties to x, then y, then z); an
    /// axis with a zero component is never stepped along.
    pub fn raycast_block(&self, origin: FixedVec3, direction: FixedVec3, max_distance: i64) -> (r: Option<BlockRaycast>)
        requires
            self.wf(),
            ray_in_range(origin, direction, max_distance),
        ensures
            cast_result(*self, origin, direction, max_distance as int, r),
    {
        let ghost o = origin;
        let ghost d = direction;
        let ghost m = max_distance as int;
        let cx0 = match origin.x.checked_div_euclid(SUBUNITS) { Some(v) => v, None => 0 };
        let cy0 = match origin.y.checked_div_euclid(SUBUNITS) { Some(v) => v, None => 0 };
        let cz0 = match origin.z.checked_div_euclid(SUBUNITS) { Some(v) => v, None => 0 };
        let mut nx: i64 = if direction.x < 0 { origin.x - cx0 * SUBUNITS } else { (cx0 + 1) * SUBUNITS - origin.x };
        let mut ny: i64 = if direction.y < 0 { origin.y - cy0 * SUBUNITS } else { (cy0 + 1) * SUBUNITS - origin.y };
        let mut nz: i64 = if direction.z < 0 { origin.z - cz0 * SUBUNITS } else { (cz0 + 1) * SUBUNITS - origin.z };
        let mut px: i32 = cx0 as i32;
        let mut py: i32 = cy0 as i32;
        let mut pz: i32 = cz0 as i32;
        let sx: i32 = if direction.x < 0 { -1 } else { 1 };
        let sy: i32 = if direction.y < 0 { -1 } else { 1 };
        let sz: i32 = if direction.z < 0 { -1 } else { 1 };
        let mut face: (i32, i32, i32) = (0, 0, 0);
        let mut within: bool = 0 < max_distance;
        let ghost mut k: nat = 0;
        let ghost p0 = (cx0 as int, cy0 as int, cz0 as int);
        let ghost n0 = (nx as int, ny as int, nz as int);
        proof {
            assert(ray_state(o, d, m, 0) == ((px as int, py as int, pz as int), (nx as int, ny as int, nz as int), (0int, 0int, 0int), within));
        }
        while within
            invariant
                self.wf(),
                ray_in_range(o, d, max_distance),
                o == origin && d == direction && m == max_distance,
                sx == axis_step(d.x as int) && sy == axis_step(d.y as int) && sz == axis_step(d.z as int),
                -0x4200_0000 <= p0.0 <= 0x4200_0000,
                -0x4200_0000 <= p0.1 <= 0x4200_0000,
                -0x4200_0000 <= p0.2 <= 0x4200_0000,
                axis_inv(px, nx, p0.0, n0.0, d.x as int, within),
                axis_inv(py, ny, p0.1, n0.1, d.y as int, within),
                axis_inv(pz, nz, p0.2, n0.2, d.z as int, within),
                ray_state(o, d, m, k) == ((px as int, py as int, pz as int), (nx as int, ny as int, nz as int),
                    (face.0 as int, face.1 as int, face.2 as int), within),
                forall|j: nat| j < k ==> (#[trigger] ray_state(o, d, m, j)).3,
                forall|j: nat| j < k ==> !cell_solid(*self, (#[trigger] ray_state(o, d, m, j)).0),
            decreases reach_left(nx as int, d.x as int, m) + reach_left(ny as int, d.y as int, m)
                + reach_left(nz as int, d.z as int, m) + if within { 1int } else { 0int },
        {
            let cell = BlockPos { x: px, y: py, z: pz };
            if self.get_block(cell) != 0 {
                let hit = BlockRaycast {
                    block_pos: cell,
                    prev_block_pos: BlockPos { x: px + face.0, y: py + face.1, z: pz + face.2 },
                };
                proof {
                    assert(first_hit(*self, o, d, m, k)) by {
                        assert forall|j: nat| j <= k implies (#[trigger] ray_state(o, d, m, j)).3 by {
                            if j < k {
                                assert(ray_state(o, d, m, j).3);
                            }
                        }
                    }
                }
                proof {
                    lemma_hit_is_result(*self, origin, direction, max_distance as int, k as int, hit);
                }
                return Some(hit);
            }
            proof {
                lemma_reach_left(nx as int, d.x as int, m, false);
                lemma_reach_left(ny as int, d.y as int, m, false);
                lemma_reach_left(nz as int, d.z as int, m, false);
            }
            let ghost before = ray_state(o, d, m, k);
            if meets_no_later_exec(nx, direction.x, ny, direction.y) && meets_no_later_exec(nx, direction.x, nz, direction.z) {
                within = within_reach_exec(nx, direction.x, max_distance);
                proof {
                    lemma_reach_left(nx as int, d.x as int, m, within);
                }
                px = px + sx;
                nx = nx + SUBUNITS;
                face = (-sx, 0, 0);
            } else if meets_no_later_exec(ny, direction.y, nz, direction.z) {
                within = within_reach_exec(ny, direction.y, max_distance);
                proof {
                    lemma_reach_left(ny as int, d.y as int, m, within);
                }
                py = py + sy;
                ny = ny + SUBUNITS;
                face = (0, -sy, 0);
            } else {
                within = within_reach_exec(nz, direction.z, max_distance);
                proof {
                    lemma_reach_left(nz as int, d.z as int, m, within);
                }
                pz = pz + sz;
                nz = nz + SUBUNITS;
                face = (0, 0, -sz);
            }
            proof {
                k = k + 1;
                assert(ray_state(o, d, m, k) == ray_step(before, d, m));
            }
        }
        proof {
            assert forall|kk: nat| reached(o, d, m, kk) implies !cell_solid(*self, (#[trigger] ray_state(o, d, m, kk)).0) by {
                if kk >= k {
                    assert(ray_state(o, d, m, k).3);
                }
            }
        }
        None
    }
}

} // verus!
