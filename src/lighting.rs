use vstd::prelude::*;
use std::collections::VecDeque;
use crate::coords::{
    in_chunk, cell_index, index_x, index_y, index_z, lemma_cell_index_bounds, lemma_index_cell,
    CHUNK_VOLUME,
};

verus! {

/// Offset of the `d`-th axis neighbour: +x, -x, +y, -y, +z, -z.
pub open spec fn offset(d: int) -> (int, int, int) {
    if d == 0 {
        (1, 0, 0)
    } else if d == 1 {
        (-1, 0, 0)
    } else if d == 2 {
        (0, 1, 0)
    } else if d == 3 {
        (0, -1, 0)
    } else if d == 4 {
        (0, 0, 1)
    } else {
        (0, 0, -1)
    }
}

/// The direction opposite to `d`.
pub open spec fn opposite(d: int) -> int {
    if d % 2 == 0 {
        d + 1
    } else {
        d - 1
    }
}

/// Linear index of the `d`-th neighbour of cell `i`, or `-1` where that
/// neighbour lies outside the chunk.
#[verifier::opaque]
pub open spec fn nbr(i: int, d: int) -> int {
    let a = index_x(i) + offset(d).0;
    let b = index_y(i) + offset(d).1;
    let c = index_z(i) + offset(d).2;
    if in_chunk(a, b, c) {
        cell_index(a, b, c)
    } else {
        -1
    }
}

/// Cells `i` and `j` share a face.
pub open spec fn adjacent(i: int, j: int) -> bool {
    exists|d: int| 0 <= d < 6 && #[trigger] nbr(i, d) == j
}

/// Cell `i` is open to the sky: it and every cell above it in its column are air.
pub open spec fn sky_exposed(blocks: Seq<u8>, i: int) -> bool {
    forall|y: int| index_y(i) <= y < 208 ==> #[trigger] blocks[i % 256 + 256 * y] == 0
}

/// Every light level is at most 15, and solid cells are dark.
pub open spec fn light_bounded(blocks: Seq<u8>, light: Seq<u8>) -> bool {
    forall|i: int| 0 <= i < 53248 ==> #[trigger] light[i] <= 15 && (blocks[i] != 0 ==> light[i] == 0)
}

/// Every sky-exposed cell has full light.
pub open spec fn sky_lit(blocks: Seq<u8>, light: Seq<u8>) -> bool {
    forall|i: int| 0 <= i < 53248 && sky_exposed(blocks, i) ==> #[trigger] light[i] == 15
}

/// Every lit cell owes its light to something: full light only under open
/// sky, and any lesser light to an air neighbour one level brighter.
pub open spec fn light_supported(blocks: Seq<u8>, light: Seq<u8>) -> bool {
    forall|i: int|
        0 <= i < 53248 && blocks[i] == 0 && #[trigger] light[i] > 0 ==> {
            &&& light[i] == 15 ==> sky_exposed(blocks, i)
            &&& light[i] < 15 ==> exists|d: int|
                0 <= d < 6 && nbr(i, d) >= 0 && blocks[nbr(i, d)] == 0 && light[#[trigger] nbr(i, d)]
                    >= light[i] + 1
        }
}

/// Light spreads: an air cell of level `L >= 2` leaves each air neighbour at
/// level `L - 1` or more (for cells outside `pending`).
pub open spec fn light_spread_except(blocks: Seq<u8>, light: Seq<u8>, pending: Seq<usize>) -> bool {
    forall|i: int, d: int|
        0 <= i < 53248 && 0 <= d < 6 && blocks[i] == 0 && light[i] >= 2 && #[trigger] nbr(i, d) >= 0
            && blocks[nbr(i, d)] == 0 && !pending.contains(i as usize) ==> light[nbr(i, d)] + 1
            >= light[i]
}

/// The light map is the settled result of flooding sky light through air.
pub open spec fn light_settled(blocks: Seq<u8>, light: Seq<u8>) -> bool {
    &&& light.len() == 53248
    &&& light_bounded(blocks, light)
    &&& sky_lit(blocks, light)
    &&& light_supported(blocks, light)
    &&& light_spread_except(blocks, light, Seq::empty())
}

/// A sequence of face-adjacent air cells.
pub open spec fn air_path(blocks: Seq<u8>, path: Seq<int>) -> bool {
    &&& forall|k: int| 0 <= k < path.len() ==> 0 <= #[trigger] path[k] < 53248 && blocks[path[k]] == 0
    &&& forall|k: int| 0 <= k < path.len() - 1 ==> adjacent(#[trigger] path[k], path[k + 1])
}

pub proof fn lemma_nbr_range(i: int, d: int)
    requires
        0 <= i < 53248,
        0 <= d < 6,
    ensures
        nbr(i, d) >= 0 ==> nbr(i, d) < 53248 && nbr(nbr(i, d), opposite(d)) == i,
        nbr(i, d) != i,
{
    reveal(nbr);
    lemma_index_cell(i);
    let a = index_x(i) + offset(d).0;
    let b = index_y(i) + offset(d).1;
    let c = index_z(i) + offset(d).2;
    if in_chunk(a, b, c) {
        lemma_cell_index_bounds(a, b, c);
        if nbr(i, d) == i {
            assert(false);
        }
    }
}

/// Sum of the missing light over all cells; it bounds the work left to do.
pub open spec fn deficit(light: Seq<u8>) -> int
    decreases light.len(),
{
    if light.len() == 0 {
        0
    } else {
        deficit(light.drop_last()) + (15 - light.last())
    }
}

proof fn lemma_deficit_nonneg(light: Seq<u8>)
    requires
        forall|i: int| 0 <= i < light.len() ==> light[i] <= 15,
    ensures
        deficit(light) >= 0,
    decreases light.len(),
{
    if light.len() > 0 {
        lemma_deficit_nonneg(light.drop_last());
    }
}

proof fn lemma_deficit_update(light: Seq<u8>, i: int, v: u8)
    requires
        0 <= i < light.len(),
    ensures
        deficit(light.update(i, v)) == deficit(light) + light[i] - v,
    decreases light.len(),
{
    let u = light.update(i, v);
    if i == light.len() - 1 {
        assert(u.drop_last() =~= light.drop_last());
    } else {
        assert(u.drop_last() =~= light.drop_last().update(i, v));
        lemma_deficit_update(light.drop_last(), i, v);
    }
}

fn neighbor_index(i: usize, d: usize) -> (r: Option<usize>)
    requires
        i < 53248,
        d < 6,
    ensures
        match r {
            Some(n) => n == nbr(i as int, d as int) && n < 53248,
            None => nbr(i as int, d as int) == -1,
        },
{
    proof {
        reveal(nbr);
        lemma_nbr_range(i as int, d as int);
    }
    let x: i32 = (i % 16) as i32;
    let z: i32 = ((i / 16) % 16) as i32;
    let y: i32 = (i / 256) as i32;
    let (a, b, c): (i32, i32, i32) = if d == 0 {
        (x + 1, y, z)
    } else if d == 1 {
        (x - 1, y, z)
    } else if d == 2 {
        (x, y + 1, z)
    } else if d == 3 {
        (x, y - 1, z)
    } else if d == 4 {
        (x, y, z + 1)
    } else {
        (x, y, z - 1)
    };
    if a < 0 || a >= 16 || b < 0 || b >= 208 || c < 0 || c >= 16 {
        None
    } else {
        Some((a + c * 16 + b * 256) as usize)
    }
}

proof fn lemma_column_cell(col: int, y: int)
    requires
        0 <= col < 256,
        0 <= y < 208,
    ensures
        0 <= col + 256 * y < 53248,
        (col + 256 * y) % 256 == col,
        (col + 256 * y) / 256 == y,
{
    assert((col + 256 * y) % 256 == col && (col + 256 * y) / 256 == y) by (nonlinear_arith)
        requires 0 <= col < 256, 0 <= y < 208;
}

proof fn lemma_split_cell(i: int)
    requires
        0 <= i < 53248,
    ensures
        i == i % 256 + 256 * (i / 256),
        0 <= i % 256 < 256,
        0 <= i / 256 < 208,
        index_y(i) == i / 256,
{
    assert(i == i % 256 + 256 * (i / 256) && 0 <= i % 256 < 256 && 0 <= i / 256 < 208) by (nonlinear_arith)
        requires 0 <= i < 53248;
}

/// Seeds the flood fill: full light on every sky-exposed cell, darkness
/// elsewhere, and every sky-exposed cell queued.
fn seed_sky(blocks: &Vec<u8>) -> (r: (Vec<u8>, VecDeque<usize>))
    requires
        blocks@.len() == 53248,
    ensures
        r.0@.len() == 53248,
        forall|i: int| 0 <= i < 53248 ==> #[trigger] r.0@[i] == if sky_exposed(blocks@, i) { 15u8 } else { 0u8 },
        forall|i: int| 0 <= i < 53248 && sky_exposed(blocks@, i) ==> r.1@.contains(i as usize),
        forall|k: int| 0 <= k < r.1@.len() ==> #[trigger] r.1@[k] < 53248,
{
    let mut light: Vec<u8> = vec![0u8; CHUNK_VOLUME];
    let mut queue: VecDeque<usize> = VecDeque::new();
    let mut col: usize = 0;
    while col < 256
        invariant
            col <= 256,
            blocks@.len() == 53248,
            light@.len() == 53248,
            forall|i: int| 0 <= i < 53248 ==> #[trigger] light@[i] == if i % 256 < col && sky_exposed(blocks@, i) { 15u8 } else { 0u8 },
            forall|i: int| 0 <= i < 53248 && light@[i] == 15 ==> queue@.contains(i as usize),
            forall|k: int| 0 <= k < queue@.len() ==> #[trigger] queue@[k] < 53248,
        decreases 256 - col,
    {
        let mut y: i64 = 207;
        let mut open = true;
        while open && y >= 0
            invariant
                col < 256,
                -1 <= y <= 207,
                blocks@.len() == 53248,
                light@.len() == 53248,
                forall|y2: int| y < y2 < 208 ==> #[trigger] blocks@[col + 256 * y2] == 0,
                !open ==> y >= 0 && blocks@[col + 256 * y] != 0,
                forall|i: int| 0 <= i < 53248 ==> #[trigger] light@[i] == if (i % 256 < col && sky_exposed(blocks@, i))
                    || (i % 256 == col && i / 256 > y) { 15u8 } else { 0u8 },
                forall|i: int| 0 <= i < 53248 && light@[i] == 15 ==> queue@.contains(i as usize),
                forall|k: int| 0 <= k < queue@.len() ==> #[trigger] queue@[k] < 53248,
            decreases y + 1 + if open { 1int } else { 0int },
        {
            proof {
                lemma_column_cell(col as int, y as int);
            }
            let idx: usize = col + 256 * (y as usize);
            if blocks[idx] != 0 {
                open = false;
            } else {
                let ghost old_queue = queue@;
                light.set(idx, 15);
                queue.push_back(idx);
                proof {
                    assert forall|i: int| 0 <= i < 53248 implies #[trigger] light@[i] == if (i % 256 < col
                        && sky_exposed(blocks@, i)) || (i % 256 == col && i / 256 > y - 1) { 15u8 } else { 0u8 } by {
                        lemma_split_cell(i);
                    }
                    assert forall|i: int| 0 <= i < 53248 && light@[i] == 15 implies queue@.contains(i as usize) by {
                        if i != idx {
                            let k = choose|k: int| 0 <= k < old_queue.len() && old_queue[k] == i as usize;
                            assert(queue@[k] == i as usize);
                        } else {
                            assert(queue@[queue@.len() - 1] == idx);
                        }
                    }
                }
                y = y - 1;
            }
        }
        proof {
            assert forall|i: int| 0 <= i < 53248 && i % 256 == col implies (sky_exposed(blocks@, i) <==> i / 256 > y) by {
                lemma_split_cell(i);
                if i / 256 <= y {
                    assert(!open);
                    lemma_column_cell(col as int, y as int);
                    assert(blocks@[i % 256 + 256 * y] != 0);
                }
                if i / 256 > y {
                    assert forall|y2: int| index_y(i) <= y2 < 208 implies #[trigger] blocks@[i % 256 + 256 * y2] == 0 by {
                        assert(blocks@[col + 256 * y2] == 0);
                    }
                }
            }
        }
        col = col + 1;
    }
    proof {
        assert forall|i: int| 0 <= i < 53248 && sky_exposed(blocks@, i) implies queue@.contains(i as usize) by {
            lemma_split_cell(i);
            assert(light@[i] == 15);
        }
    }
    (light, queue)
}

proof fn lemma_contains_push(s: Seq<usize>, v: usize)
    ensures
        forall|x: usize| #[trigger] s.push(v).contains(x) <==> (s.contains(x) || x == v),
{
    assert forall|x: usize| #[trigger] s.push(v).contains(x) <==> (s.contains(x) || x == v) by {
        if s.contains(x) {
            let k = choose|k: int| 0 <= k < s.len() && s[k] == x;
            assert(s.push(v)[k] == x);
        }
        if x == v {
            assert(s.push(v)[s.len() as int] == x);
        }
        if s.push(v).contains(x) {
            let k = choose|k: int| 0 <= k < s.len() + 1 && s.push(v)[k] == x;
            if k < s.len() {
                assert(s[k] == x);
            }
        }
    }
}

proof fn lemma_contains_pop(s: Seq<usize>)
    requires
        s.len() > 0,
    ensures
        forall|x: usize| #[trigger] s.contains(x) <==> (s.subrange(1, s.len() as int).contains(x) || x == s[0]),
{
    let t = s.subrange(1, s.len() as int);
    assert(s =~= seq![s[0]] + t);
    assert forall|x: usize| #[trigger] s.contains(x) <==> (t.contains(x) || x == s[0]) by {
        if s.contains(x) {
            let k = choose|k: int| 0 <= k < s.len() && s[k] == x;
            if k > 0 {
                assert(t[k - 1] == x);
            }
        }
        if t.contains(x) {
            let k = choose|k: int| 0 <= k < t.len() && t[k] == x;
            assert(s[k + 1] == x);
        }
        if x == s[0] {
            assert(s[0] == x);
        }
    }
}

/// The flood fill's loop invariant: all facts of a settled light map, with
/// spreading owed only by the cells in `pending`.
#[verifier::opaque]
pub open spec fn flood_inv(blocks: Seq<u8>, light: Seq<u8>, pending: Seq<usize>) -> bool {
    &&& blocks.len() == 53248
    &&& light.len() == 53248
    &&& light_bounded(blocks, light)
    &&& sky_lit(blocks, light)
    &&& light_supported(blocks, light)
    &&& light_spread_except(blocks, light, pending)
}

/// The first `d` neighbours of cell `i` have been lit from its level `cur`.
#[verifier::opaque]
pub open spec fn spread_from(blocks: Seq<u8>, light: Seq<u8>, i: int, cur: int, d: int) -> bool {
    forall|dd: int|
        0 <= dd < d && #[trigger] nbr(i, dd) >= 0 && blocks[nbr(i, dd)] == 0 ==> light[nbr(i, dd)] + 1 >= cur
}

proof fn lemma_flood_bounds(b: Seq<u8>, l: Seq<u8>, q: Seq<usize>)
    requires
        flood_inv(b, l, q),
    ensures
        forall|j: int| 0 <= j < l.len() ==> l[j] <= 15,
        deficit(l) >= 0,
        l.len() == 53248,
        b.len() == 53248,
{
    reveal(flood_inv);
    assert forall|j: int| 0 <= j < l.len() implies l[j] <= 15 by {
        assert(light_bounded(b, l));
    }
    lemma_deficit_nonneg(l);
}

proof fn lemma_flood_start(b: Seq<u8>, l: Seq<u8>)
    requires
        b.len() == 53248,
        l.len() == 53248,
        forall|i: int| 0 <= i < 53248 ==> #[trigger] l[i] == if sky_exposed(b, i) { 15u8 } else { 0u8 },
    ensures
        forall|q: Seq<usize>|
            (forall|i: int| 0 <= i < 53248 && sky_exposed(b, i) ==> q.contains(i as usize)) ==> #[trigger] flood_inv(b, l, q),
{
    reveal(flood_inv);
    assert forall|i: int| 0 <= i < 53248 implies #[trigger] l[i] <= 15 && (b[i] != 0 ==> l[i] == 0) by {
        lemma_split_cell(i);
        if sky_exposed(b, i) {
            assert(b[i % 256 + 256 * index_y(i)] == 0);
        }
    }
}

proof fn lemma_flood_pop(b: Seq<u8>, l: Seq<u8>, q: Seq<usize>)
    requires
        flood_inv(b, l, q),
        q.len() > 0,
        q[0] < 53248,
    ensures
        l[q[0] as int] >= 2 ==> b[q[0] as int] == 0 && l[q[0] as int] <= 15
            && flood_inv(b, l, q.subrange(1, q.len() as int).push(q[0])),
        l[q[0] as int] < 2 ==> flood_inv(b, l, q.subrange(1, q.len() as int)),
{
    reveal(flood_inv);
    let t = q.subrange(1, q.len() as int);
    lemma_contains_pop(q);
    lemma_contains_push(t, q[0]);
}

proof fn lemma_raise_supported(b: Seq<u8>, l: Seq<u8>, i: int, cur: int, d: int)
    requires
        b.len() == 53248,
        l.len() == 53248,
        light_supported(b, l),
        0 <= i < 53248,
        0 <= d < 6,
        2 <= cur <= 15,
        b[i] == 0,
        l[i] == cur,
        nbr(i, d) >= 0,
        l[nbr(i, d)] < cur - 1,
    ensures
        light_supported(b, l.update(nbr(i, d), (cur - 1) as u8)),
{
    let n = nbr(i, d);
    lemma_nbr_range(i, d);
    lemma_nbr_range(n, opposite(d));
    let l2 = l.update(n, (cur - 1) as u8);
    assert forall|j: int|
        0 <= j < 53248 && b[j] == 0 && #[trigger] l2[j] > 0 implies {
            &&& l2[j] == 15 ==> sky_exposed(b, j)
            &&& l2[j] < 15 ==> exists|dd: int|
                0 <= dd < 6 && nbr(j, dd) >= 0 && b[nbr(j, dd)] == 0 && l2[#[trigger] nbr(j, dd)] >= l2[j] + 1
        } by {
        if j == n {
            let od = opposite(d);
            assert(nbr(j, od) == i);
            assert(l2[nbr(j, od)] >= l2[j] + 1);
        } else {
            assert(l[j] > 0);
            if l2[j] < 15 {
                let dd = choose|dd: int|
                    0 <= dd < 6 && nbr(j, dd) >= 0 && b[nbr(j, dd)] == 0 && l[#[trigger] nbr(j, dd)] >= l[j] + 1;
                lemma_nbr_range(j, dd);
                assert(l2[nbr(j, dd)] >= l2[j] + 1);
            }
        }
    }
}

proof fn lemma_raise_spread(b: Seq<u8>, l: Seq<u8>, q: Seq<usize>, i: int, n: int, v: u8)
    requires
        b.len() == 53248,
        l.len() == 53248,
        light_spread_except(b, l, q.push(i as usize)),
        0 <= n < 53248,
        l[n] < v,
    ensures
        light_spread_except(b, l.update(n, v), q.push(n as usize).push(i as usize)),
{
    let l2 = l.update(n, v);
    let q1 = q.push(n as usize);
    lemma_contains_push(q, n as usize);
    lemma_contains_push(q1, i as usize);
    lemma_contains_push(q, i as usize);
    assert forall|c: int, dd: int|
        0 <= c < 53248 && 0 <= dd < 6 && b[c] == 0 && l2[c] >= 2 && #[trigger] nbr(c, dd) >= 0
            && b[nbr(c, dd)] == 0 && !q1.push(i as usize).contains(c as usize) implies l2[nbr(c, dd)] + 1 >= l2[c] by {
        lemma_nbr_range(c, dd);
        assert(c != n);
        assert(!q.push(i as usize).contains(c as usize));
        assert(l[nbr(c, dd)] + 1 >= l[c]);
    }
}

proof fn lemma_flood_raise(b: Seq<u8>, l: Seq<u8>, q: Seq<usize>, i: int, cur: int, d: int)
    requires
        flood_inv(b, l, q.push(i as usize)),
        spread_from(b, l, i, cur, d),
        0 <= i < 53248,
        0 <= d < 6,
        2 <= cur <= 15,
        b[i] == 0,
        l[i] == cur,
        nbr(i, d) >= 0,
        b[nbr(i, d)] == 0,
        l[nbr(i, d)] < cur - 1,
    ensures
        flood_inv(b, l.update(nbr(i, d), (cur - 1) as u8), q.push(nbr(i, d) as usize).push(i as usize)),
        spread_from(b, l.update(nbr(i, d), (cur - 1) as u8), i, cur, d + 1),
        l.update(nbr(i, d), (cur - 1) as u8)[i] == cur,
        deficit(l.update(nbr(i, d), (cur - 1) as u8)) <= deficit(l) - 1,
{
    reveal(flood_inv);
    reveal(spread_from);
    let n = nbr(i, d);
    lemma_nbr_range(i, d);
    let l2 = l.update(n, (cur - 1) as u8);
    lemma_deficit_update(l, n, (cur - 1) as u8);
    assert(!sky_exposed(b, n));
    assert forall|j: int| 0 <= j < 53248 implies #[trigger] l2[j] <= 15 && (b[j] != 0 ==> l2[j] == 0) by {
        assert(l[j] <= 15);
    }
    assert forall|j: int| 0 <= j < 53248 && sky_exposed(b, j) implies #[trigger] l2[j] == 15 by {
        assert(l[j] == 15);
    }
    lemma_raise_supported(b, l, i, cur, d);
    lemma_raise_spread(b, l, q, i, n, (cur - 1) as u8);
    assert forall|dd: int|
        0 <= dd < d + 1 && #[trigger] nbr(i, dd) >= 0 && b[nbr(i, dd)] == 0 implies l2[nbr(i, dd)] + 1 >= cur by {
        lemma_nbr_range(i, dd);
        if dd < d {
            assert(l[nbr(i, dd)] + 1 >= cur);
        }
    }
}

proof fn lemma_flood_keep(b: Seq<u8>, l: Seq<u8>, i: int, cur: int, d: int)
    requires
        spread_from(b, l, i, cur, d),
        0 <= i < 53248,
        0 <= d < 6,
        nbr(i, d) >= 0 && b[nbr(i, d)] == 0 ==> l[nbr(i, d)] >= cur - 1,
    ensures
        spread_from(b, l, i, cur, d + 1),
{
    reveal(spread_from);
}

proof fn lemma_flood_finish(b: Seq<u8>, l: Seq<u8>, q: Seq<usize>, i: int, cur: int)
    requires
        flood_inv(b, l, q.push(i as usize)),
        spread_from(b, l, i, cur, 6),
        0 <= i < 53248,
        l[i] == cur,
    ensures
        flood_inv(b, l, q),
{
    reveal(flood_inv);
    reveal(spread_from);
    lemma_contains_push(q, i as usize);
    assert forall|c: int, dd: int|
        0 <= c < 53248 && 0 <= dd < 6 && b[c] == 0 && l[c] >= 2 && #[trigger] nbr(c, dd) >= 0
            && b[nbr(c, dd)] == 0 && !q.contains(c as usize) implies l[nbr(c, dd)] + 1 >= l[c] by {
        if c != i {
            assert(!q.push(i as usize).contains(c as usize));
        }
    }
}

proof fn lemma_flood_done(b: Seq<u8>, l: Seq<u8>, q: Seq<usize>)
    requires
        flood_inv(b, l, q),
        q.len() == 0,
    ensures
        light_settled(b, l),
{
    reveal(flood_inv);
    assert(q =~= Seq::<usize>::empty());
}

/// Computes the sky light of a chunk from its block types: full light on
/// every sky-exposed air cell, spread breadth-first through air, one level
/// less per step, never into solid cells.
pub fn sky_light(blocks: &Vec<u8>) -> (light: Vec<u8>)
    requires
        blocks@.len() == 53248,
    ensures
        light_settled(blocks@, light@),
{
    let ghost b = blocks@;
    let (mut light, mut queue) = seed_sky(blocks);
    proof {
        lemma_flood_start(b, light@);
        assert(flood_inv(b, light@, queue@));
    }
    loop
        invariant
            b == blocks@,
            flood_inv(b, light@, queue@),
            forall|k: int| 0 <= k < queue@.len() ==> #[trigger] queue@[k] < 53248,
        ensures
            queue@.len() == 0,
        decreases 2 * deficit(light@) + queue@.len(),
    {
        proof {
            lemma_flood_bounds(b, light@, queue@);
        }
        let ghost q_before = queue@;
        if queue.len() == 0 {
            break;
        }
        proof {
            lemma_flood_pop(b, light@, q_before);
        }
        let i = match queue.pop_front() {
            Some(i) => i,
            None => 0,
        };
        let cur = light[i];
        if cur >= 2 {
            let ghost l0 = light@;
            let ghost q0 = queue@;
            proof {
                reveal(spread_from);
            }
            let mut d: usize = 0;
            while d < 6
                invariant
                    b == blocks@,
                    i < 53248,
                    2 <= cur <= 15,
                    b[i as int] == 0,
                    d <= 6,
                    light@[i as int] == cur,
                    flood_inv(b, light@, queue@.push(i)),
                    spread_from(b, light@, i as int, cur as int, d as int),
                    forall|k: int| 0 <= k < queue@.len() ==> #[trigger] queue@[k] < 53248,
                    2 * deficit(light@) + queue@.len() <= 2 * deficit(l0) + q0.len(),
                decreases 6 - d,
            {
                proof {
                    lemma_flood_bounds(b, light@, queue@.push(i));
                    lemma_nbr_range(i as int, d as int);
                }
                match neighbor_index(i, d) {
                    None => {
                        proof {
                            lemma_flood_keep(b, light@, i as int, cur as int, d as int);
                        }
                    },
                    Some(n) => {
                        if blocks[n] == 0 && light[n] < cur - 1 {
                            proof {
                                lemma_flood_raise(b, light@, queue@, i as int, cur as int, d as int);
                            }
                            light.set(n, cur - 1);
                            queue.push_back(n);
                        } else {
                            proof {
                                lemma_flood_keep(b, light@, i as int, cur as int, d as int);
                            }
                        }
                    },
                }
                d = d + 1;
            }
            proof {
                lemma_flood_finish(b, light@, queue@, i as int, cur as int);
            }
        }
        proof {
            lemma_flood_bounds(b, light@, queue@);
        }
    }
    proof {
        lemma_flood_done(b, light@, queue@);
    }
    light
}

/// Light reaches along air: the last cell of a path of `k <= 14` steps
/// between face-adjacent air cells that starts under open sky has light at
/// least `15 - k`.
pub proof fn lemma_light_along_path(blocks: Seq<u8>, light: Seq<u8>, path: Seq<int>)
    requires
        blocks.len() == 53248,
        light_settled(blocks, light),
        air_path(blocks, path),
        1 <= path.len() <= 15,
        sky_exposed(blocks, path[0]),
    ensures
        light[path.last()] >= 16 - path.len(),
    decreases path.len(),
{
    if path.len() > 1 {
        let p = path.drop_last();
        assert(air_path(blocks, p)) by {
            assert forall|k: int| 0 <= k < p.len() - 1 implies adjacent(#[trigger] p[k], p[k + 1]) by {
                assert(adjacent(path[k], path[k + 1]));
            }
            assert forall|k: int| 0 <= k < p.len() implies 0 <= #[trigger] p[k] < 53248 && blocks[p[k]] == 0 by {
                assert(0 <= path[k] < 53248 && blocks[path[k]] == 0);
            }
        }
        lemma_light_along_path(blocks, light, p);
        let k = path.len() - 2;
        let c = path[k];
        assert(adjacent(path[k], path[k + 1]));
        let d = choose|d: int| 0 <= d < 6 && #[trigger] nbr(c, d) == path[k + 1];
        assert(blocks[c] == 0 && blocks[path[k + 1]] == 0);
        assert(light[nbr(c, d)] + 1 >= light[c]);
    }
}

/// Light has a source: every lit cell of level `L` is joined to a
/// sky-exposed cell by a path of exactly `15 - L` steps between
/// face-adjacent air cells. So a cell with no air path to open sky is dark.
pub proof fn lemma_light_source(blocks: Seq<u8>, light: Seq<u8>, i: int) -> (path: Seq<int>)
    requires
        blocks.len() == 53248,
        light_settled(blocks, light),
        0 <= i < 53248,
        light[i] > 0,
    ensures
        air_path(blocks, path),
        path.len() == 16 - light[i],
        sky_exposed(blocks, path[0]),
        path.last() == i,
    decreases 15 - light[i],
{
    assert(light[i] <= 15 && blocks[i] == 0);
    if light[i] == 15 {
        seq![i]
    } else {
        let d = choose|d: int|
            0 <= d < 6 && nbr(i, d) >= 0 && blocks[nbr(i, d)] == 0 && light[#[trigger] nbr(i, d)] >= light[i] + 1;
        let n = nbr(i, d);
        lemma_nbr_range(i, d);
        assert(light[n] <= 15);
        if light[n] > light[i] + 1 {
            // A neighbour two levels brighter would have lit this cell further.
            lemma_nbr_range(n, opposite(d));
            assert(light[nbr(n, opposite(d))] + 1 >= light[n]);
            assert(false);
        }
        let p = lemma_light_source(blocks, light, n);
        let path = p.push(i);
        lemma_nbr_range(n, opposite(d));
        assert(adjacent(n, i)) by {
            assert(nbr(n, opposite(d)) == i);
        }
        assert forall|k: int| 0 <= k < path.len() - 1 implies adjacent(#[trigger] path[k], path[k + 1]) by {
            if k < p.len() - 1 {
                assert(adjacent(p[k], p[k + 1]));
            }
        }
        assert forall|k: int| 0 <= k < path.len() implies 0 <= #[trigger] path[k] < 53248 && blocks[path[k]] == 0 by {
            if k < p.len() {
                assert(0 <= p[k] < 53248 && blocks[p[k]] == 0);
            }
        }
        path
    }
}

/// `path` runs through air from a sky-exposed cell to cell `i`.
pub open spec fn sky_path(blocks: Seq<u8>, path: Seq<int>, i: int) -> bool {
    &&& path.len() >= 1
    &&& air_path(blocks, path)
    &&& sky_exposed(blocks, path[0])
    &&& path.last() == i
}

/// The settled light of a cell is `15` minus its distance to open sky
/// through air, and `0` beyond 14 steps: for every `h` in `0..=14`, the
/// light is at least `15 - h` exactly when some air path of at most `h`
/// steps joins the cell to a sky-exposed cell.
pub proof fn lemma_light_is_sky_distance(blocks: Seq<u8>, light: Seq<u8>, i: int, h: int)
    requires
        blocks.len() == 53248,
        light_settled(blocks, light),
        0 <= i < 53248,
        0 <= h <= 14,
    ensures
        light[i] >= 15 - h <==> exists|path: Seq<int>| #[trigger] sky_path(blocks, path, i) && path.len() <= h + 1,
{
    if light[i] >= 15 - h {
        let path = lemma_light_source(blocks, light, i);
        assert(sky_path(blocks, path, i));
    }
    if exists|path: Seq<int>| #[trigger] sky_path(blocks, path, i) && path.len() <= h + 1 {
        let path = choose|path: Seq<int>| #[trigger] sky_path(blocks, path, i) && path.len() <= h + 1;
        lemma_light_along_path(blocks, light, path);
    }
}

} // verus!
