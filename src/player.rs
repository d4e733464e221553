use vstd::prelude::*;
use crate::coords::{BlockPos, FixedVec3};
use crate::world::World;

verus! {

/// Eye height above the feet, in fixed-point units.
pub const PLAYER_HEIGHT: i64 = 1800;

/// Downward acceleration, in blocks per second squared.
pub const GRAVITY: i64 = 23;

/// Upward speed given by a jump, in blocks per second.
pub const JUMP_STRENGTH: i64 = 8;

/// Walking speed, in blocks per second.
pub const SPEED: i64 = 4;

/// Sprinting speed, in blocks per second.
pub const SPRINT_SPEED: i64 = 6;

/// Ticks this long or longer (in milliseconds) are skipped.
pub const MAX_TICK_MS: u32 = 300;

/// The movement keys held during a tick.
#[derive(Clone, Copy, Debug, PartialEq, Eq, Structural)]
pub struct MoveKeys {
    pub forward: bool,
    pub back: bool,
    pub left: bool,
    pub right: bool,
    pub jump: bool,
    pub sprint: bool,
}

/// The player's body: feet position and vertical velocity in fixed-point
/// units (`SUBUNITS` per block, velocity per second), whether it stood on
/// the ground at the last tick, and its health.
pub struct Player {
    pos: FixedVec3,
    vertical_velocity: i64,
    was_grounded: bool,
    health: u8,
}

/// A player's state as numbers: feet position, vertical velocity, whether
/// it stood on the ground at the last tick, health.
pub type PlayerModel = ((int, int, int), int, bool, int);

/// The block coordinate that holds a fixed-point coordinate.
pub open spec fn cell(v: int) -> int {
    v / 1000
}

pub open spec fn solid_world(w: World, x: int, y: int, z: int) -> bool {
    w.block_at(cell(x), cell(y), cell(z)) != 0
}

/// Damage of a landing at vertical velocity `v`: `(-v * 0.4) - 5` in blocks
/// per second, rounded down, when positive; none otherwise.
pub open spec fn fall_damage(v: int) -> int {
    let raw = -4 * v - 50000;
    if raw > 0 {
        if raw / 10000 > 255 {
            255
        } else {
            raw / 10000
        }
    } else {
        0
    }
}

/// Health after taking `damage`; it never drops below zero.
pub open spec fn damaged(health: int, damage: int) -> int {
    if damage >= health {
        0
    } else {
        health - damage
    }
}

/// `c` counted once for a held `plus` key and taken away once for a held `minus` key.
pub open spec fn key_axis(plus: bool, minus: bool, c: int) -> int {
    (if plus { c } else { 0int }) - (if minus { c } else { 0int })
}

/// Horizontal movement along one axis during `dt` milliseconds, from that
/// axis's components of the unit forward and right vectors.
pub open spec fn move_component(keys: MoveKeys, fwd: int, right: int, dt: int) -> int {
    let speed = if keys.sprint { 6int } else { 4int };
    let dir = key_axis(keys.forward, keys.back, fwd) + key_axis(keys.right, keys.left, right);
    (speed * dt * dir) / 1000
}

/// Moving by `mx` along x runs into a solid cell at foot or head level, half a block ahead.
pub open spec fn blocked_x(w: World, p: (int, int, int), mx: int) -> bool {
    let off = if mx < 0 { -500int } else { 500int };
    mx != 0 && (solid_world(w, p.0 + off, p.1 + 1500, p.2) || solid_world(w, p.0 + off, p.1 + 500, p.2))
}

/// Moving by `mz` along z runs into a solid cell at foot or head level, half a block ahead.
pub open spec fn blocked_z(w: World, p: (int, int, int), mz: int) -> bool {
    let off = if mz < 0 { -500int } else { 500int };
    mz != 0 && (solid_world(w, p.0, p.1 + 1500, p.2 + off) || solid_world(w, p.0, p.1 + 500, p.2 + off))
}

/// The cell just above the head is solid.
pub open spec fn head_blocked(w: World, p: (int, int, int)) -> bool {
    solid_world(w, p.0, p.1 + 1950, p.2)
}

/// The player's state after one tick of `dt` milliseconds.
pub open spec fn tick(s: PlayerModel, dt: int, keys: MoveKeys, fwd: FixedVec3, right: FixedVec3, w: World) -> PlayerModel {
    let (p, v, was_grounded, h) = s;
    if dt >= 300 {
        s
    } else {
        let grounded = solid_world(w, p.0, p.1, p.2);
        let h1 = if !was_grounded && grounded { damaged(h, fall_damage(v)) } else { h };
        let v1 = if grounded { 0 } else { v - 23 * dt };
        let v2 = if keys.jump && grounded { v1 + 8000 } else { v1 };
        let mx0 = move_component(keys, fwd.x as int, right.x as int, dt);
        let mz0 = move_component(keys, fwd.z as int, right.z as int, dt);
        let mx = if blocked_x(w, p, mx0) { 0 } else { mx0 };
        let v3 = if v2 > 0 && head_blocked(w, p) { 0 } else { v2 };
        let mz = if blocked_z(w, p, mz0) { 0 } else { mz0 };
        ((p.0 + mx, p.1 + (v3 * dt) / 1000, p.2 + mz), v3, grounded, h1)
    }
}

/// Limits that keep a tick within machine integers.
pub open spec fn model_in_range(s: PlayerModel) -> bool {
    &&& -0x100_0000_0000 <= s.0.0 <= 0x100_0000_0000
    &&& -0x100_0000_0000 <= s.0.1 <= 0x100_0000_0000
    &&& -0x100_0000_0000 <= s.0.2 <= 0x100_0000_0000
    &&& -0x100_0000_0000 <= s.1 <= 0x100_0000_0000
}

pub open spec fn unit_in_range(v: FixedVec3) -> bool {
    -1000 <= v.x <= 1000 && -1000 <= v.z <= 1000
}

/// Landing costs `floor(-v * 0.4 - 5)` health (in blocks per second, when
/// positive): a tick that finds an airborne player on solid ground applies
/// the fall damage of its vertical velocity.
pub proof fn lemma_landing_damage(s: PlayerModel, dt: int, keys: MoveKeys, fwd: FixedVec3, right: FixedVec3, w: World)
    requires
        dt < 300,
        !s.2,
        solid_world(w, s.0.0, s.0.1, s.0.2),
    ensures
        tick(s, dt, keys, fwd, right, w).3 == damaged(s.3, fall_damage(s.1)),
        tick(s, dt, keys, fwd, right, w).2,
{
}

/// A wall stops movement into it: when the cell ahead at foot or head level
/// is solid, the position along that axis does not change.
pub proof fn lemma_wall_stops_movement(s: PlayerModel, dt: int, keys: MoveKeys, fwd: FixedVec3, right: FixedVec3, w: World)
    requires
        dt < 300,
    ensures
        blocked_x(w, s.0, move_component(keys, fwd.x as int, right.x as int, dt)) ==> tick(s, dt, keys, fwd, right, w).0.0 == s.0.0,
        blocked_z(w, s.0, move_component(keys, fwd.z as int, right.z as int, dt)) ==> tick(s, dt, keys, fwd, right, w).0.2 == s.0.2,
{
}

fn cell_exec(v: i64) -> (r: i32)
    requires
        -0x100_0000_1000 <= v <= 0x100_0000_1000,
    ensures
        r == cell(v as int),
{
    let c = match v.checked_div_euclid(1000) { Some(c) => c, None => 0 };
    c as i32
}

impl Player {
    pub closed spec fn model(&self) -> PlayerModel {
        (
            (self.pos.x as int, self.pos.y as int, self.pos.z as int),
            self.vertical_velocity as int,
            self.was_grounded,
            self.health as int,
        )
    }

    /// A player standing in the air above the spawn column with full health.
    pub fn new() -> (r: Player)
        ensures
            r.model() == ((2000int, 125000int, 2000int), 0int, false, 8int),
    {
        Player { pos: FixedVec3 { x: 2000, y: 125000, z: 2000 }, vertical_velocity: 0, was_grounded: false, health: 8 }
    }

    /// A player at `pos`, moving vertically at `vertical_velocity`, airborne at the last tick.
    pub fn airborne(pos: FixedVec3, vertical_velocity: i64, health: u8) -> (r: Player)
        ensures
            r.model() == ((pos.x as int, pos.y as int, pos.z as int), vertical_velocity as int, false, health as int),
    {
        Player { pos, vertical_velocity, was_grounded: false, health }
    }

    fn is_block_at(&self, x: i64, y: i64, z: i64, world: &World) -> (r: bool)
        requires
            world.wf(),
            -0x100_0000_1000 <= x <= 0x100_0000_1000,
            -0x100_0000_1000 <= y <= 0x100_0000_1000,
            -0x100_0000_1000 <= z <= 0x100_0000_1000,
        ensures
            r == solid_world(*world, x as int, y as int, z as int),
    {
        world.get_block(BlockPos { x: cell_exec(x), y: cell_exec(y), z: cell_exec(z) }) != 0
    }

    /// Takes damage; health stops at zero.
    pub fn damage(&mut self, damage: u8)
        ensures
            final(self).model() == (old(self).model().0, old(self).model().1, old(self).model().2,
                damaged(old(self).model().3, damage as int)),
    {
        if damage >= self.health {
            self.health = 0;
        } else {
            self.health = self.health - damage;
        }
    }

    fn move_component_exec(keys: MoveKeys, fwd: i64, right: i64, dt: i64) -> (r: i64)
        requires
            -1000 <= fwd <= 1000,
            -1000 <= right <= 1000,
            0 <= dt < 300,
        ensures
            r == move_component(keys, fwd as int, right as int, dt as int),
            -4000 <= r <= 4000,
    {
        let speed: i64 = if keys.sprint { SPRINT_SPEED } else { SPEED };
        let mut dir: i64 = 0;
        if keys.forward {
            dir = dir + fwd;
        }
        if keys.back {
            dir = dir - fwd;
        }
        if keys.right {
            dir = dir + right;
        }
        if keys.left {
            dir = dir - right;
        }
        assert(-3_600_000 <= speed * dt * dir <= 3_600_000) by (nonlinear_arith)
            requires 0 <= speed <= 6, 0 <= dt < 300, -2000 <= dir <= 2000;
        let prod = speed * dt * dir;
        let r = match prod.checked_div_euclid(1000) { Some(q) => q, None => 0 };
        r
    }

    /// One simulation tick of `delta_ms` milliseconds: ground test, fall
    /// damage on landing, gravity or a jump, horizontal movement from the
    /// held keys along the horizontal unit vectors `forward` and `right`
    /// (x and z components, fixed-point), with each horizontal axis and
    /// upward motion stopped by a solid cell in the way.
    pub fn update_pos(&mut self, delta_ms: u32, keys: MoveKeys, forward: FixedVec3, right: FixedVec3, world: &World)
        requires
            world.wf(),
            model_in_range(old(self).model()),
            unit_in_range(forward),
            unit_in_range(right),
        ensures
            final(self).model() == tick(old(self).model(), delta_ms as int, keys, forward, right, *world),
    {
        if delta_ms >= MAX_TICK_MS {
            return;
        }
        let dt = delta_ms as i64;
        let p = self.pos;
        let is_grounded = self.is_block_at(p.x, p.y, p.z, world);
        if !self.was_grounded && is_grounded {
            let raw = -4 * self.vertical_velocity - 50000;
            if raw > 0 {
                let d = raw / 10000;
                let damage: u8 = if d > 255 { 255 } else { d as u8 };
                self.damage(damage);
            }
        }
        self.was_grounded = is_grounded;
        if !is_grounded {
            self.vertical_velocity = self.vertical_velocity - GRAVITY * dt;
        } else {
            self.vertical_velocity = 0;
        }
        if keys.jump && is_grounded {
            self.vertical_velocity = self.vertical_velocity + JUMP_STRENGTH * 1000;
        }
        let mut mx = Self::move_component_exec(keys, forward.x, right.x, dt);
        let mut mz = Self::move_component_exec(keys, forward.z, right.z, dt);
        if mx != 0 {
            let off: i64 = if mx < 0 { -500 } else { 500 };
            if self.is_block_at(p.x + off, p.y + 1500, p.z, world) || self.is_block_at(p.x + off, p.y + 500, p.z, world) {
                mx = 0;
            }
        }
        if self.vertical_velocity > 0 {
            if self.is_block_at(p.x, p.y + 1950, p.z, world) {
                self.vertical_velocity = 0;
            }
        }
        if mz != 0 {
            let off: i64 = if mz < 0 { -500 } else { 500 };
            if self.is_block_at(p.x, p.y + 1500, p.z + off, world) || self.is_block_at(p.x, p.y + 500, p.z + off, world) {
                mz = 0;
            }
        }
        let v = self.vertical_velocity;
        assert(-0x100_0000_3000 * 300 <= v * dt <= 0x100_0000_3000 * 300) by (nonlinear_arith)
            requires -0x100_0000_3000 <= v <= 0x100_0000_3000, 0 <= dt < 300;
        let prod = v * dt;
        let dy = match prod.checked_div_euclid(1000) { Some(q) => q, None => 0 };
        self.pos = FixedVec3 { x: p.x + mx, y: p.y + dy, z: p.z + mz };
    }

    /// Feet position.
    pub fn get_pos(&self) -> (r: FixedVec3)
        ensures
            (r.x as int, r.y as int, r.z as int) == self.model().0,
    {
        self.pos
    }

    /// Eye position: `PLAYER_HEIGHT` above the feet.
    pub fn get_head_pos(&self) -> (r: FixedVec3)
        requires
            model_in_range(self.model()),
        ensures
            (r.x as int, r.y as int, r.z as int) == (self.model().0.0, self.model().0.1 + 1800, self.model().0.2),
    {
        FixedVec3 { x: self.pos.x, y: self.pos.y + PLAYER_HEIGHT, z: self.pos.z }
    }

    /// A block may be placed at `target` unless it would fill the cell of
    /// the player's feet (height rounded up) or the cell of its eyes.
    pub fn can_place_at(&self, target: BlockPos) -> (r: bool)
        requires
            model_in_range(self.model()),
        ensures
            r == !(
                (target.x == cell(self.model().0.0) && target.y == -cell(-self.model().0.1) && target.z == cell(self.model().0.2))
                || (target.x == cell(self.model().0.0) && target.y == cell(self.model().0.1 + 1800) && target.z == cell(self.model().0.2))
            ),
    {
        let x = cell_exec(self.pos.x);
        let z = cell_exec(self.pos.z);
        let feet_y = -cell_exec(-self.pos.y);
        let head_y = cell_exec(self.pos.y + PLAYER_HEIGHT);
        let at_feet = target.x == x && target.y == feet_y && target.z == z;
        let at_head = target.x == x && target.y == head_y && target.z == z;
        !(at_feet || at_head)
    }

    /// Vertical velocity, in fixed-point units per second.
    pub fn get_vertical_velocity(&self) -> (r: i64)
        ensures
            r == self.model().1,
    {
        self.vertical_velocity
    }

    pub fn get_health(&self) -> (r: u8)
        ensures
            r == self.model().3,
    {
        self.health
    }
}

} // verus!
