//! The moving point: free flight and orbital motion.

use crate::fixed::{
    div_round, lemma_div_round_bound, lemma_div_round_error, lemma_div_round_le, round_div, UNIT,
};
use crate::node::Node;
use crate::vector::{
    lemma_mul_within, lemma_rotated_nonzero, lemma_rotated_within, lemma_unit_within, SpecVec2,
    Vec2, REACH, SPAN, WORLD_LIMIT,
};
use vstd::prelude::*;

verus! {

/// Speed of a fresh player, in millionths of a world unit per second.
pub const PLAYER_SPEED: u32 = 4_000_000;

/// Body radius of a fresh player.
pub const PLAYER_BBOX: u32 = 50_000;

/// The largest angle, in millionths of a radian, up to which a turn is held
/// against its angle: four radians.
pub const TURN_CHECK_LIMIT: u64 = 4_000_000;

/// `turn` can be the cosine and sine of `angle` millionths of a radian: it is
/// a direction, and up to `TURN_CHECK_LIMIT` it lies within the bounds that
/// hold of every angle `t >= 0`,
/// `t - t^3/6 <= sin t <= t` and `1 - t^2/2 <= cos t <= 1 - t^2/2 + t^4/24`,
/// each widened by the half step of a rounded coordinate.
pub open spec fn is_turn_of(turn: SpecVec2, angle: int) -> bool {
    let u = UNIT as int;
    &&& turn.is_unit()
    &&& 0 <= angle <= TURN_CHECK_LIMIT ==> {
        &&& turn.y <= angle
        &&& 6 * (u * u) * turn.y >= 6 * (u * u) * angle - angle * angle * angle - 3 * (u * u)
        &&& 2 * u * turn.x >= 2 * (u * u) - angle * angle - u
        &&& 24 * (u * u * u) * turn.x <= 24 * (u * u * u * u) - 12 * (u * u) * (angle * angle)
            + angle * angle * angle * angle + 12 * (u * u * u)
    }
}

/// Whether `turn` can be the cosine and sine of `angle`: see [`is_turn_of`].
pub fn check_turn(turn: Vec2, angle: u64) -> (b: bool)
    ensures
        b == is_turn_of(turn@, angle as int),
{
    if !turn.check_unit() {
        return false;
    }
    if angle > TURN_CHECK_LIMIT {
        return true;
    }
    proof {
        lemma_unit_within(turn@);
    }
    let a: i128 = angle as i128;
    let c: i128 = turn.x as i128;
    let s: i128 = turn.y as i128;
    assert(0 <= a * a <= 16_000_000_000_000) by (nonlinear_arith)
        requires
            0 <= a <= 4_000_000,
    ;
    let a2: i128 = a * a;
    assert(0 <= a2 * a <= 64_000_000_000_000_000_000) by (nonlinear_arith)
        requires
            0 <= a2 <= 16_000_000_000_000,
            0 <= a <= 4_000_000,
    ;
    let a3: i128 = a2 * a;
    assert(0 <= a3 * a <= 256_000_000_000_000_000_000_000_000) by (nonlinear_arith)
        requires
            0 <= a3 <= 64_000_000_000_000_000_000,
            0 <= a <= 4_000_000,
    ;
    let a4: i128 = a3 * a;
    proof {
        let u = UNIT as int;
        assert(u * u == 1_000_000_000_000);
        assert(u * u * u == 1_000_000_000_000_000_000) by (nonlinear_arith)
            requires
                u == 1_000_000,
        ;
        assert(u * u * u * u == 1_000_000_000_000_000_000_000_000) by (nonlinear_arith)
            requires
                u == 1_000_000,
        ;
        assert(angle * angle * angle == a3);
        assert(angle * angle * angle * angle == a4);
    }
    s <= a && 6_000_000_000_000 * s >= 6_000_000_000_000 * a - a3 - 3_000_000_000_000
        && 2_000_000 * c >= 2_000_000_000_000 - a2 - 1_000_000
        && 24_000_000_000_000_000_000 * c <= 24_000_000_000_000_000_000_000_000
        - 12_000_000_000_000 * a2 + a4 + 12_000_000_000_000_000_000
}

/// The player: where it is, where it is heading, and for how long it has been
/// flying unattached.
#[derive(Clone, Copy, Debug, PartialEq, Eq, Structural)]
pub struct Player {
    pub pos: Vec2,
    /// Millionths of a world unit per second.
    pub speed: u32,
    /// The direction of flight; `(0, UNIT)` points up the corridor.
    pub facing: Vec2,
    /// Body radius.
    pub bbox: u32,
    /// Microseconds since the player last locked onto a node.
    pub time_disconnected: u64,
}

impl Player {
    /// The position lies in the world and the heading is a direction.
    pub open spec fn wf(self) -> bool {
        self.pos.in_world() && self.facing.is_unit()
    }

    /// The player that a run starts with: at the origin, heading up the
    /// corridor, with the standard speed and body.
    pub open spec fn fresh() -> Player {
        Player {
            pos: Vec2 { x: 0, y: 0 },
            speed: PLAYER_SPEED,
            facing: Vec2 { x: 0, y: 1_000_000 },
            bbox: PLAYER_BBOX,
            time_disconnected: 0,
        }
    }

    /// The player put back to where a run starts: at the origin, heading up,
    /// the clock at zero. Speed and body stay.
    pub open spec fn restarted(self) -> Player {
        Player {
            pos: Vec2 { x: 0, y: 0 },
            facing: Vec2 { x: 0, y: 1_000_000 },
            time_disconnected: 0,
            ..self
        }
    }

    /// How far a free flight of `dt` microseconds carries the player.
    pub open spec fn free_step(self, dt: u32) -> SpecVec2 {
        SpecVec2 {
            x: div_round((self.speed * dt) * self.facing.x, UNIT * UNIT),
            y: div_round((self.speed * dt) * self.facing.y, UNIT * UNIT),
        }
    }

    /// Where a free flight of `dt` microseconds ends.
    pub open spec fn free_target(self, dt: u32) -> SpecVec2 {
        self.pos@.plus(self.free_step(dt))
    }

    /// The player after a free flight of `dt` microseconds.
    pub open spec fn advanced(self, dt: u32) -> Player {
        Player { pos: self.free_target(dt).to_vec2(), ..self }
    }

    /// The turn that an orbit applies: `turn` itself counter-clockwise, its
    /// mirror image clockwise.
    pub open spec fn orbit_turn(turn: Vec2, is_clockwise: bool) -> SpecVec2 {
        if is_clockwise {
            turn@.conjugate()
        } else {
            turn@
        }
    }

    /// The offset from the node after an orbit step.
    pub open spec fn orbit_offset(self, node: Node, turn: Vec2, is_clockwise: bool) -> SpecVec2 {
        self.pos@.minus(node.pos@).rotated(Self::orbit_turn(turn, is_clockwise))
    }

    /// Where an orbit step ends.
    pub open spec fn orbit_target(self, node: Node, turn: Vec2, is_clockwise: bool) -> SpecVec2 {
        node.pos@.plus(self.orbit_offset(node, turn, is_clockwise))
    }

    /// The heading after an orbit step: tangent to the circle at the new
    /// offset, in the sense of the orbit.
    pub open spec fn orbit_facing(self, node: Node, turn: Vec2, is_clockwise: bool) -> SpecVec2 {
        let offset = self.orbit_offset(node, turn, is_clockwise);
        if is_clockwise {
            offset.perp().negated().unit()
        } else {
            offset.perp().unit()
        }
    }

    /// The player after an orbit step.
    pub open spec fn orbited(self, node: Node, turn: Vec2, is_clockwise: bool) -> Player {
        Player {
            pos: self.orbit_target(node, turn, is_clockwise).to_vec2(),
            facing: self.orbit_facing(node, turn, is_clockwise).to_vec2(),
            ..self
        }
    }

    /// The angle, in millionths of a radian, that `dt` microseconds of orbiting
    /// `node` sweep: the arc flown divided by the radius.
    pub open spec fn swept_angle(self, node: Node, dt: u32) -> int {
        div_round((self.speed * dt) * UNIT, self.pos@.minus(node.pos@).scaled_len() as int)
    }

    /// The player that a run starts with: see [`Player::fresh`].
    pub fn new() -> (p: Player)
        ensures
            p == Player::fresh(),
            p.wf(),
    {
        Player {
            pos: Vec2 { x: 0, y: 0 },
            speed: PLAYER_SPEED,
            facing: Vec2 { x: 0, y: 1_000_000 },
            bbox: PLAYER_BBOX,
            time_disconnected: 0,
        }
    }

    /// Whether the player is well formed.
    pub fn check(&self) -> (b: bool)
        ensures
            b == self.wf(),
    {
        -WORLD_LIMIT <= self.pos.x && self.pos.x <= WORLD_LIMIT && -WORLD_LIMIT <= self.pos.y
            && self.pos.y <= WORLD_LIMIT && self.facing.check_unit()
    }

    /// The displacement of a free flight: see [`Player::free_step`].
    pub fn free_displacement(&self, dt: u32) -> (step: Vec2)
        requires
            self.wf(),
        ensures
            step@ == self.free_step(dt),
            step@.within(SPAN as int),
    {
        proof {
            lemma_unit_within(self.facing@);
            lemma_arc(self.speed, dt);
            lemma_mul_within(
                self.speed * dt,
                self.facing.x as int,
                0x1_0000_0000_0000_0000,
                UNIT + 1,
            );
            lemma_mul_within(
                self.speed * dt,
                self.facing.y as int,
                0x1_0000_0000_0000_0000,
                UNIT + 1,
            );
            assert(UNIT * UNIT == 1_000_000_000_000);
        }
        let arc: i128 = (self.speed as i128) * (dt as i128);
        let ax: i128 = arc * (self.facing.x as i128);
        let ay: i128 = arc * (self.facing.y as i128);
        let x: i128 = round_div(ax, 1_000_000_000_000);
        let y: i128 = round_div(ay, 1_000_000_000_000);
        proof {
            lemma_free_step_small(self.speed, dt, self.facing.x as int);
            lemma_free_step_small(self.speed, dt, self.facing.y as int);
        }
        Vec2 { x: x as i64, y: y as i64 }
    }

    /// Whether a free flight of `dt` microseconds ends inside the world.
    pub fn can_advance_free(&self, dt: u32) -> (b: bool)
        requires
            self.wf(),
        ensures
            b == self.free_target(dt).within(WORLD_LIMIT as int),
    {
        let target = self.pos.plus(self.free_displacement(dt));
        -WORLD_LIMIT <= target.x && target.x <= WORLD_LIMIT && -WORLD_LIMIT <= target.y && target.y
            <= WORLD_LIMIT
    }

    /// Free flight: moves the player `speed * dt` along its heading, which
    /// stays as it is.
    pub fn advance_free(&mut self, dt: u32)
        requires
            old(self).wf(),
            old(self).free_target(dt).within(WORLD_LIMIT as int),
        ensures
            *final(self) == old(self).advanced(dt),
            final(self).wf(),
    {
        self.pos = self.pos.plus(self.free_displacement(dt));
    }

    /// The offset from `node` after an orbit step, and the heading there.
    fn orbit_step(&self, node: &Node, turn: Vec2, is_clockwise: bool) -> (r: (Vec2, Vec2))
        requires
            self.wf(),
            node.wf(),
            turn.is_unit(),
            self.pos != node.pos,
        ensures
            r.0@ == self.orbit_offset(*node, turn, is_clockwise),
            r.1@ == self.orbit_facing(*node, turn, is_clockwise),
            r.0@.within(REACH as int),
            r.1.is_unit(),
    {
        proof {
            lemma_unit_within(turn@);
        }
        let delta = self.pos.minus(node.pos);
        let applied = if is_clockwise {
            turn.conjugate()
        } else {
            turn
        };
        let offset = delta.rotated(applied);
        proof {
            lemma_rotated_nonzero(delta@, applied@);
            lemma_rotated_within(delta@, applied@, 2 * WORLD_LIMIT);
        }
        let tangent = if is_clockwise {
            Vec2 { x: offset.y, y: -offset.x }
        } else {
            Vec2 { x: -offset.y, y: offset.x }
        };
        (offset, tangent.normalized())
    }

    /// Whether an orbit step of `dt` microseconds can be made with `turn`:
    /// the turn fits the angle swept, and the step ends inside the world.
    pub fn can_orbit(&self, node: &Node, dt: u32, turn: Vec2, is_clockwise: bool) -> (b: bool)
        requires
            self.wf(),
            node.wf(),
            self.pos != node.pos,
        ensures
            b == (is_turn_of(turn@, self.swept_angle(*node, dt)) && self.orbit_target(
                *node,
                turn,
                is_clockwise,
            ).within(WORLD_LIMIT as int)),
    {
        if !check_turn(turn, self.orbit_angle(node, dt)) {
            return false;
        }
        let (offset, _) = self.orbit_step(node, turn, is_clockwise);
        let x: i64 = node.pos.x + offset.x;
        let y: i64 = node.pos.y + offset.y;
        -WORLD_LIMIT <= x && x <= WORLD_LIMIT && -WORLD_LIMIT <= y && y <= WORLD_LIMIT
    }

    /// One orbit step of `dt` microseconds about `node`. `turn` holds the
    /// cosine and sine of the angle swept, [`Player::swept_angle`]: the offset
    /// from the node is turned by it, counter-clockwise or clockwise, and the
    /// heading becomes the tangent of the circle at the new position.
    pub fn orbit(&mut self, node: &Node, dt: u32, turn: Vec2, is_clockwise: bool)
        requires
            old(self).wf(),
            node.wf(),
            old(self).pos != node.pos,
            is_turn_of(turn@, old(self).swept_angle(*node, dt)),
            old(self).orbit_target(*node, turn, is_clockwise).within(WORLD_LIMIT as int),
        ensures
            *final(self) == old(self).orbited(*node, turn, is_clockwise),
            final(self).wf(),
    {
        let (offset, facing) = self.orbit_step(node, turn, is_clockwise);
        self.pos = Vec2 { x: node.pos.x + offset.x, y: node.pos.y + offset.y };
        self.facing = facing;
    }

    /// The angle that `dt` microseconds of orbiting `node` sweep, in millionths
    /// of a radian: see [`Player::swept_angle`].
    pub fn orbit_angle(&self, node: &Node, dt: u32) -> (angle: u64)
        requires
            self.wf(),
            node.wf(),
            self.pos != node.pos,
        ensures
            angle == self.swept_angle(*node, dt),
    {
        let delta = self.pos.minus(node.pos);
        proof {
            lemma_arc(self.speed, dt);
        }
        let len: u64 = delta.scaled_length();
        let arc: i128 = (self.speed as i128) * (dt as i128);
        let angle: i128 = round_div(arc * 1_000_000, len as i128);
        proof {
            lemma_swept_small(self.speed * dt, len as int);
            assert(arc * 1_000_000 == (self.speed * dt) * UNIT);
        }
        angle as u64
    }
}

/// The arc flown in one tick, in millionths of a millionth of a world unit.
proof fn lemma_arc(speed: u32, dt: u32)
    ensures
        0 <= speed * dt < 0x1_0000_0000_0000_0000,
{
    assert(0 <= speed * dt <= 0xFFFF_FFFF * 0xFFFF_FFFF) by (nonlinear_arith)
        requires
            0 <= speed <= 0xFFFF_FFFF,
            0 <= dt <= 0xFFFF_FFFF,
    ;
}

/// A free step stays far inside the span of the arithmetic.
proof fn lemma_free_step_small(speed: u32, dt: u32, f: int)
    requires
        -(UNIT + 1) <= f <= UNIT + 1,
    ensures
        -0x2000_0000_0000 <= div_round((speed * dt) * f, UNIT * UNIT) <= 0x2000_0000_0000,
{
    let arc = speed * dt;
    lemma_arc(speed, dt);
    lemma_mul_within(arc, f, 0x1_0000_0000_0000_0000, UNIT + 1);
    assert(UNIT * UNIT == 1_000_000_000_000);
    lemma_div_round_le(arc * f, 1_000_000_000_000, 0x2000_0000_0000);
}

/// A swept angle, in millionths of a radian, is at most the arc flown.
proof fn lemma_swept_small(arc: int, len: int)
    requires
        0 <= arc < 0x1_0000_0000_0000_0000,
        len >= UNIT,
    ensures
        0 <= div_round(arc * UNIT, len) <= arc,
{
    lemma_div_round_error(arc * UNIT, len);
    lemma_div_round_bound(arc * UNIT, len);
    let q = div_round(arc * UNIT, len);
    let u: int = 1_000_000;
    assert(q <= arc) by (nonlinear_arith)
        requires
            2 * (q * len) <= 2 * (arc * u) + len,
            len >= u,
            u == 1_000_000,
            arc >= 0,
            q >= 0,
    ;
}

} // verus!
