//! What holds of the run as a whole.

use crate::attach::{
    attach_decision, best_fallback, best_target, is_best_fallback, is_best_target, target_key,
    Attach,
};
use crate::fixed::{lemma_div_round_error, lemma_div_round_le, magnitude, UNIT};
use crate::geometry::{contact, cross_point, is_clockwise, is_hitting, is_touching, is_viable};
use crate::node::Node;
use crate::player::Player;
use crate::vector::{
    lemma_rotated_nonzero, lemma_rotated_norm, lemma_rotated_side, lemma_rotated_within,
    lemma_scaled_len, lemma_unit_of_nonzero, lemma_unit_same_way, lemma_unit_within, norm_drift,
    SpecVec2, Vec2, WORLD_LIMIT,
};
use crate::world::{trail_pushed, WorldView, TRAIL_LIMIT};
use vstd::prelude::*;

verus! {

/// An orbit step keeps the distance to the node, up to rounding: the squared
/// distance changes by no more than `norm_drift / UNIT` of the offset before
/// the step, whatever the time step behind the turn. For an orbit of one world
/// unit that is a few millionths of a unit in the radius.
pub proof fn lemma_orbit_keeps_radius(player: Player, node: Node, turn: Vec2, is_clockwise: bool)
    requires
        turn.is_unit(),
    ensures
        UNIT * magnitude(
            player.orbit_offset(node, turn, is_clockwise).norm_sq() - player.pos@.dist_sq(
                node.pos@,
            ),
        ) <= norm_drift(player.pos@.minus(node.pos@)),
{
    let applied = Player::orbit_turn(turn, is_clockwise);
    assert((-turn@.y) * (-turn@.y) == turn@.y * turn@.y) by (nonlinear_arith);
    lemma_rotated_norm(player.pos@.minus(node.pos@), applied);
}

/// The offset from the node after a run of orbit steps, one for each turn.
pub open spec fn offset_after(start: SpecVec2, turns: Seq<Vec2>, is_clockwise: bool) -> SpecVec2
    decreases turns.len(),
{
    if turns.len() == 0 {
        start
    } else {
        offset_after(start, turns.drop_last(), is_clockwise).rotated(
            Player::orbit_turn(turns.last(), is_clockwise),
        )
    }
}

/// The drift that a run of orbit steps allows: the sum of the drifts of its
/// steps.
pub open spec fn drift_after(start: SpecVec2, turns: Seq<Vec2>, is_clockwise: bool) -> int
    decreases turns.len(),
{
    if turns.len() == 0 {
        0
    } else {
        drift_after(start, turns.drop_last(), is_clockwise) + norm_drift(
            offset_after(start, turns.drop_last(), is_clockwise),
        )
    }
}

/// A run of orbit steps keeps the distance to the node, up to rounding,
/// however the time is cut into steps: the squared distance at the end
/// differs from the one at the start by no more than the drifts of the steps
/// add up to.
pub proof fn lemma_orbit_run_keeps_radius(start: SpecVec2, turns: Seq<Vec2>, is_clockwise: bool)
    requires
        forall|i: int| 0 <= i < turns.len() ==> (#[trigger] turns[i]).is_unit(),
    ensures
        UNIT * magnitude(offset_after(start, turns, is_clockwise).norm_sq() - start.norm_sq())
            <= drift_after(start, turns, is_clockwise),
    decreases turns.len(),
{
    if turns.len() > 0 {
        let earlier = turns.drop_last();
        lemma_orbit_run_keeps_radius(start, earlier, is_clockwise);
        let before = offset_after(start, earlier, is_clockwise);
        let turn = turns.last();
        assert(turn.is_unit());
        assert((-turn@.y) * (-turn@.y) == turn@.y * turn@.y) by (nonlinear_arith);
        lemma_rotated_norm(before, Player::orbit_turn(turn, is_clockwise));
        let a = offset_after(start, turns, is_clockwise).norm_sq() - before.norm_sq();
        let b = before.norm_sq() - start.norm_sq();
        assert(UNIT * magnitude(a + b) <= UNIT * magnitude(a) + UNIT * magnitude(b))
            by (nonlinear_arith);
    }
}

/// The angle swept times the radius is the arc flown, up to the rounding of
/// the angle: the angular rate of an orbit is the speed over the radius.
pub proof fn lemma_angle_is_arc_over_radius(player: Player, node: Node, dt: u32)
    requires
        player.pos != node.pos,
    ensures
        2 * magnitude(
            player.swept_angle(node, dt) * player.pos@.minus(node.pos@).scaled_len() - (
            player.speed * dt) * UNIT,
        ) <= player.pos@.minus(node.pos@).scaled_len(),
{
    let delta = player.pos@.minus(node.pos@);
    lemma_scaled_len(delta);
    lemma_div_round_error((player.speed * dt) * UNIT, delta.scaled_len() as int);
}

/// An orbit runs in the sense that its flag names: a counter-clockwise step
/// carries the player to the left of its offset from the node, a clockwise one
/// to the right, as soon as the turn is large enough to show through the
/// rounding.
pub proof fn lemma_orbit_sense(player: Player, node: Node, turn: Vec2, is_clockwise: bool)
    requires
        turn.y > 0,
        2 * (turn.y * player.pos@.dist_sq(node.pos@)) > UNIT * (magnitude(
            player.pos.x - node.pos.x,
        ) + magnitude(player.pos.y - node.pos.y)),
    ensures
        is_clockwise ==> player.pos@.minus(node.pos@).perp_dot(
            player.orbit_offset(node, turn, is_clockwise),
        ) < 0,
        !is_clockwise ==> player.pos@.minus(node.pos@).perp_dot(
            player.orbit_offset(node, turn, is_clockwise),
        ) > 0,
{
    let delta = player.pos@.minus(node.pos@);
    let applied = Player::orbit_turn(turn, is_clockwise);
    let after = delta.rotated(applied);
    lemma_rotated_side(delta, applied);
    let q = delta.norm_sq();
    assert((-turn.y) * q == -(turn.y * q)) by (nonlinear_arith);
    let p = delta.perp_dot(after);
    assert(p > 0 <==> UNIT * p > 0) by (nonlinear_arith);
    assert(p < 0 <==> UNIT * p < 0) by (nonlinear_arith);
}

/// After an orbit step the heading is tangent to the orbit in its sense: the
/// test that picks the sense of an orbit, made on the player after the step,
/// gives the sense of the step.
pub proof fn lemma_orbit_heading(player: Player, node: Node, turn: Vec2, is_cw: bool)
    requires
        player.wf(),
        node.wf(),
        turn.is_unit(),
        player.pos != node.pos,
        player.orbit_target(node, turn, is_cw).within(WORLD_LIMIT as int),
    ensures
        is_clockwise(player.orbited(node, turn, is_cw), node) == is_cw,
{
    let delta = player.pos@.minus(node.pos@);
    let applied = Player::orbit_turn(turn, is_cw);
    assert((-turn@.y) * (-turn@.y) == turn@.y * turn@.y) by (nonlinear_arith);
    let offset = delta.rotated(applied);
    lemma_rotated_nonzero(delta, applied);
    lemma_rotated_within(delta, applied, 2 * WORLD_LIMIT);
    let after = player.orbited(node, turn, is_cw);
    let tangent = if is_cw {
        offset.perp().negated()
    } else {
        offset.perp()
    };
    lemma_unit_of_nonzero(tangent);
    lemma_unit_within(tangent.unit());
    lemma_unit_same_way(tangent);
    assert(after.pos@.minus(node.pos@) == offset);
    assert(after.facing@ == tangent.unit());
    let f = tangent.unit();
    if is_cw {
        assert(offset.perp_dot(f) == -tangent.dot(f)) by (nonlinear_arith)
            requires
                tangent.x == offset.y,
                tangent.y == -offset.x,
        ;
    } else {
        assert(offset.perp_dot(f) == tangent.dot(f)) by (nonlinear_arith)
            requires
                tangent.x == -offset.y,
                tangent.y == offset.x,
        ;
    }
}

/// Node `i` is the first choice among the first `k` nodes.
pub open spec fn is_best_among(
    player: Player,
    nodes: Seq<Node>,
    half_width: u32,
    k: int,
    i: int,
) -> bool {
    &&& 0 <= i < k
    &&& is_viable(player, nodes[i], half_width)
    &&& forall|j: int|
        0 <= j < k && #[trigger] is_viable(player, nodes[j], half_width) ==> target_key(
            player,
            nodes[i],
        ) <= target_key(player, nodes[j]) && (j < i ==> target_key(player, nodes[i]) < target_key(
            player,
            nodes[j],
        ))
}

/// Among the first `k` nodes there is a first choice as soon as one of them is
/// viable.
pub proof fn lemma_best_among(player: Player, nodes: Seq<Node>, half_width: u32, k: int) -> (r:
    Option<int>)
    requires
        0 <= k <= nodes.len(),
    ensures
        match r {
            Some(i) => is_best_among(player, nodes, half_width, k, i),
            None => forall|j: int| 0 <= j < k ==> !#[trigger] is_viable(player, nodes[j], half_width),
        },
    decreases k,
{
    if k == 0 {
        None
    } else {
        let before = lemma_best_among(player, nodes, half_width, k - 1);
        if is_viable(player, nodes[k - 1], half_width) {
            match before {
                Some(b) => if target_key(player, nodes[k - 1]) < target_key(player, nodes[b]) {
                    Some(k - 1)
                } else {
                    Some(b)
                },
                None => Some(k - 1),
            }
        } else {
            before
        }
    }
}

/// An attach request is decided by the state alone, and where a node is
/// viable it picks the viable node with the smallest key, the earliest of
/// several: a detached player then aims at that node or locks onto it.
pub proof fn lemma_press_picks_nearest(world: WorldView, v: int)
    requires
        world.attached is Detached,
        0 <= v < world.nodes.len(),
        is_viable(world.player, world.nodes[v], world.half_width),
    ensures
        best_target(world.player, world.nodes, world.half_width) is Some,
        ({
            let i = best_target(world.player, world.nodes, world.half_width)->0;
            &&& is_best_target(world.player, world.nodes, world.half_width, i)
            &&& target_key(world.player, world.nodes[i]) <= target_key(
                world.player,
                world.nodes[v],
            )
            &&& world.pressed().attached is Targeting ==> world.pressed().attached->Targeting_0
                == world.nodes[i]
            &&& world.pressed().attached is Orbiting ==> world.pressed().attached->Orbiting_0
                == world.nodes[i]
            &&& !(world.pressed().attached is Detached)
        }),
{
    let found = lemma_best_among(
        world.player,
        world.nodes,
        world.half_width,
        world.nodes.len() as int,
    );
    assert(found is Some);
    assert(is_best_target(world.player, world.nodes, world.half_width, found->0));
}

/// Once locked onto a node the player stays locked onto it: an attach request
/// changes nothing, and a tick that does not end the run keeps the lock.
pub proof fn lemma_lock_holds(world: WorldView, dt: u32, turn: Vec2)
    requires
        world.attached is Orbiting,
    ensures
        world.pressed() == world,
        !world.step_resets(dt, turn) ==> world.ticked(dt, turn).attached == world.attached,
        world.released().attached == Attach::Detached,
{
}

/// The player does not sit on the centre of the node it is attached to.
pub open spec fn has_radius(world: WorldView) -> bool {
    match world.attached {
        Attach::Detached => true,
        Attach::Targeting(node, _) => world.player.pos != node.pos,
        Attach::Orbiting(node, _) => world.player.pos != node.pos,
    }
}

/// A player on the centre of a node touches it.
pub proof fn lemma_centre_is_touched(player: Player, node: Node)
    requires
        node.wf(),
        player.pos == node.pos,
    ensures
        is_touching(player, node),
{
    assert(0int * 0int == 0);
    let c = contact(player, node);
    assert(c * c >= 1) by (nonlinear_arith)
        requires
            c >= 1,
    ;
}

/// A player on the centre of a node would hit it by flying on.
pub proof fn lemma_centre_is_hit(player: Player, node: Node)
    requires
        player.wf(),
        node.wf(),
        player.pos == node.pos,
    ensures
        is_hitting(player, node),
{
    let f = player.facing@;
    lemma_unit_within(f);
    assert(0 * f.x == 0 && 0 * f.y == 0);
    lemma_div_round_le(0, f.norm_sq(), 0);
    assert(cross_point(player, node) == player.pos@);
    lemma_centre_is_touched(player, node);
}

/// An orbit always has a radius. A run starts detached, and no attach
/// request, release request, tick or start over puts the player on the centre
/// of the node it is attached to; so no tick finds the node it would orbit
/// under the player.
pub proof fn lemma_orbit_has_radius(world: WorldView, dt: u32, turn: Vec2)
    requires
        world.wf(),
    ensures
        has_radius(WorldView::initial(world.nodes, world.half_width)),
        has_radius(world) ==> has_radius(world.pressed()),
        has_radius(world.released()),
        has_radius(world.reset()),
        world.can_step(dt, turn) ==> has_radius(world.ticked(dt, turn)),
        has_radius(world) ==> !world.is_degenerate(),
{
    // an attach request takes no node that the player would hit by flying on
    if world.attached is Detached {
        match best_target(world.player, world.nodes, world.half_width) {
            Some(i) => {
                assert(is_best_target(world.player, world.nodes, world.half_width, i));
                if world.player.pos == world.nodes[i].pos {
                    lemma_centre_is_hit(world.player, world.nodes[i]);
                }
            },
            None => match best_fallback(world.player, world.nodes) {
                Some(j) => {
                    assert(is_best_fallback(world.player, world.nodes, j));
                    if world.player.pos == world.nodes[j].pos {
                        lemma_centre_is_hit(world.player, world.nodes[j]);
                    }
                },
                None => {},
            },
        }
    }
    // a tick that goes on has found the player clear of every node
    if world.can_step(dt, turn) && !world.step_resets(dt, turn) {
        let after = world.stepped(dt, turn);
        match after.attached {
            Attach::Detached => {},
            Attach::Targeting(node, _) => {
                assert(world.nodes.contains(node));
                let k = choose|k: int| 0 <= k < world.nodes.len() && world.nodes[k] == node;
                assert(!is_touching(after.player, after.nodes[k]));
                if after.player.pos == node.pos {
                    lemma_centre_is_touched(after.player, node);
                }
            },
            Attach::Orbiting(node, _) => {
                assert(world.nodes.contains(node));
                let k = choose|k: int| 0 <= k < world.nodes.len() && world.nodes[k] == node;
                assert(!is_touching(after.player, after.nodes[k]));
                if after.player.pos == node.pos {
                    lemma_centre_is_touched(after.player, node);
                }
            },
        }
    }
}

/// Starting over twice is starting over once, and leaves the player at the
/// origin, heading up, detached, with an empty trail and the clock at zero.
pub proof fn lemma_reset_idempotent(world: WorldView)
    ensures
        world.reset().reset() == world.reset(),
        world.reset().player.pos == (Vec2 { x: 0, y: 0 }),
        world.reset().player.facing == (Vec2 { x: 0, y: 1_000_000 }),
        world.reset().player.time_disconnected == 0,
        world.reset().attached == Attach::Detached,
        world.reset().trail.len() == 0,
        world.reset().nodes == world.nodes,
        world.wf() ==> world.reset().wf(),
{
}

/// The trail after the player has been at each of `positions` in turn.
pub open spec fn trail_of(positions: Seq<Vec2>) -> Seq<Vec2>
    decreases positions.len(),
{
    if positions.len() == 0 {
        Seq::empty()
    } else {
        trail_pushed(trail_of(positions.drop_last()), positions.last())
    }
}

/// The trail holds the newest positions, at most `TRAIL_LIMIT` of them, in
/// the order in which the player was there.
pub proof fn lemma_trail_keeps_newest(positions: Seq<Vec2>)
    ensures
        trail_of(positions) == if positions.len() > TRAIL_LIMIT {
            positions.subrange(positions.len() - TRAIL_LIMIT, positions.len() as int)
        } else {
            positions
        },
    decreases positions.len(),
{
    let n = positions.len() as int;
    if n > 0 {
        let earlier = positions.drop_last();
        lemma_trail_keeps_newest(earlier);
        let kept = trail_of(earlier);
        let longer = kept.push(positions.last());
        if n - 1 > TRAIL_LIMIT {
            assert(longer =~= positions.subrange(n - 1 - TRAIL_LIMIT, n));
            assert(trail_of(positions) =~= positions.subrange(n - TRAIL_LIMIT, n));
        } else {
            assert(longer =~= positions);
            if n > TRAIL_LIMIT {
                assert(trail_of(positions) =~= positions.subrange(n - TRAIL_LIMIT, n));
            }
        }
    } else {
        assert(trail_of(positions) =~= positions);
    }
}

} // verus!
