//! The geometric tests behind attachment, and the map from world to screen.

use crate::fixed::{div_round, lemma_div_round_le, round_div, UNIT};
use crate::node::Node;
use crate::player::Player;
use crate::vector::{lemma_mul_within, lemma_unit_within, SpecVec2, Vec2, SPAN};
use vstd::prelude::*;

verus! {

/// Height of the visible area, in millionths of a world unit.
pub const AREA_HEIGHT: i64 = 5_000_000;

/// Width of the corridor: the visible height times 480 / 848.
pub const AREA_WIDTH: i64 = 2_830_188;

/// Half the width of the corridor.
pub const HALF_WIDTH: u32 = 1_415_094;

/// The distance beyond which a node cannot be acquired: two world units.
pub const MAX_ACQUIRE: i64 = 2_000_000;

/// The vector from the player to the centre of the node.
pub open spec fn to_node(player: Player, node: Node) -> SpecVec2 {
    node.pos@.minus(player.pos@)
}

/// The signed length of the projection of the node onto the player's line of
/// flight, times the length of the heading.
pub open spec fn along(player: Player, node: Node) -> int {
    to_node(player, node).dot(player.facing@)
}

/// The point of the player's line of flight that is nearest to the node, each
/// coordinate rounded.
pub open spec fn cross_point(player: Player, node: Node) -> SpecVec2 {
    let f = player.facing@;
    let t = along(player, node);
    player.pos@.plus(
        SpecVec2 { x: div_round(t * f.x, f.norm_sq()), y: div_round(t * f.y, f.norm_sq()) },
    )
}

/// The node's projection lies behind the player.
pub open spec fn is_behind(player: Player, node: Node) -> bool {
    along(player, node) < 0
}

/// The distance at which player and node touch.
pub open spec fn contact(player: Player, node: Node) -> int {
    player.bbox + node.radius
}

/// Flying on, the player would run into the node: the cross point is nearer
/// to the node's centre than the contact distance.
pub open spec fn is_hitting(player: Player, node: Node) -> bool {
    node.pos@.dist_sq(cross_point(player, node)) < contact(player, node) * contact(player, node)
}

/// Player and node overlap: their centres are nearer than the contact
/// distance.
pub open spec fn is_touching(player: Player, node: Node) -> bool {
    player.pos@.dist_sq(node.pos@) < contact(player, node) * contact(player, node)
}

/// The cross point lies outside the corridor.
pub open spec fn is_outside(player: Player, node: Node, half_width: u32) -> bool {
    cross_point(player, node).x > half_width || cross_point(player, node).x < -half_width
}

/// The node is farther from the player than the acquisition distance.
pub open spec fn is_far_away(player: Player, node: Node) -> bool {
    player.pos@.dist_sq(node.pos@) > MAX_ACQUIRE * MAX_ACQUIRE
}

/// The node can be aimed at: it is ahead, near enough, its cross point lies in
/// the corridor and clear of the node itself.
pub open spec fn is_viable(player: Player, node: Node, half_width: u32) -> bool {
    !(is_outside(player, node, half_width) || is_hitting(player, node) || is_far_away(player, node)
        || is_behind(player, node))
}

/// The cosine of the angle between the heading and the vector to the node is
/// at least 0.9 in magnitude.
pub open spec fn is_aligned(player: Player, node: Node) -> bool {
    100 * (along(player, node) * along(player, node)) >= 81 * (to_node(player, node).norm_sq()
        * player.facing@.norm_sq())
}

/// Seen from the node the player moves clockwise: its heading lies clockwise
/// of the vector from the node to the player.
pub open spec fn is_clockwise(player: Player, node: Node) -> bool {
    player.pos@.minus(node.pos@).perp_dot(player.facing@) < 0
}

/// A point of the world on a screen of the given size, in pixels from the top
/// left, each coordinate rounded. The screen shows the area `AREA_WIDTH` wide
/// and `AREA_HEIGHT` high whose bottom edge has `origin` at its middle.
pub open spec fn screen_point(
    screen_width: u32,
    screen_height: u32,
    point: Vec2,
    origin: Vec2,
) -> SpecVec2 {
    let rel = point@.minus(origin@);
    SpecVec2 {
        x: div_round(screen_width * (2 * rel.x + AREA_WIDTH), 2 * AREA_WIDTH),
        y: div_round(screen_height * (AREA_HEIGHT - rel.y), AREA_HEIGHT as int),
    }
}

/// The sizes of the quantities above, for a player and a node of the world.
pub proof fn lemma_geometry_bounds(player: Player, node: Node)
    requires
        player.wf(),
        node.wf(),
    ensures
        to_node(player, node).within(200_000_000_000),
        -400_000_400_000_000_000 <= along(player, node) <= 400_000_400_000_000_000,
        999_996_000_000 <= player.facing@.norm_sq() <= 1_000_004_000_000,
        0 <= to_node(player, node).norm_sq() <= 80_000_000_000_000_000_000_000,
        player.facing@.within(UNIT + 1),
        cross_point(player, node).within(600_000_000_000),
{
    let d = to_node(player, node);
    let f = player.facing@;
    let t = along(player, node);
    let n = f.norm_sq();
    lemma_unit_within(f);
    lemma_mul_within(d.x, f.x, 200_000_000_000, 1_000_001);
    lemma_mul_within(d.y, f.y, 200_000_000_000, 1_000_001);
    lemma_mul_within(d.x, d.x, 200_000_000_000, 200_000_000_000);
    lemma_mul_within(d.y, d.y, 200_000_000_000, 200_000_000_000);
    assert(d.x * d.x >= 0 && d.y * d.y >= 0) by (nonlinear_arith);
    lemma_mul_within(t, f.x, 400_000_400_000_000_000, 1_000_001);
    lemma_mul_within(t, f.y, 400_000_400_000_000_000, 1_000_001);
    lemma_div_round_le(t * f.x, n, 500_000_000_000);
    lemma_div_round_le(t * f.y, n, 500_000_000_000);
}

/// The point of the player's line of flight nearest to the node: see
/// [`cross_point`].
pub fn get_cross_point(player: &Player, node: &Node) -> (p: Vec2)
    requires
        player.wf(),
        node.wf(),
    ensures
        p@ == cross_point(*player, *node),
        p@.within(600_000_000_000),
{
    proof {
        lemma_geometry_bounds(*player, *node);
        lemma_mul_within(
            along(*player, *node),
            player.facing.x as int,
            400_000_400_000_000_000,
            1_000_001,
        );
        lemma_mul_within(
            along(*player, *node),
            player.facing.y as int,
            400_000_400_000_000_000,
            1_000_001,
        );
    }
    let t: i128 = node.pos.minus(player.pos).dot(player.facing);
    let n: i128 = player.facing.norm_sq();
    let x: i128 = round_div(t * (player.facing.x as i128), n);
    let y: i128 = round_div(t * (player.facing.y as i128), n);
    Vec2 { x: (player.pos.x as i128 + x) as i64, y: (player.pos.y as i128 + y) as i64 }
}

/// Whether the node lies behind the player: see [`is_behind`].
pub fn get_is_behind(player: &Player, node: &Node) -> (b: bool)
    requires
        player.wf(),
        node.wf(),
    ensures
        b == is_behind(*player, *node),
{
    proof {
        lemma_geometry_bounds(*player, *node);
    }
    node.pos.minus(player.pos).dot(player.facing) < 0
}

/// Whether the player would run into the node: see [`is_hitting`].
pub fn get_is_hitting(player: &Player, node: &Node) -> (b: bool)
    requires
        player.wf(),
        node.wf(),
    ensures
        b == is_hitting(*player, *node),
{
    let cross = get_cross_point(player, node);
    let reach: i128 = player.bbox as i128 + node.radius as i128;
    proof {
        lemma_mul_within(reach as int, reach as int, 0x2_0000_0000, 0x2_0000_0000);
    }
    node.pos.dist_sq(cross) < reach * reach
}

/// Whether player and node overlap: see [`is_touching`].
pub fn get_is_touching(player: &Player, node: &Node) -> (b: bool)
    requires
        player.wf(),
        node.wf(),
    ensures
        b == is_touching(*player, *node),
{
    let reach: i128 = player.bbox as i128 + node.radius as i128;
    proof {
        lemma_mul_within(reach as int, reach as int, 0x2_0000_0000, 0x2_0000_0000);
    }
    player.pos.dist_sq(node.pos) < reach * reach
}

/// Whether the node can be aimed at: see [`is_viable`].
pub fn filter_deadly_nodes(player: &Player, node: &Node, half_width: u32) -> (b: bool)
    requires
        player.wf(),
        node.wf(),
    ensures
        b == is_viable(*player, *node, half_width),
{
    let cross = get_cross_point(player, node);
    let behind = get_is_behind(player, node);
    let outside = cross.x > half_width as i64 || cross.x < -(half_width as i64);
    let hitting = get_is_hitting(player, node);
    let far_away = player.pos.dist_sq(node.pos) > (MAX_ACQUIRE as i128) * (MAX_ACQUIRE as i128);
    !(outside || hitting || far_away || behind)
}

/// Whether the player's line of flight stays clear of the node: the opposite
/// of [`is_hitting`].
pub fn filter_hitting_nodes(player: &Player, node: &Node) -> (b: bool)
    requires
        player.wf(),
        node.wf(),
    ensures
        b == !is_hitting(*player, *node),
{
    !get_is_hitting(player, node)
}

/// Whether the heading is aligned with the node: see [`is_aligned`].
pub fn get_is_aligned(player: &Player, node: &Node) -> (b: bool)
    requires
        player.wf(),
        node.wf(),
    ensures
        b == is_aligned(*player, *node),
{
    proof {
        lemma_geometry_bounds(*player, *node);
        lemma_mul_within(
            along(*player, *node),
            along(*player, *node),
            400_000_400_000_000_000,
            400_000_400_000_000_000,
        );
        lemma_mul_within(
            to_node(*player, *node).norm_sq(),
            player.facing@.norm_sq(),
            80_000_000_000_000_000_000_000,
            1_000_004_000_000,
        );
    }
    let d = node.pos.minus(player.pos);
    let t: i128 = d.dot(player.facing);
    let lengths: i128 = d.norm_sq() * player.facing.norm_sq();
    100 * (t * t) >= 81 * lengths
}

/// Whether the player passes the node clockwise: see [`is_clockwise`].
pub fn get_is_clockwise(player: &Player, node: &Node) -> (b: bool)
    requires
        player.wf(),
        node.wf(),
    ensures
        b == is_clockwise(*player, *node),
{
    proof {
        lemma_unit_within(player.facing@);
    }
    player.pos.minus(node.pos).perp_dot(player.facing) < 0
}

/// Maps a point of the world to the screen: see [`screen_point`].
pub fn world_to_screen_coords(
    screen_width: u32,
    screen_height: u32,
    point: Vec2,
    origin: Vec2,
) -> (p: Vec2)
    requires
        point@.within(SPAN as int),
        origin@.within(SPAN as int),
    ensures
        p@ == screen_point(screen_width, screen_height, point, origin),
{
    let rel = point.minus(origin);
    let ax: i128 = 2 * (rel.x as i128) + (AREA_WIDTH as i128);
    let ay: i128 = (AREA_HEIGHT as i128) - (rel.y as i128);
    proof {
        lemma_mul_within(screen_width as int, ax as int, 0x1_0000_0000, 0x8_0000_0000_0000);
        lemma_mul_within(screen_height as int, ay as int, 0x1_0000_0000, 0x8_0000_0000_0000);
        lemma_div_round_le(screen_width * ax, 2 * AREA_WIDTH, 0x4000_0000_0000_0000);
        lemma_div_round_le(screen_height * ay, AREA_HEIGHT as int, 0x4000_0000_0000_0000);
    }
    let x: i128 = round_div((screen_width as i128) * ax, 2 * (AREA_WIDTH as i128));
    let y: i128 = round_div((screen_height as i128) * ay, AREA_HEIGHT as i128);
    Vec2 { x: x as i64, y: y as i64 }
}

} // verus!
