//! The node field: a procedural layout drawn from a seeded generator.

use crate::geometry::{AREA_WIDTH, HALF_WIDTH};
use crate::node::{nodes_wf, Color, Node};
use crate::vector::Vec2;
use oorandom::Rand32;
use vstd::prelude::*;

verus! {

/// Vertical distance between the slots of consecutive nodes.
pub const NODE_SPACING: i64 = 1_500_000;

/// Height of the band around its slot in which a node lies.
pub const NODE_JITTER: u32 = 1_000_000;

/// Smallest radius of a generated node.
pub const MIN_RADIUS: u32 = 50_000;

/// Width of the range of radii: they stay below `MIN_RADIUS + RADIUS_RANGE`.
pub const RADIUS_RANGE: u32 = 200_000;

/// Largest index whose node still lies in the world.
pub const MAX_NODE_INDEX: u32 = 66_666;

/// The state of the generator seeded with `seed`.
pub uninterp spec fn rand32_seeded(seed: u64) -> (u64, u64);

/// The number that the generator gives in `state`, and the state it is in
/// afterwards.
pub uninterp spec fn rand32_drawn(state: (u64, u64)) -> (u32, (u64, u64));

/// Seeds the generator: `oorandom::Rand32::new`, read back with
/// `Rand32::state`. Claimed: the state depends on the seed alone.
#[verifier::external_body]
fn rand32_seed(seed: u64) -> (state: (u64, u64))
    ensures
        state == rand32_seeded(seed),
{
    Rand32::new(seed).state()
}

/// Draws one number: `oorandom::Rand32::rand_u32`, on the generator that
/// `Rand32::from_state` rebuilds and `Rand32::state` reads back. Claimed: the
/// number and the next state depend on the state alone.
#[verifier::external_body]
fn rand32_draw(state: (u64, u64)) -> (r: (u32, (u64, u64)))
    ensures
        r == rand32_drawn(state),
{
    let mut rng = Rand32::from_state(state);
    let value = rng.rand_u32();
    (value, rng.state())
}

/// The share of `range` that a draw stands for: its upper 24 bits as a
/// fraction of one, times `range`, rounded down.
pub open spec fn draw_scaled(draw: u32, range: int) -> int {
    ((draw / 256) * range) / 0x100_0000
}

/// The colour of the node with index `i`.
pub open spec fn palette(i: int) -> Color {
    let k = i % 6;
    if k == 0 {
        Color::White
    } else if k == 1 {
        Color::Magenta
    } else if k == 2 {
        Color::Cyan
    } else if k == 3 {
        Color::Green
    } else if k == 4 {
        Color::Red
    } else {
        Color::Yellow
    }
}

/// The node with index `i` that three draws give: one for the height within
/// its band, one for the place across the corridor, one for the radius.
#[verifier::opaque]
pub open spec fn node_of(i: int, draw_y: u32, draw_x: u32, draw_r: u32) -> Node {
    Node {
        pos: Vec2 {
            x: (draw_scaled(draw_x, AREA_WIDTH as int) - HALF_WIDTH) as i64,
            y: (draw_scaled(draw_y, NODE_JITTER as int) - NODE_JITTER / 2 + NODE_SPACING * i) as i64,
        },
        radius: (draw_scaled(draw_r, RADIUS_RANGE as int) + MIN_RADIUS) as u32,
        color: palette(i),
    }
}

/// The nodes with indices `begin ..= end`, drawn one after the other from a
/// generator in `state`.
pub open spec fn field(begin: int, end: int, state: (u64, u64)) -> Seq<Node>
    decreases end - begin + 1,
{
    if begin > end {
        Seq::empty()
    } else {
        let (draw_y, state1) = rand32_drawn(state);
        let (draw_x, state2) = rand32_drawn(state1);
        let (draw_r, state3) = rand32_drawn(state2);
        seq![node_of(begin, draw_y, draw_x, draw_r)].add(field(begin + 1, end, state3))
    }
}

/// A node of index `i` lies in its band of the corridor and has a radius of
/// the range.
#[verifier::opaque]
pub open spec fn is_placed(node: Node, i: int) -> bool {
    &&& NODE_SPACING * i - NODE_JITTER / 2 <= node.pos.y < NODE_SPACING * i + NODE_JITTER / 2
    &&& -HALF_WIDTH <= node.pos.x < AREA_WIDTH - HALF_WIDTH
    &&& MIN_RADIUS <= node.radius < MIN_RADIUS + RADIUS_RANGE
    &&& node.color == palette(i)
    &&& node.wf()
}

/// A scaled draw lies in `0 .. range`.
pub proof fn lemma_draw_scaled(draw: u32, range: int)
    requires
        range > 0,
    ensures
        0 <= draw_scaled(draw, range) < range,
{
    let k = (draw / 256) as int;
    assert(0 <= k * range < 0x100_0000 * range) by (nonlinear_arith)
        requires
            0 <= k < 0x100_0000,
            range > 0,
    ;
}

/// Whatever the draws, the node of an index up to `MAX_NODE_INDEX` is placed
/// as [`is_placed`] says.
pub proof fn lemma_node_placed(i: int, draw_y: u32, draw_x: u32, draw_r: u32)
    requires
        0 <= i <= MAX_NODE_INDEX,
    ensures
        is_placed(node_of(i, draw_y, draw_x, draw_r), i),
{
    reveal(node_of);
    reveal(is_placed);
    lemma_draw_scaled(draw_y, NODE_JITTER as int);
    lemma_draw_scaled(draw_x, AREA_WIDTH as int);
    lemma_draw_scaled(draw_r, RADIUS_RANGE as int);
}

/// Of two placed nodes the one with the larger index lies higher; a placed
/// node is well formed.
pub proof fn lemma_placed_rising(lower: Node, upper: Node, i: int, j: int)
    requires
        is_placed(lower, i),
        is_placed(upper, j),
        i < j,
    ensures
        lower.pos.y < upper.pos.y,
        lower.wf(),
        upper.wf(),
{
    reveal(is_placed);
}

/// The field has one node for each index, each placed as [`is_placed`] says,
/// so that the nodes rise strictly with their index.
pub proof fn lemma_field_shape(begin: int, end: int, state: (u64, u64))
    requires
        0 <= begin,
        end <= MAX_NODE_INDEX,
    ensures
        field(begin, end, state).len() == if begin > end {
            0
        } else {
            end - begin + 1
        },
        forall|k: int|
            0 <= k < field(begin, end, state).len() ==> is_placed(
                #[trigger] field(begin, end, state)[k],
                begin + k,
            ),
        forall|j: int, k: int|
            0 <= j < k < field(begin, end, state).len() ==> (#[trigger] field(
                begin,
                end,
                state,
            )[j]).pos.y < (#[trigger] field(begin, end, state)[k]).pos.y,
        nodes_wf(field(begin, end, state)),
    decreases end - begin + 1,
{
    if begin <= end {
        let (draw_y, state1) = rand32_drawn(state);
        let (draw_x, state2) = rand32_drawn(state1);
        let (draw_r, state3) = rand32_drawn(state2);
        let head = node_of(begin, draw_y, draw_x, draw_r);
        let rest = field(begin + 1, end, state3);
        lemma_node_placed(begin, draw_y, draw_x, draw_r);
        lemma_field_shape(begin + 1, end, state3);
        let all = field(begin, end, state);
        assert(all == seq![head].add(rest));
        assert forall|k: int| 0 <= k < all.len() implies is_placed(#[trigger] all[k], begin + k) by {
            if k > 0 {
                assert(all[k] == rest[k - 1]);
            }
        }
        assert forall|j: int, k: int| 0 <= j < k < all.len() implies (#[trigger] all[j]).pos.y < (
        #[trigger] all[k]).pos.y by {
            assert(is_placed(all[j], begin + j));
            assert(is_placed(all[k], begin + k));
            lemma_placed_rising(all[j], all[k], begin + j, begin + k);
        }
        assert forall|k: int| 0 <= k < all.len() implies (#[trigger] all[k]).wf() by {
            assert(is_placed(all[k], begin + k));
            reveal(is_placed);
        }
    }
}

/// The colour of the node with index `i`: see [`palette`].
pub fn palette_color(i: u32) -> (c: Color)
    ensures
        c == palette(i as int),
{
    let k: u32 = i % 6;
    if k == 0 {
        Color::White
    } else if k == 1 {
        Color::Magenta
    } else if k == 2 {
        Color::Cyan
    } else if k == 3 {
        Color::Green
    } else if k == 4 {
        Color::Red
    } else {
        Color::Yellow
    }
}

/// The share of `range` that a draw stands for: see [`draw_scaled`].
fn scale_draw(draw: u32, range: u32) -> (r: u32)
    requires
        range > 0,
    ensures
        r == draw_scaled(draw, range as int),
        r < range,
{
    proof {
        lemma_draw_scaled(draw, range as int);
        assert(0 <= (draw / 256) * range <= 0x100_0000 * 0x1_0000_0000) by (nonlinear_arith)
            requires
                0 <= draw / 256 < 0x100_0000,
                0 <= range < 0x1_0000_0000,
        ;
    }
    (((draw / 256) as u64 * range as u64) / 0x100_0000) as u32
}

/// The node with index `i` that three draws give: see [`node_of`].
pub fn make_node(i: u32, draw_y: u32, draw_x: u32, draw_r: u32) -> (node: Node)
    requires
        i <= MAX_NODE_INDEX,
    ensures
        node == node_of(i as int, draw_y, draw_x, draw_r),
        is_placed(node, i as int),
{
    proof {
        lemma_node_placed(i as int, draw_y, draw_x, draw_r);
        reveal(node_of);
    }
    let y: i64 = scale_draw(draw_y, NODE_JITTER) as i64 - (NODE_JITTER / 2) as i64 + NODE_SPACING
        * (i as i64);
    let x: i64 = scale_draw(draw_x, AREA_WIDTH as u32) as i64 - HALF_WIDTH as i64;
    Node {
        pos: Vec2 { x, y },
        radius: scale_draw(draw_r, RADIUS_RANGE) + MIN_RADIUS,
        color: palette_color(i),
    }
}

/// The field of the nodes with indices `begin ..= end`, drawn from a
/// generator seeded with `seed`: see [`field`]. The same seed gives the same
/// field.
pub fn make_nodes(begin: u32, end: u32, seed: u64) -> (nodes: Vec<Node>)
    requires
        end <= MAX_NODE_INDEX,
    ensures
        nodes@ == field(begin as int, end as int, rand32_seeded(seed)),
        nodes_wf(nodes@),
        nodes.len() == if begin > end {
            0
        } else {
            end - begin + 1
        },
{
    let mut nodes: Vec<Node> = Vec::new();
    let mut state = rand32_seed(seed);
    let mut i: u32 = begin;
    proof {
        lemma_field_shape(begin as int, end as int, state);
    }
    while i <= end
        invariant
            end <= MAX_NODE_INDEX,
            begin <= i <= end + 1 || (begin > end && i == begin),
            field(begin as int, end as int, rand32_seeded(seed)) == nodes@.add(
                field(i as int, end as int, state),
            ),
        decreases end + 1 - i,
    {
        let (draw_y, state1) = rand32_draw(state);
        let (draw_x, state2) = rand32_draw(state1);
        let (draw_r, state3) = rand32_draw(state2);
        let node = make_node(i, draw_y, draw_x, draw_r);
        proof {
            let rest = field(i + 1, end as int, state3);
            assert(field(i as int, end as int, state) == seq![node].add(rest));
            assert(nodes@.add(seq![node].add(rest)) =~= nodes@.push(node).add(rest));
        }
        nodes.push(node);
        state = state3;
        i += 1;
    }
    proof {
        assert(field(i as int, end as int, state) =~= Seq::<Node>::empty());
        assert(nodes@.add(Seq::<Node>::empty()) =~= nodes@);
    }
    nodes
}

} // verus!
