//! The attachment between player and node, and the choice of the node to
//! attach to.

use crate::geometry::{
    cross_point, filter_deadly_nodes, filter_hitting_nodes, get_cross_point, get_is_aligned,
    get_is_clockwise, is_aligned, is_clockwise, is_hitting, is_viable,
};
use crate::node::{nodes_wf, Node};
use crate::player::Player;
use vstd::prelude::*;

verus! {

/// How the player relates to the nodes. A node is held by value: nodes never
/// change, and several may look alike.
#[derive(Clone, Copy, Debug, PartialEq, Eq, Structural)]
pub enum Attach {
    /// Flying free.
    Detached,
    /// Flying free towards the moment when the heading lines up with the node;
    /// the flag tells whether the orbit will run clockwise.
    Targeting(Node, bool),
    /// Circling the node, clockwise if the flag is set.
    Orbiting(Node, bool),
}

/// What the first choice minimises: the squared distance from the player to
/// the cross point of the node.
pub open spec fn target_key(player: Player, node: Node) -> int {
    cross_point(player, node).dist_sq(player.pos@)
}

/// What the second choice minimises: the squared distance from the player to
/// the node.
pub open spec fn fallback_key(player: Player, node: Node) -> int {
    node.pos@.dist_sq(player.pos@)
}

/// Node `i` is the first choice: it is viable, no viable node has a smaller
/// key, and every earlier viable node has a larger one.
pub open spec fn is_best_target(player: Player, nodes: Seq<Node>, half_width: u32, i: int) -> bool {
    &&& 0 <= i < nodes.len()
    &&& is_viable(player, nodes[i], half_width)
    &&& forall|j: int|
        0 <= j < nodes.len() && #[trigger] is_viable(player, nodes[j], half_width) ==> target_key(
            player,
            nodes[i],
        ) <= target_key(player, nodes[j]) && (j < i ==> target_key(player, nodes[i]) < target_key(
            player,
            nodes[j],
        ))
}

/// Node `i` is the second choice: the player's line of flight stays clear of
/// it, no such node is nearer, and every earlier such node is farther.
pub open spec fn is_best_fallback(player: Player, nodes: Seq<Node>, i: int) -> bool {
    &&& 0 <= i < nodes.len()
    &&& !is_hitting(player, nodes[i])
    &&& forall|j: int|
        0 <= j < nodes.len() && !#[trigger] is_hitting(player, nodes[j]) ==> fallback_key(
            player,
            nodes[i],
        ) <= fallback_key(player, nodes[j]) && (j < i ==> fallback_key(player, nodes[i])
            < fallback_key(player, nodes[j]))
}

/// The index of the first choice, if there is one.
pub open spec fn best_target(player: Player, nodes: Seq<Node>, half_width: u32) -> Option<int> {
    if exists|i: int| is_best_target(player, nodes, half_width, i) {
        Some(choose|i: int| is_best_target(player, nodes, half_width, i))
    } else {
        None
    }
}

/// The index of the second choice, if there is one.
pub open spec fn best_fallback(player: Player, nodes: Seq<Node>) -> Option<int> {
    if exists|i: int| is_best_fallback(player, nodes, i) {
        Some(choose|i: int| is_best_fallback(player, nodes, i))
    } else {
        None
    }
}

/// What an attach request decides for a detached player: lock onto the first
/// choice if the heading is aligned with it, else aim at it; without a first
/// choice lock onto the second; without either stay detached.
pub open spec fn attach_decision(player: Player, nodes: Seq<Node>, half_width: u32) -> Attach {
    match best_target(player, nodes, half_width) {
        Some(i) => if is_aligned(player, nodes[i]) {
            Attach::Orbiting(nodes[i], is_clockwise(player, nodes[i]))
        } else {
            Attach::Targeting(nodes[i], is_clockwise(player, nodes[i]))
        },
        None => match best_fallback(player, nodes) {
            Some(j) => Attach::Orbiting(nodes[j], is_clockwise(player, nodes[j])),
            None => Attach::Detached,
        },
    }
}

/// There is at most one first choice.
pub proof fn lemma_best_target_unique(
    player: Player,
    nodes: Seq<Node>,
    half_width: u32,
    i: int,
    j: int,
)
    requires
        is_best_target(player, nodes, half_width, i),
        is_best_target(player, nodes, half_width, j),
    ensures
        i == j,
{
}

/// There is at most one second choice.
pub proof fn lemma_best_fallback_unique(player: Player, nodes: Seq<Node>, i: int, j: int)
    requires
        is_best_fallback(player, nodes, i),
        is_best_fallback(player, nodes, j),
    ensures
        i == j,
{
}

/// The first choice among the nodes: the viable node whose cross point is
/// nearest to the player, the earliest of them where several are equally near.
pub fn select_target(player: &Player, nodes: &Vec<Node>, half_width: u32) -> (r: Option<usize>)
    requires
        player.wf(),
        nodes_wf(nodes@),
    ensures
        match r {
            Some(i) => is_best_target(*player, nodes@, half_width, i as int),
            None => forall|j: int|
                0 <= j < nodes.len() ==> !#[trigger] is_viable(*player, nodes@[j], half_width),
        },
        match r {
            Some(i) => best_target(*player, nodes@, half_width) == Some(i as int),
            None => best_target(*player, nodes@, half_width) == None::<int>,
        },
{
    let mut best: Option<usize> = None;
    let mut best_key: i128 = 0;
    let mut k: usize = 0;
    while k < nodes.len()
        invariant
            k <= nodes.len(),
            player.wf(),
            nodes_wf(nodes@),
            match best {
                Some(b) => {
                    &&& b < k
                    &&& is_viable(*player, nodes@[b as int], half_width)
                    &&& best_key == target_key(*player, nodes@[b as int])
                    &&& forall|j: int|
                        0 <= j < k && #[trigger] is_viable(*player, nodes@[j], half_width)
                            ==> best_key <= target_key(*player, nodes@[j]) && (j < b ==> best_key
                            < target_key(*player, nodes@[j]))
                },
                None => forall|j: int|
                    0 <= j < k ==> !#[trigger] is_viable(*player, nodes@[j], half_width),
            },
        decreases nodes.len() - k,
    {
        let node = &nodes[k];
        if filter_deadly_nodes(player, node, half_width) {
            let key: i128 = get_cross_point(player, node).dist_sq(player.pos);
            let better = match best {
                Some(_) => key < best_key,
                None => true,
            };
            if better {
                best = Some(k);
                best_key = key;
            }
        }
        k += 1;
    }
    proof {
        match best {
            Some(b) => {
                assert(is_best_target(*player, nodes@, half_width, b as int));
                lemma_best_target_unique(
                    *player,
                    nodes@,
                    half_width,
                    b as int,
                    choose|i: int| is_best_target(*player, nodes@, half_width, i),
                );
            },
            None => {
                assert forall|i: int| !is_best_target(*player, nodes@, half_width, i) by {
                    if 0 <= i < nodes.len() {
                        assert(!is_viable(*player, nodes@[i], half_width));
                    }
                }
            },
        }
    }
    best
}

/// The second choice among the nodes: the node nearest to the player among
/// those that its line of flight stays clear of, the earliest of them where
/// several are equally near.
pub fn select_fallback(player: &Player, nodes: &Vec<Node>) -> (r: Option<usize>)
    requires
        player.wf(),
        nodes_wf(nodes@),
    ensures
        match r {
            Some(i) => is_best_fallback(*player, nodes@, i as int),
            None => forall|j: int| 0 <= j < nodes.len() ==> #[trigger] is_hitting(*player, nodes@[j]),
        },
        match r {
            Some(i) => best_fallback(*player, nodes@) == Some(i as int),
            None => best_fallback(*player, nodes@) == None::<int>,
        },
{
    let mut best: Option<usize> = None;
    let mut best_key: i128 = 0;
    let mut k: usize = 0;
    while k < nodes.len()
        invariant
            k <= nodes.len(),
            player.wf(),
            nodes_wf(nodes@),
            match best {
                Some(b) => {
                    &&& b < k
                    &&& !is_hitting(*player, nodes@[b as int])
                    &&& best_key == fallback_key(*player, nodes@[b as int])
                    &&& forall|j: int|
                        0 <= j < k && !#[trigger] is_hitting(*player, nodes@[j]) ==> best_key
                            <= fallback_key(*player, nodes@[j]) && (j < b ==> best_key
                            < fallback_key(*player, nodes@[j]))
                },
                None => forall|j: int| 0 <= j < k ==> #[trigger] is_hitting(*player, nodes@[j]),
            },
        decreases nodes.len() - k,
    {
        let node = &nodes[k];
        if filter_hitting_nodes(player, node) {
            let key: i128 = node.pos.dist_sq(player.pos);
            let better = match best {
                Some(_) => key < best_key,
                None => true,
            };
            if better {
                best = Some(k);
                best_key = key;
            }
        }
        k += 1;
    }
    proof {
        match best {
            Some(b) => {
                assert(is_best_fallback(*player, nodes@, b as int));
                lemma_best_fallback_unique(
                    *player,
                    nodes@,
                    b as int,
                    choose|i: int| is_best_fallback(*player, nodes@, i),
                );
            },
            None => {
                assert forall|i: int| !is_best_fallback(*player, nodes@, i) by {
                    if 0 <= i < nodes.len() {
                        assert(is_hitting(*player, nodes@[i]));
                    }
                }
            },
        }
    }
    best
}

/// What an attach request decides for a detached player: see
/// [`attach_decision`].
pub fn decide_attach(player: &Player, nodes: &Vec<Node>, half_width: u32) -> (a: Attach)
    requires
        player.wf(),
        nodes_wf(nodes@),
    ensures
        a == attach_decision(*player, nodes@, half_width),
        match a {
            Attach::Detached => true,
            Attach::Targeting(n, _) => nodes@.contains(n),
            Attach::Orbiting(n, _) => nodes@.contains(n),
        },
{
    match select_target(player, nodes, half_width) {
        Some(i) => {
            let node = nodes[i];
            let clockwise = get_is_clockwise(player, &node);
            if get_is_aligned(player, &node) {
                Attach::Orbiting(node, clockwise)
            } else {
                Attach::Targeting(node, clockwise)
            }
        },
        None => match select_fallback(player, nodes) {
            Some(j) => {
                let node = nodes[j];
                Attach::Orbiting(node, get_is_clockwise(player, &node))
            },
            None => Attach::Detached,
        },
    }
}

} // verus!
