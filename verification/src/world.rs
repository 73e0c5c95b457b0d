//! The run: player, field, attachment and trail, and the tick that advances
//! them.

use crate::attach::{attach_decision, decide_attach, Attach};
use crate::field::{field, make_nodes, rand32_seeded};
use crate::fixed::{div_round, lemma_div_round_bound, magnitude, round_div, UNIT};
use crate::geometry::{get_is_aligned, get_is_touching, is_aligned, is_touching, HALF_WIDTH};
use crate::node::{nodes_wf, Node};
use crate::player::{is_turn_of, Player};
use crate::vector::{SpecVec2, Vec2, WORLD_LIMIT};
use vstd::prelude::*;

verus! {

/// How many positions the trail keeps.
pub const TRAIL_LIMIT: usize = 100;

/// Microseconds after detaching during which the side walls do no harm.
pub const GRACE_PERIOD: u64 = 100_000;

/// Index of the last node of the standard field; the first is 0.
pub const LAST_NODE: u32 = 100;

/// Microseconds that the player may spend outside the corridor.
pub const MAX_TIME_OUTSIDE: u64 = 500_000;

/// The run. The fields are open so that a caller can draw the world and set
/// up a situation; every operation asks for a well-formed world.
#[derive(Clone, Debug, PartialEq, Eq)]
pub struct World {
    pub player: Player,
    /// The field, in the order in which it was generated. It never changes
    /// during a run.
    pub nodes: Vec<Node>,
    pub attached: Attach,
    /// The latest positions of the player, oldest first.
    pub trail: Vec<Vec2>,
    /// Half the width of the corridor.
    pub half_width: u32,
}

/// The run as a mathematical value.
pub struct WorldView {
    pub player: Player,
    pub nodes: Seq<Node>,
    pub attached: Attach,
    pub trail: Seq<Vec2>,
    pub half_width: u32,
}

/// Why a world could not be built.
#[derive(Clone, Copy, Debug, PartialEq, Eq, Structural)]
pub enum WorldError {
    /// The field has no node.
    EmptyField,
    /// The node at this index lies outside the world or has no radius.
    BadNode(usize),
}

impl View for World {
    type V = WorldView;

    open spec fn view(&self) -> WorldView {
        WorldView {
            player: self.player,
            nodes: self.nodes@,
            attached: self.attached,
            trail: self.trail@,
            half_width: self.half_width,
        }
    }
}

/// The trail with one more position: the newest `TRAIL_LIMIT` of them.
pub open spec fn trail_pushed(trail: Seq<Vec2>, p: Vec2) -> Seq<Vec2> {
    let longer = trail.push(p);
    if longer.len() > TRAIL_LIMIT {
        longer.subrange(longer.len() - TRAIL_LIMIT, longer.len() as int)
    } else {
        longer
    }
}

/// The clock `dt` microseconds later; it stops at the largest value it can
/// hold.
pub open spec fn time_after(t: u64, dt: u32) -> u64 {
    if t + dt > u64::MAX {
        u64::MAX
    } else {
        (t + dt) as u64
    }
}

impl WorldView {
    /// Player and nodes are well formed, the field is not empty, the trail is
    /// within its limit, and an attachment holds a node of the field.
    pub open spec fn wf(self) -> bool {
        &&& self.player.wf()
        &&& self.nodes.len() > 0
        &&& nodes_wf(self.nodes)
        &&& self.trail.len() <= TRAIL_LIMIT
        &&& match self.attached {
            Attach::Detached => true,
            Attach::Targeting(node, _) => self.nodes.contains(node),
            Attach::Orbiting(node, _) => self.nodes.contains(node),
        }
    }

    /// The world at the start of a run on the given field.
    pub open spec fn initial(nodes: Seq<Node>, half_width: u32) -> WorldView {
        WorldView {
            player: Player::fresh(),
            nodes,
            attached: Attach::Detached,
            trail: Seq::empty(),
            half_width,
        }
    }

    /// The player, not orbiting, touches a side wall after the grace period.
    pub open spec fn hits_side(self) -> bool {
        &&& !(self.attached is Orbiting)
        &&& magnitude(magnitude(self.player.pos.x as int) - self.half_width) < self.player.bbox
        &&& self.player.time_disconnected > GRACE_PERIOD
    }

    /// The player overlaps a node of the field.
    pub open spec fn hits_node(self) -> bool {
        exists|i: int| 0 <= i < self.nodes.len() && is_touching(self.player, #[trigger] self.nodes[i])
    }

    /// The player is outside the corridor and has been unattached for longer
    /// than allowed.
    pub open spec fn outside_too_long(self) -> bool {
        &&& magnitude(self.player.pos.x as int) > self.half_width
        &&& self.player.time_disconnected > MAX_TIME_OUTSIDE
    }

    /// The run is over.
    pub open spec fn collides(self) -> bool {
        self.hits_side() || self.hits_node() || self.outside_too_long()
    }

    /// The run started over on the same field.
    pub open spec fn reset(self) -> WorldView {
        WorldView {
            player: self.player.restarted(),
            attached: Attach::Detached,
            trail: Seq::empty(),
            ..self
        }
    }

    /// The world after a release request.
    pub open spec fn released(self) -> WorldView {
        WorldView { attached: Attach::Detached, ..self }
    }

    /// The world after an attach request. Only a detached player attaches; a
    /// lock sets the clock back to zero.
    pub open spec fn pressed(self) -> WorldView {
        if self.attached is Detached {
            let decision = attach_decision(self.player, self.nodes, self.half_width);
            WorldView {
                player: if decision is Orbiting {
                    Player { time_disconnected: 0, ..self.player }
                } else {
                    self.player
                },
                attached: decision,
                ..self
            }
        } else {
            self
        }
    }

    /// The node that the coming tick orbits, with the sense of the orbit: the
    /// node of a lock, or the node aimed at once the heading is aligned.
    pub open spec fn orbit_node(self) -> Option<(Node, bool)> {
        match self.attached {
            Attach::Orbiting(node, clockwise) => Some((node, clockwise)),
            Attach::Targeting(node, clockwise) => if is_aligned(self.player, node) {
                Some((node, clockwise))
            } else {
                None
            },
            Attach::Detached => None,
        }
    }

    /// The coming tick would orbit a node on whose centre the player sits.
    pub open spec fn is_degenerate(self) -> bool {
        match self.orbit_node() {
            Some((node, _)) => self.player.pos == node.pos,
            None => false,
        }
    }

    /// The angle that the coming tick of `dt` microseconds sweeps, in
    /// millionths of a radian, if it orbits.
    pub open spec fn swept(self, dt: u32) -> Option<int> {
        match self.orbit_node() {
            Some((node, _)) => if self.player.pos == node.pos {
                None
            } else {
                Some(self.player.swept_angle(node, dt))
            },
            None => None,
        }
    }

    /// Where the motion of the coming tick ends.
    pub open spec fn step_target(self, dt: u32, turn: Vec2) -> SpecVec2 {
        match self.orbit_node() {
            Some((node, clockwise)) => self.player.orbit_target(node, turn, clockwise),
            None => self.player.free_target(dt),
        }
    }

    /// `turn` will do for the coming tick: it is a direction, and if the tick
    /// orbits, it fits the angle swept.
    pub open spec fn turn_fits(self, dt: u32, turn: Vec2) -> bool {
        match self.swept(dt) {
            Some(angle) => is_turn_of(turn@, angle),
            None => turn.is_unit(),
        }
    }

    /// The coming tick can be made with `turn`: the turn will do, and the
    /// player stays inside the world.
    pub open spec fn can_step(self, dt: u32, turn: Vec2) -> bool {
        &&& self.turn_fits(dt, turn)
        &&& self.is_degenerate() || self.step_target(dt, turn).within(WORLD_LIMIT as int)
    }

    /// The world after the motion of a tick: an orbit step about the node of
    /// [`WorldView::orbit_node`], which becomes a lock if it was aimed at, or
    /// else a free flight.
    pub open spec fn moved(self, dt: u32, turn: Vec2) -> WorldView {
        match self.orbit_node() {
            Some((node, clockwise)) => {
                let player = self.player.orbited(node, turn, clockwise);
                WorldView {
                    player: if self.attached is Targeting {
                        Player { time_disconnected: 0, ..player }
                    } else {
                        player
                    },
                    attached: Attach::Orbiting(node, clockwise),
                    ..self
                }
            },
            None => WorldView { player: self.player.advanced(dt), ..self },
        }
    }

    /// The world with the player's position added to the trail.
    pub open spec fn traced(self) -> WorldView {
        WorldView { trail: trail_pushed(self.trail, self.player.pos), ..self }
    }

    /// The world with the clock advanced, unless the player orbits.
    pub open spec fn clocked(self, dt: u32) -> WorldView {
        if self.attached is Orbiting {
            self
        } else {
            WorldView {
                player: Player {
                    time_disconnected: time_after(self.player.time_disconnected, dt),
                    ..self.player
                },
                ..self
            }
        }
    }

    /// The world after motion, trail and clock of a tick, before the run is
    /// judged.
    pub open spec fn stepped(self, dt: u32, turn: Vec2) -> WorldView {
        self.moved(dt, turn).traced().clocked(dt)
    }

    /// The tick ends the run: the player sits on the centre of the node it
    /// would orbit, or collides after the step.
    pub open spec fn step_resets(self, dt: u32, turn: Vec2) -> bool {
        self.is_degenerate() || self.stepped(dt, turn).collides()
    }

    /// The world after a tick.
    pub open spec fn ticked(self, dt: u32, turn: Vec2) -> WorldView {
        if self.step_resets(dt, turn) {
            self.reset()
        } else {
            self.stepped(dt, turn)
        }
    }

    /// The height reached, in whole world units.
    pub open spec fn level(self) -> int {
        div_round(self.player.pos.y as int, UNIT as int)
    }
}

impl World {
    /// A run on the standard field drawn from `seed`, in the corridor of the
    /// standard width.
    pub fn new(seed: u64) -> (world: World)
        ensures
            world@ == WorldView::initial(
                field(0, LAST_NODE as int, rand32_seeded(seed)),
                HALF_WIDTH,
            ),
            world@.wf(),
    {
        World {
            player: Player::new(),
            nodes: make_nodes(0, LAST_NODE, seed),
            attached: Attach::Detached,
            trail: Vec::new(),
            half_width: HALF_WIDTH,
        }
    }

    /// A run on the given field, or the reason why the field will not do.
    pub fn with_nodes(nodes: Vec<Node>, half_width: u32) -> (r: Result<World, WorldError>)
        ensures
            match r {
                Ok(world) => nodes.len() > 0 && nodes_wf(nodes@) && world@ == WorldView::initial(
                    nodes@,
                    half_width,
                ) && world@.wf(),
                Err(WorldError::EmptyField) => nodes.len() == 0,
                Err(WorldError::BadNode(i)) => i < nodes.len() && !nodes@[i as int].wf()
                    && forall|j: int| 0 <= j < i ==> (#[trigger] nodes@[j]).wf(),
            },
    {
        if nodes.len() == 0 {
            return Err(WorldError::EmptyField);
        }
        let mut k: usize = 0;
        while k < nodes.len()
            invariant
                k <= nodes.len(),
                forall|j: int| 0 <= j < k ==> (#[trigger] nodes@[j]).wf(),
            decreases nodes.len() - k,
        {
            if !nodes[k].check() {
                return Err(WorldError::BadNode(k));
            }
            k += 1;
        }
        Ok(
            World {
                player: Player::new(),
                nodes,
                attached: Attach::Detached,
                trail: Vec::new(),
                half_width,
            },
        )
    }

    /// Whether the run is over: see [`WorldView::collides`].
    pub fn handle_collision(&self) -> (b: bool)
        requires
            self@.wf(),
        ensures
            b == self@.collides(),
    {
        let x: i64 = self.player.pos.x;
        let off_centre: i64 = if x < 0 {
            -x
        } else {
            x
        };
        let gap: i64 = off_centre - self.half_width as i64;
        let wall_distance: i64 = if gap < 0 {
            -gap
        } else {
            gap
        };
        let orbiting = match self.attached {
            Attach::Orbiting(_, _) => true,
            _ => false,
        };
        let hits_side = !orbiting && wall_distance < self.player.bbox as i64
            && self.player.time_disconnected > GRACE_PERIOD;
        let outside_too_long = off_centre > self.half_width as i64 && self.player.time_disconnected
            > MAX_TIME_OUTSIDE;
        let mut hits_node = false;
        let mut k: usize = 0;
        while k < self.nodes.len()
            invariant
                k <= self.nodes.len(),
                self@.wf(),
                hits_node == exists|i: int|
                    0 <= i < k && is_touching(self.player, #[trigger] self.nodes@[i]),
            decreases self.nodes.len() - k,
        {
            if get_is_touching(&self.player, &self.nodes[k]) {
                hits_node = true;
            }
            k += 1;
        }
        hits_side || hits_node || outside_too_long
    }

    /// An attach request: see [`WorldView::pressed`].
    pub fn handle_button_press(&mut self)
        requires
            old(self)@.wf(),
        ensures
            final(self)@ == old(self)@.pressed(),
            final(self)@.wf(),
    {
        match self.attached {
            Attach::Detached => {
                let decision = decide_attach(&self.player, &self.nodes, self.half_width);
                match decision {
                    Attach::Orbiting(_, _) => {
                        self.player.time_disconnected = 0;
                    },
                    _ => {},
                }
                self.attached = decision;
            },
            _ => {},
        }
    }

    /// A release request: the player flies free, whatever it was doing.
    pub fn handle_button_release(&mut self)
        ensures
            final(self)@ == old(self)@.released(),
            old(self)@.wf() ==> final(self)@.wf(),
    {
        self.attached = Attach::Detached;
    }

    /// Starts the run over on the same field: see [`WorldView::reset`].
    pub fn reset(&mut self)
        ensures
            final(self)@ == old(self)@.reset(),
            old(self)@.wf() ==> final(self)@.wf(),
    {
        self.player.pos = Vec2 { x: 0, y: 0 };
        self.player.facing = Vec2 { x: 0, y: 1_000_000 };
        self.player.time_disconnected = 0;
        self.attached = Attach::Detached;
        self.trail = Vec::new();
    }

    /// The node that the coming tick orbits: see [`WorldView::orbit_node`].
    fn orbit_choice(&self) -> (r: Option<(Node, bool)>)
        requires
            self@.wf(),
        ensures
            r == self@.orbit_node(),
            match r {
                Some((node, _)) => node.wf(),
                None => true,
            },
    {
        match self.attached {
            Attach::Orbiting(node, clockwise) => Some((node, clockwise)),
            Attach::Targeting(node, clockwise) => if get_is_aligned(&self.player, &node) {
                Some((node, clockwise))
            } else {
                None
            },
            Attach::Detached => None,
        }
    }

    /// The angle, in millionths of a radian, that the coming tick of `dt`
    /// microseconds sweeps if it orbits. The caller hands its cosine and sine
    /// to [`World::update`].
    pub fn orbit_angle(&self, dt: u32) -> (r: Option<u64>)
        requires
            self@.wf(),
        ensures
            match r {
                Some(angle) => self@.swept(dt) == Some(angle as int),
                None => self@.swept(dt) == None::<int>,
            },
    {
        match self.orbit_choice() {
            Some((node, _)) => if self.player.pos == node.pos {
                None
            } else {
                Some(self.player.orbit_angle(&node, dt))
            },
            None => None,
        }
    }

    /// Whether the coming tick can be made with `turn`: see
    /// [`WorldView::can_step`].
    pub fn can_update(&self, dt: u32, turn: Vec2) -> (b: bool)
        requires
            self@.wf(),
        ensures
            b == self@.can_step(dt, turn),
    {
        match self.orbit_choice() {
            Some((node, clockwise)) => if self.player.pos == node.pos {
                turn.check_unit()
            } else {
                self.player.can_orbit(&node, dt, turn, clockwise)
            },
            None => turn.check_unit() && self.player.can_advance_free(dt),
        }
    }

    /// One tick of `dt` microseconds. `turn` holds the cosine and sine of the
    /// angle of [`World::orbit_angle`], in millionths; a tick that does not
    /// orbit ignores it. Returns whether the run started over.
    pub fn update(&mut self, dt: u32, turn: Vec2) -> (reset: bool)
        requires
            old(self)@.wf(),
            old(self)@.can_step(dt, turn),
        ensures
            final(self)@ == old(self)@.ticked(dt, turn),
            reset == old(self)@.step_resets(dt, turn),
            final(self)@.wf(),
    {
        match self.orbit_choice() {
            Some((node, clockwise)) => {
                if self.player.pos == node.pos {
                    self.reset();
                    return true;
                }
                match self.attached {
                    Attach::Targeting(_, _) => {
                        self.player.time_disconnected = 0;
                    },
                    _ => {},
                }
                self.attached = Attach::Orbiting(node, clockwise);
                self.player.orbit(&node, dt, turn, clockwise);
            },
            None => {
                self.player.advance_free(dt);
            },
        }
        assert(self@ == old(self)@.moved(dt, turn));
        self.trail.push(self.player.pos);
        if self.trail.len() > TRAIL_LIMIT {
            self.trail.remove(0);
        }
        assert(self.trail@ =~= trail_pushed(old(self).trail@, self.player.pos));
        match self.attached {
            Attach::Orbiting(_, _) => {},
            _ => {
                let t: u64 = self.player.time_disconnected;
                self.player.time_disconnected = if t > u64::MAX - dt as u64 {
                    u64::MAX
                } else {
                    t + dt as u64
                };
            },
        }
        assert(self@ == old(self)@.stepped(dt, turn));
        if self.handle_collision() {
            self.reset();
            true
        } else {
            false
        }
    }

    /// One tick, if it can be made: `None`, and nothing changes, where `turn`
    /// will not do or the tick would carry the player out of the world.
    pub fn try_update(&mut self, dt: u32, turn: Vec2) -> (r: Option<bool>)
        requires
            old(self)@.wf(),
        ensures
            final(self)@.wf(),
            match r {
                Some(reset) => old(self)@.can_step(dt, turn) && final(self)@ == old(
                    self,
                )@.ticked(dt, turn) && reset == old(self)@.step_resets(dt, turn),
                None => !old(self)@.can_step(dt, turn) && final(self)@ == old(self)@,
            },
    {
        if self.can_update(dt, turn) {
            Some(self.update(dt, turn))
        } else {
            None
        }
    }

    /// The height reached, in whole world units, for display.
    pub fn level(&self) -> (l: i64)
        ensures
            l == self@.level(),
    {
        proof {
            lemma_div_round_bound(self.player.pos.y as int, UNIT as int);
        }
        round_div(self.player.pos.y as i128, UNIT as i128) as i64
    }
}

} // verus!
