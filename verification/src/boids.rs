//! The flock: team colours, the agents' columns, and the settings of a round.
//!
//! Agents are numbered from zero; an agent's number indexes every column of
//! a [`Flock`]. An agent without a colour is neutral.

use crate::inputs::ONE;
use vstd::prelude::*;

pub mod neighbors;
pub mod propagation;

verus! {

/// The team colours, in palette order.
#[derive(PartialEq, Eq, Structural, Copy, Clone, Debug, Hash)]
pub enum BoidColor {
    Red,
    Green,
    Blue,
    Yellow,
    Purple,
    Orange,
    Pink,
    Cyan,
}

/// How many colours the palette holds.
pub const PALETTE_SIZE: usize = 8;

impl BoidColor {
    /// Every colour, in palette order.
    pub const ALL: [BoidColor; 8] = [
        BoidColor::Red,
        BoidColor::Green,
        BoidColor::Blue,
        BoidColor::Yellow,
        BoidColor::Purple,
        BoidColor::Orange,
        BoidColor::Pink,
        BoidColor::Cyan,
    ];

    /// The colour's place in the palette.
    pub open spec fn spec_index(self) -> nat {
        match self {
            BoidColor::Red => 0,
            BoidColor::Green => 1,
            BoidColor::Blue => 2,
            BoidColor::Yellow => 3,
            BoidColor::Purple => 4,
            BoidColor::Orange => 5,
            BoidColor::Pink => 6,
            BoidColor::Cyan => 7,
        }
    }

    /// The colour at a place of the palette.
    pub open spec fn spec_from_index(i: nat) -> Option<BoidColor> {
        if i == 0 {
            Some(BoidColor::Red)
        } else if i == 1 {
            Some(BoidColor::Green)
        } else if i == 2 {
            Some(BoidColor::Blue)
        } else if i == 3 {
            Some(BoidColor::Yellow)
        } else if i == 4 {
            Some(BoidColor::Purple)
        } else if i == 5 {
            Some(BoidColor::Orange)
        } else if i == 6 {
            Some(BoidColor::Pink)
        } else if i == 7 {
            Some(BoidColor::Cyan)
        } else {
            None
        }
    }

    pub fn from_index(i: usize) -> (r: Option<Self>)
        ensures
            r == Self::spec_from_index(i as nat),
            r is Some <==> i < PALETTE_SIZE,
            r matches Some(c) ==> c.spec_index() == i,
    {
        match i {
            0 => Some(Self::Red),
            1 => Some(Self::Green),
            2 => Some(Self::Blue),
            3 => Some(Self::Yellow),
            4 => Some(Self::Purple),
            5 => Some(Self::Orange),
            6 => Some(Self::Pink),
            7 => Some(Self::Cyan),
            _ => None,
        }
    }

    pub fn index(&self) -> (r: usize)
        ensures
            r == self.spec_index(),
            r < PALETTE_SIZE,
            Self::spec_from_index(r as nat) == Some(*self),
    {
        match self {
            BoidColor::Red => 0,
            BoidColor::Green => 1,
            BoidColor::Blue => 2,
            BoidColor::Yellow => 3,
            BoidColor::Purple => 4,
            BoidColor::Orange => 5,
            BoidColor::Pink => 6,
            BoidColor::Cyan => 7,
        }
    }
}

/// The agents within capture range of one agent.
pub struct BoidNeighborsCaptureRange {
    pub entities: Vec<usize>,
}

impl Default for BoidNeighborsCaptureRange {
    fn default() -> (r: Self)
        ensures
            r.entities@.len() == 0,
    {
        BoidNeighborsCaptureRange { entities: Vec::new() }
    }
}

/// The agents within separation distance of one agent.
pub struct BoidNeighborsSeparation {
    pub entities: Vec<usize>,
}

impl Default for BoidNeighborsSeparation {
    fn default() -> (r: Self)
        ensures
            r.entities@.len() == 0,
    {
        BoidNeighborsSeparation { entities: Vec::new() }
    }
}

/// The team that is the last one left.
#[derive(PartialEq, Eq, Structural, Copy, Clone, Debug)]
pub struct Winner {
    pub color: BoidColor,
}

/// What colour propagation reports to the game.
#[derive(PartialEq, Eq, Structural, Copy, Clone, Debug)]
pub enum GameEvent {
    /// The leader of this colour was out-coloured.
    LeaderCaptured(BoidColor),
    /// One colour is left.
    GameOver(Winner),
}

/// The agents of one round, one column per attribute.
pub struct Flock {
    /// Where each agent is on the lattice.
    pub positions: Vec<[i32; 2]>,
    /// Each agent's team colour, `None` for a neutral agent.
    pub colors: Vec<Option<BoidColor>>,
    /// Whether the agent leads its colour.
    pub leaders: Vec<bool>,
    /// Whether a player's input device steers the agent.
    pub input_bound: Vec<bool>,
    pub capture_neighbors: Vec<BoidNeighborsCaptureRange>,
    pub separation_neighbors: Vec<BoidNeighborsSeparation>,
}

impl Flock {
    /// Every column has one row per agent.
    pub open spec fn wf(self) -> bool {
        &&& self.colors@.len() == self.positions@.len()
        &&& self.leaders@.len() == self.positions@.len()
        &&& self.input_bound@.len() == self.positions@.len()
        &&& self.capture_neighbors@.len() == self.positions@.len()
        &&& self.separation_neighbors@.len() == self.positions@.len()
    }

    /// A flock without agents.
    pub fn new() -> (r: Self)
        ensures
            r.wf(),
            r.positions@.len() == 0,
    {
        Flock {
            positions: Vec::new(),
            colors: Vec::new(),
            leaders: Vec::new(),
            input_bound: Vec::new(),
            capture_neighbors: Vec::new(),
            separation_neighbors: Vec::new(),
        }
    }

    pub fn len(&self) -> (n: usize)
        ensures
            n == self.positions@.len(),
    {
        self.positions.len()
    }

    pub fn is_well_formed(&self) -> (r: bool)
        ensures
            r == self.wf(),
    {
        let n = self.positions.len();
        self.colors.len() == n && self.leaders.len() == n && self.input_bound.len() == n
            && self.capture_neighbors.len() == n && self.separation_neighbors.len() == n
    }

    /// Adds an agent without neighbours and returns its number.
    pub fn spawn(
        &mut self,
        position: [i32; 2],
        color: Option<BoidColor>,
        leader: bool,
        input_bound: bool,
    ) -> (id: usize)
        requires
            old(self).wf(),
        ensures
            final(self).wf(),
            id == old(self).positions@.len(),
            final(self).positions@ == old(self).positions@.push(position),
            final(self).colors@ == old(self).colors@.push(color),
            final(self).leaders@ == old(self).leaders@.push(leader),
            final(self).input_bound@ == old(self).input_bound@.push(input_bound),
            final(self).capture_neighbors@.len() == id + 1,
            final(self).separation_neighbors@.len() == id + 1,
            final(self).capture_neighbors@[id as int].entities@.len() == 0,
            final(self).separation_neighbors@[id as int].entities@.len() == 0,
            forall|i: int|
                0 <= i < id ==> final(self).capture_neighbors@[i] == old(self).capture_neighbors@[i]
                    && final(self).separation_neighbors@[i] == old(self).separation_neighbors@[i],
    {
        let id = self.positions.len();
        self.positions.push(position);
        self.colors.push(color);
        self.leaders.push(leader);
        self.input_bound.push(input_bound);
        self.capture_neighbors.push(BoidNeighborsCaptureRange { entities: Vec::new() });
        self.separation_neighbors.push(BoidNeighborsSeparation { entities: Vec::new() });
        id
    }
}

/// How far inside the arena's edge an agent is turned back, in lattice steps.
pub const ARENA_PADDING: u32 = 100;

/// What the integrator does with an agent in one tick.
#[derive(PartialEq, Eq, Structural, Copy, Clone, Debug)]
pub enum MotionBranch {
    /// The agent is out of bounds: steering is ignored and the agent is
    /// turned towards the centre of the arena.
    ReturnToCenter,
    /// The agent is in bounds: its averaged steering is applied.
    Steer,
}

/// How far an agent that is out of bounds turns towards the centre in a
/// second at most, in degrees.
pub const RETURN_TURN_RATE: u32 = 90;

/// How far an agent that is out of bounds turns towards the centre in a tick
/// of `dt_millis` milliseconds at most: in fixed-point degrees, rounded down.
pub fn return_step(dt_millis: u32) -> (r: i64)
    ensures
        r == (RETURN_TURN_RATE * ONE * dt_millis) / 1000,
{
    let per_second: i64 = 90_000_000;
    per_second * (dt_millis as i64) / 1000
}

/// Whether a position is out of bounds: farther from the centre than the
/// arena's radius less the padding.
pub open spec fn out_of_bounds(position: [i32; 2], arena_radius: u32) -> bool {
    position[0] * position[0] + position[1] * position[1] > (arena_radius - ARENA_PADDING) * (
    arena_radius - ARENA_PADDING)
}

/// Chooses the integrator's branch for an agent at `position`.
pub fn motion_branch(position: [i32; 2], arena_radius: u32) -> (r: MotionBranch)
    ensures
        r == if out_of_bounds(position, arena_radius) {
            MotionBranch::ReturnToCenter
        } else {
            MotionBranch::Steer
        },
{
    let origin: [i32; 2] = [0, 0];
    let reach: i128 = arena_radius as i128 - ARENA_PADDING as i128;
    assert(0 <= reach * reach <= 0x1_0000_0000_0000_0000) by (nonlinear_arith)
        requires
            -0x1_0000_0000 <= reach <= 0x1_0000_0000,
    ;
    if crate::quadtree::distance_squared(position, origin) > reach * reach {
        MotionBranch::ReturnToCenter
    } else {
        MotionBranch::Steer
    }
}

/// An agent's forward speed, in lattice steps per second.
#[derive(PartialEq, Eq, Structural, Copy, Clone, Debug)]
pub struct Velocity {
    pub forward: i64,
}

impl Default for Velocity {
    fn default() -> (r: Self)
        ensures
            r.forward == 0,
    {
        Velocity { forward: 0 }
    }
}

/// The switches, speeds and ranges of the flock; lengths in lattice steps,
/// speeds in lattice steps per second.
#[derive(Copy, Clone, Debug)]
pub struct BoidSettings {
    pub cohesion_enabled: bool,
    pub separation_enabled: bool,
    pub alignment_enabled: bool,
    /// The maximum speed an agent is allowed to go.
    pub max_speed: u32,
    /// The minimum speed an agent is allowed to go.
    pub min_speed: u32,
    /// The amount an agent's speed changes by in a second.
    pub acceleration: u32,
    /// The deceleration applied to every agent.
    pub drag: u32,
    /// How far an agent turns in a second, in degrees.
    pub max_turn_rate_per_second: u32,
    /// Agents closer than this steer apart.
    pub separation_distance: u32,
    /// Agents closer than this can convert each other.
    pub capture_range: u32,
    /// How far a bot sees.
    pub vision_range: u32,
    pub debug_lines: bool,
}

impl Default for BoidSettings {
    fn default() -> (r: Self)
        ensures
            r.cohesion_enabled && r.separation_enabled && r.alignment_enabled,
            r.max_speed == 120,
            r.min_speed == 60,
            r.acceleration == 300,
            r.drag == 100,
            r.max_turn_rate_per_second == 520,
            r.separation_distance == 15,
            r.capture_range == 20,
            r.vision_range == 500,
            !r.debug_lines,
    {
        Self {
            cohesion_enabled: true,
            separation_enabled: true,
            alignment_enabled: true,
            max_speed: 120,
            min_speed: 60,
            acceleration: 300,
            drag: 100,
            max_turn_rate_per_second: 520,
            separation_distance: 15,
            capture_range: 20,
            vision_range: 500,
            debug_lines: false,
        }
    }
}

/// `n / 1000`, rounded down.
fn per_thousand(n: i128) -> (q: i128)
    requires
        -0x1_0000_0000_0000_0000_0000_0000_0000 <= n <= 0x1_0000_0000_0000_0000_0000_0000_0000,
    ensures
        q == n / 1000,
{
    if n >= 0 {
        n / 1000
    } else {
        let up: i128 = (-n + 999) / 1000;
        -up
    }
}

/// `n / ONE`, rounded down.
fn per_one(n: i128) -> (q: i128)
    requires
        -0x1_0000_0000_0000_0000_0000_0000_0000 <= n <= 0x1_0000_0000_0000_0000_0000_0000_0000,
    ensures
        q == (n as int) / (ONE as int),
{
    if n >= 0 {
        n / 1_000_000
    } else {
        let up: i128 = (-n + 999_999) / 1_000_000;
        -up
    }
}

impl BoidSettings {
    /// The forward speed after a tick of `dt_millis` milliseconds.
    ///
    /// A held boost adds the acceleration once. While the agent is steered,
    /// the averaged speed request, a fixed-point number, scales the
    /// acceleration; the drag works against it, and both act for the length
    /// of the tick. Quotients are rounded down. The result is kept in the
    /// speed range.
    pub open spec fn spec_next_speed(
        self,
        forward: int,
        speed_average: int,
        branch: MotionBranch,
        boost: bool,
        dt_millis: int,
    ) -> int {
        let pull = if branch == MotionBranch::Steer {
            self.acceleration * speed_average / (ONE as int)
        } else {
            0
        };
        let impulse = if boost {
            self.acceleration as int
        } else {
            0
        };
        let raw = forward + impulse + (pull - self.drag) * dt_millis / 1000;
        let floor = if self.min_speed <= self.max_speed {
            self.min_speed
        } else {
            self.max_speed
        };
        if raw < floor {
            floor as int
        } else if raw > self.max_speed {
            self.max_speed as int
        } else {
            raw
        }
    }

    pub fn next_speed(
        &self,
        velocity: Velocity,
        speed_average: i32,
        branch: MotionBranch,
        boost: bool,
        dt_millis: u32,
    ) -> (r: Velocity)
        ensures
            r.forward == self.spec_next_speed(
                velocity.forward as int,
                speed_average as int,
                branch,
                boost,
                dt_millis as int,
            ),
    {
        let acceleration: i128 = self.acceleration as i128;
        let request: i128 = speed_average as i128;
        assert(-0x8000_0000_0000_0000 <= acceleration * request <= 0x8000_0000_0000_0000)
            by (nonlinear_arith)
            requires
                0 <= acceleration <= 0xffff_ffff,
                -0x8000_0000 <= request <= 0x7fff_ffff,
        ;
        let pull: i128 = match branch {
            MotionBranch::Steer => per_one(acceleration * request),
            MotionBranch::ReturnToCenter => 0,
        };
        let impulse: i128 = if boost {
            acceleration
        } else {
            0
        };
        let net: i128 = pull - self.drag as i128;
        let span: i128 = dt_millis as i128;
        assert(-0x1_0000_0000_0000_0000_0000_0000 <= net * span
            <= 0x1_0000_0000_0000_0000_0000_0000) by (nonlinear_arith)
            requires
                -0x1_0000_0000_0000_0000 <= net <= 0x1_0000_0000_0000_0000,
                0 <= span <= 0xffff_ffff,
        ;
        let raw: i128 = velocity.forward as i128 + impulse + per_thousand(net * span);
        let (floor, ceiling) = self.speed_range();
        if raw < floor as i128 {
            Velocity { forward: floor as i64 }
        } else if raw > ceiling as i128 {
            Velocity { forward: ceiling as i64 }
        } else {
            Velocity { forward: raw as i64 }
        }
    }

    /// How far the averaged turn request turns an agent in a tick of
    /// `dt_millis` milliseconds: in fixed-point degrees, counter-clockwise
    /// positive, rounded down. A request to the right turns clockwise.
    pub fn turn_step(&self, turn_average: i32, dt_millis: u32) -> (r: i128)
        ensures
            r == (-(turn_average as int) * self.max_turn_rate_per_second * dt_millis) / 1000,
    {
        let request: i128 = -(turn_average as i128);
        let rate: i128 = self.max_turn_rate_per_second as i128;
        let span: i128 = dt_millis as i128;
        assert(-0x8000_0000_0000_0000 <= request * rate <= 0x8000_0000_0000_0000)
            by (nonlinear_arith)
            requires
                -0x8000_0000 <= request <= 0x8000_0000,
                0 <= rate <= 0xffff_ffff,
        ;
        let per_second: i128 = request * rate;
        assert(-0x1_0000_0000_0000_0000_0000_0000 <= per_second * span
            <= 0x1_0000_0000_0000_0000_0000_0000) by (nonlinear_arith)
            requires
                -0x8000_0000_0000_0000 <= per_second <= 0x8000_0000_0000_0000,
                0 <= span <= 0xffff_ffff,
        ;
        per_thousand(per_second * span)
    }

    /// The range that forward speeds are kept in. Where the minimum is set
    /// above the maximum, the maximum is the floor as well.
    pub fn speed_range(&self) -> (r: (u32, u32))
        ensures
            r.0 == if self.min_speed <= self.max_speed {
                self.min_speed
            } else {
                self.max_speed
            },
            r.1 == self.max_speed,
            r.0 <= r.1,
    {
        if self.min_speed <= self.max_speed {
            (self.min_speed, self.max_speed)
        } else {
            (self.max_speed, self.max_speed)
        }
    }
}
} // verus!
