//! The flocking systems: who follows whom, and who keeps clear of whom.
//!
//! Each system names, for every agent, the agents it steers by; turning the
//! names into turn and speed values is left to the caller.

use crate::boids::{BoidColor, BoidSettings, Flock, Velocity};
use crate::inputs::ONE;
use vstd::prelude::*;

verus! {

/// What cohesion asks of an agent's speed, by how much faster its leader is.
#[derive(PartialEq, Eq, Structural, Copy, Clone, Debug)]
pub enum SpeedChange {
    /// The leader is far faster: full speed-up.
    CatchUp,
    /// The leader is faster: half speed-up.
    SpeedUp,
    /// The leader is slower by more than the dead zone: full slow-down.
    SlowDown,
    /// Inside the dead zone: no change.
    Hold,
}

impl SpeedChange {
    /// The speed request in fixed point: 1.0, 0.5, -1.0 or 0.0.
    pub open spec fn spec_request(self) -> int {
        match self {
            SpeedChange::CatchUp => ONE as int,
            SpeedChange::SpeedUp => ONE / 2,
            SpeedChange::SlowDown => -ONE,
            SpeedChange::Hold => 0,
        }
    }

    pub fn request(&self) -> (r: i32)
        ensures
            r == self.spec_request(),
    {
        match self {
            SpeedChange::CatchUp => ONE,
            SpeedChange::SpeedUp => ONE / 2,
            SpeedChange::SlowDown => -ONE,
            SpeedChange::Hold => 0,
        }
    }
}

/// The turn that separation submits for a neighbour: twice the turn away
/// from it, kept between -1.0 and 1.0; fixed point throughout.
pub open spec fn spec_separation_turn(away: int) -> int {
    if 2 * away > ONE {
        ONE as int
    } else if 2 * away < -ONE {
        -ONE
    } else {
        2 * away
    }
}

pub fn separation_turn(away: i32) -> (r: i32)
    ensures
        r == spec_separation_turn(away as int),
{
    let doubled: i64 = 2 * (away as i64);
    if doubled > ONE as i64 {
        ONE
    } else if doubled < -(ONE as i64) {
        -ONE
    } else {
        doubled as i32
    }
}

/// The speed request for a difference of `leader - own` forward speed.
pub open spec fn spec_speed_up_down(difference: int) -> SpeedChange {
    if difference > 120 {
        SpeedChange::CatchUp
    } else if difference > 0 {
        SpeedChange::SpeedUp
    } else if difference < -3 {
        SpeedChange::SlowDown
    } else {
        SpeedChange::Hold
    }
}

pub fn speed_up_down(leader: Velocity, own: Velocity) -> (r: SpeedChange)
    ensures
        r == spec_speed_up_down(leader.forward - own.forward),
{
    let difference: i128 = leader.forward as i128 - own.forward as i128;
    if difference > 120 {
        SpeedChange::CatchUp
    } else if difference > 0 {
        SpeedChange::SpeedUp
    } else if difference < -3 {
        SpeedChange::SlowDown
    } else {
        SpeedChange::Hold
    }
}

/// Agent `l` is the first leader of colour `c`.
pub open spec fn leads(flock: Flock, c: BoidColor, l: int) -> bool {
    &&& 0 <= l < flock.positions@.len()
    &&& flock.leaders@[l]
    &&& flock.colors@[l] == Some(c)
    &&& forall|k: int| 0 <= k < l ==> !(flock.leaders@[k] && #[trigger] flock.colors@[k] == Some(c))
}

/// The leader that agent `i` follows: the first leader of its colour, if the
/// agent has a colour, leads nothing itself, and such a leader exists.
pub open spec fn follows(flock: Flock, i: int, target: Option<usize>) -> bool {
    match target {
        Some(l) => {
            &&& !flock.leaders@[i]
            &&& flock.colors@[i] is Some
            &&& leads(flock, flock.colors@[i].unwrap(), l as int)
        },
        None => flock.leaders@[i] || flock.colors@[i] is None || forall|l: int|
            !leads(flock, flock.colors@[i].unwrap(), l),
    }
}

/// Finds the first leader of colour `c`.
pub fn leader_of(flock: &Flock, c: BoidColor) -> (r: Option<usize>)
    requires
        flock.wf(),
    ensures
        r matches Some(l) ==> leads(*flock, c, l as int),
        r is None ==> forall|l: int| !leads(*flock, c, l),
{
    let mut k: usize = 0;
    while k < flock.positions.len()
        invariant
            k <= flock.positions@.len(),
            flock.wf(),
            forall|m: int| 0 <= m < k ==> !(flock.leaders@[m] && #[trigger] flock.colors@[m] == Some(c)),
        decreases flock.positions@.len() - k,
    {
        if flock.leaders[k] {
            let same = match flock.colors[k] {
                Some(d) => d == c,
                None => false,
            };
            if same {
                return Some(k);
            }
        }
        k += 1;
    }
    None
}

/// Finds the leader that agent `i` follows.
pub fn followed_leader(flock: &Flock, i: usize) -> (r: Option<usize>)
    requires
        flock.wf(),
        i < flock.positions@.len(),
    ensures
        follows(*flock, i as int, r),
{
    if flock.leaders[i] {
        return None;
    }
    match flock.colors[i] {
        Some(c) => leader_of(flock, c),
        None => None,
    }
}

/// What cohesion submits for one agent: the leader to turn towards and the
/// speed request.
#[derive(PartialEq, Eq, Structural, Copy, Clone, Debug)]
pub struct Cohesion {
    pub leader: usize,
    pub speed: SpeedChange,
}

/// What cohesion submits for agent `i`: nothing when the system is switched
/// off or the agent follows nobody, else its leader and the speed request
/// for the difference of their speeds.
pub open spec fn cohesion_for(
    flock: Flock,
    velocities: Seq<Velocity>,
    enabled: bool,
    i: int,
    r: Option<Cohesion>,
) -> bool {
    match r {
        Some(c) => enabled && follows(flock, i, Some(c.leader)) && c.speed == spec_speed_up_down(
            velocities[c.leader as int].forward - velocities[i].forward,
        ),
        None => !enabled || follows(flock, i, None),
    }
}

/// Cohesion: every follower of a live leader turns towards it and matches
/// its speed.
pub fn calculate_cohesion_inputs(
    flock: &Flock,
    velocities: &Vec<Velocity>,
    boid_settings: &BoidSettings,
) -> (r: Vec<Option<Cohesion>>)
    requires
        flock.wf(),
        velocities@.len() == flock.positions@.len(),
    ensures
        r@.len() == flock.positions@.len(),
        forall|i: int|
            0 <= i < r@.len() ==> cohesion_for(
                *flock,
                velocities@,
                boid_settings.cohesion_enabled,
                i,
                #[trigger] r@[i],
            ),
{
    let n = flock.positions.len();
    let mut out: Vec<Option<Cohesion>> = Vec::new();
    let mut i: usize = 0;
    while i < n
        invariant
            i <= n,
            n == flock.positions@.len(),
            n == velocities@.len(),
            flock.wf(),
            out@.len() == i,
            forall|k: int|
                0 <= k < i ==> cohesion_for(
                    *flock,
                    velocities@,
                    boid_settings.cohesion_enabled,
                    k,
                    #[trigger] out@[k],
                ),
        decreases n - i,
    {
        let mut entry: Option<Cohesion> = None;
        if boid_settings.cohesion_enabled {
            match followed_leader(flock, i) {
                Some(l) => {
                    entry = Some(Cohesion { leader: l, speed: speed_up_down(velocities[l], velocities[i]) });
                },
                None => {},
            }
        }
        out.push(entry);
        i += 1;
    }
    out
}

/// The agents that agent `i` turns away from: its separation neighbours that
/// exist, in their order, unless the system is switched off.
pub open spec fn separation_for(flock: Flock, enabled: bool, i: int) -> Seq<usize> {
    if enabled {
        flock.separation_neighbors@[i].entities@.filter(
            |e: usize| e < flock.positions@.len(),
        )
    } else {
        Seq::empty()
    }
}

/// Separation: every agent turns away from each of its separation neighbours.
pub fn calculate_separation_inputs(flock: &Flock, boid_settings: &BoidSettings) -> (r: Vec<
    Vec<usize>,
>)
    requires
        flock.wf(),
    ensures
        r@.len() == flock.positions@.len(),
        forall|i: int|
            0 <= i < r@.len() ==> (#[trigger] r@[i])@ == separation_for(
                *flock,
                boid_settings.separation_enabled,
                i,
            ),
{
    let n = flock.positions.len();
    let mut out: Vec<Vec<usize>> = Vec::new();
    let mut i: usize = 0;
    while i < n
        invariant
            i <= n,
            n == flock.positions@.len(),
            flock.wf(),
            out@.len() == i,
            forall|k: int|
                0 <= k < i ==> (#[trigger] out@[k])@ == separation_for(
                    *flock,
                    boid_settings.separation_enabled,
                    k,
                ),
        decreases n - i,
    {
        let mut targets: Vec<usize> = Vec::new();
        if boid_settings.separation_enabled {
            let list = &flock.separation_neighbors[i].entities;
            let ghost live = |e: usize| e < flock.positions@.len();
            let mut k: usize = 0;
            proof {
                reveal(Seq::filter);
                assert(list@.take(0) =~= Seq::empty());
            }
            while k < list.len()
                invariant
                    k <= list.len(),
                    n == flock.positions@.len(),
                    live == |e: usize| e < flock.positions@.len(),
                    targets@ == list@.take(k as int).filter(live),
                decreases list.len() - k,
            {
                proof {
                    list@.take(k as int).lemma_filter_push(list@[k as int], live);
                    assert(list@.take(k + 1) =~= list@.take(k as int).push(list@[k as int]));
                }
                if list[k] < n {
                    targets.push(list[k]);
                }
                k += 1;
            }
            proof {
                assert(list@.take(k as int) =~= list@);
            }
        }
        out.push(targets);
        i += 1;
    }
    out
}

/// Alignment: every follower of a live leader turns to its leader's heading.
/// The result names, for each agent, the leader whose heading it takes.
pub fn calculate_alignment_inputs(flock: &Flock, boid_settings: &BoidSettings) -> (r: Vec<
    Option<usize>,
>)
    requires
        flock.wf(),
    ensures
        r@.len() == flock.positions@.len(),
        forall|i: int|
            0 <= i < r@.len() ==> if boid_settings.alignment_enabled {
                follows(*flock, i, #[trigger] r@[i])
            } else {
                r@[i] is None
            },
{
    let n = flock.positions.len();
    let mut out: Vec<Option<usize>> = Vec::new();
    let mut i: usize = 0;
    while i < n
        invariant
            i <= n,
            n == flock.positions@.len(),
            flock.wf(),
            out@.len() == i,
            forall|k: int|
                0 <= k < i ==> if boid_settings.alignment_enabled {
                    follows(*flock, k, #[trigger] out@[k])
                } else {
                    out@[k] is None
                },
        decreases n - i,
    {
        let mut entry: Option<usize> = None;
        if boid_settings.alignment_enabled {
            entry = followed_leader(flock, i);
        }
        out.push(entry);
        i += 1;
    }
    out
}

} // verus!
