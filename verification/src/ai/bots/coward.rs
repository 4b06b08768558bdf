use crate::ai::bots::{BotInputs, Throttle, Turn};
use crate::boids::Flock;
use crate::quadtree::{dist_sq, distance_squared};
use vstd::prelude::*;
use vstd::string::*;

verus! {

/// How close another leader must come, in lattice steps, to scare the bot.
pub const RUN_AWAY_RANGE: u32 = 300;

/// A bot that runs from the nearest other leader.
#[derive(Copy, Clone, Debug)]
pub struct ScaredyCat {}

impl Default for ScaredyCat {
    fn default() -> Self {
        ScaredyCat {  }
    }
}

impl ScaredyCat {
    pub fn to_string(&self) -> (r: String)
        ensures
            r@ == "Scaredy Cat"@,
    {
        String::from_str("Scaredy Cat")
    }
}

/// Agent `j` is a leader other than `entity`.
pub open spec fn other_leader(flock: Flock, entity: usize, j: int) -> bool {
    0 <= j < flock.positions@.len() && flock.leaders@[j] && j != entity
}

/// How far leader `j` is from `entity`, squared.
pub open spec fn gap(flock: Flock, entity: usize, j: int) -> int {
    dist_sq(flock.positions@[j], flock.positions@[entity as int])
}

/// Agent `j` is the nearest other leader, the first of them if several are
/// equally near.
pub open spec fn nearest_other_leader(flock: Flock, entity: usize, j: int) -> bool {
    &&& other_leader(flock, entity, j)
    &&& forall|k: int| #[trigger]
        other_leader(flock, entity, k) ==> gap(flock, entity, j) <= gap(flock, entity, k)
    &&& forall|k: int| #[trigger]
        other_leader(flock, entity, k) && k < j ==> gap(flock, entity, j) < gap(flock, entity, k)
}

/// A leader with another leader nearer than `RUN_AWAY_RANGE` turns away from
/// the nearest one and speeds up; with the nearest one farther it slows
/// down; with no other leader, or leading nothing itself, it asks for nothing.
pub open spec fn decides(flock: Flock, entity: usize, r: BotInputs) -> bool {
    if !flock.leaders@[entity as int] || forall|j: int| !other_leader(flock, entity, j) {
        r == BotInputs::nothing()
    } else {
        exists|j: int| #[trigger]
            nearest_other_leader(flock, entity, j) && r == if gap(flock, entity, j)
                < RUN_AWAY_RANGE * RUN_AWAY_RANGE {
                BotInputs {
                    turn: Some(Turn::AwayFrom(j as usize)),
                    speed: Some(Throttle::Accelerate),
                }
            } else {
                BotInputs { turn: None, speed: Some(Throttle::Decelerate) }
            }
    }
}

pub fn update(flock: &Flock, entity: usize) -> (r: BotInputs)
    requires
        flock.wf(),
        entity < flock.positions@.len(),
    ensures
        decides(*flock, entity, r),
{
    if !flock.leaders[entity] {
        return BotInputs { turn: None, speed: None };
    }
    let here = flock.positions[entity];
    let n = flock.positions.len();
    let mut nearest: Option<(usize, i128)> = None;
    let mut k: usize = 0;
    while k < n
        invariant
            k <= n,
            n == flock.positions@.len(),
            flock.wf(),
            entity < n,
            here == flock.positions@[entity as int],
            nearest is None ==> forall|j: int| 0 <= j < k ==> !other_leader(*flock, entity, j),
            nearest matches Some((j, d)) ==> {
                &&& j < k
                &&& other_leader(*flock, entity, j as int)
                &&& d == gap(*flock, entity, j as int)
                &&& forall|m: int|
                    0 <= m < k && #[trigger] other_leader(*flock, entity, m) ==> d <= gap(
                        *flock,
                        entity,
                        m,
                    )
                &&& forall|m: int|
                    0 <= m < j && #[trigger] other_leader(*flock, entity, m) ==> d < gap(
                        *flock,
                        entity,
                        m,
                    )
            },
        decreases n - k,
    {
        if flock.leaders[k] && k != entity {
            let d = distance_squared(flock.positions[k], here);
            let closer = match nearest {
                Some((_, best)) => d < best,
                None => true,
            };
            if closer {
                nearest = Some((k, d));
            }
        }
        k += 1;
    }
    match nearest {
        Some((j, d)) => {
            let r = if d < (RUN_AWAY_RANGE as i128) * (RUN_AWAY_RANGE as i128) {
                BotInputs { turn: Some(Turn::AwayFrom(j)), speed: Some(Throttle::Accelerate) }
            } else {
                BotInputs { turn: None, speed: Some(Throttle::Decelerate) }
            };
            proof {
                assert(nearest_other_leader(*flock, entity, j as int));
            }
            r
        },
        None => BotInputs { turn: None, speed: None },
    }
}

} // verus!
