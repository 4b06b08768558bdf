use crate::ai::bots::coward::{gap, other_leader};
use crate::ai::bots::{BotInputs, Throttle, Turn};
use crate::boids::{BoidColor, Flock, PALETTE_SIZE};
use crate::quadtree::distance_squared;
use vstd::prelude::*;
use vstd::string::*;

verus! {

/// How far the bot sees, in lattice steps.
pub const SIGHT_RANGE: u32 = 500;

/// A bot that chases the weakest leader in sight.
#[derive(Copy, Clone, Debug)]
pub struct Hunter {}

impl Default for Hunter {
    fn default() -> Self {
        Hunter {  }
    }
}

impl Hunter {
    pub fn to_string(&self) -> (r: String)
        ensures
            r@ == "Hunter"@,
    {
        String::from_str("Hunter")
    }
}

/// How many agents have colour `c`, the leader included.
pub open spec fn count_color(colors: Seq<Option<BoidColor>>, c: BoidColor) -> nat
    decreases colors.len(),
{
    if colors.len() == 0 {
        0
    } else {
        let rest = count_color(colors.drop_last(), c);
        if colors.last() == Some(c) {
            rest + 1
        } else {
            rest
        }
    }
}

/// The size of agent `j`'s team, zero for a neutral agent.
pub open spec fn team_size(flock: Flock, j: int) -> nat {
    match flock.colors@[j] {
        Some(c) => count_color(flock.colors@, c),
        None => 0,
    }
}

/// Counts the agents of every colour; the result is indexed by palette place.
pub fn color_counts(colors: &Vec<Option<BoidColor>>) -> (counts: Vec<usize>)
    ensures
        counts@.len() == PALETTE_SIZE,
        forall|c: BoidColor| #[trigger]
            count_color(colors@, c) == counts@[c.spec_index() as int],
{
    let mut counts: Vec<usize> = Vec::new();
    let mut p: usize = 0;
    while p < PALETTE_SIZE
        invariant
            p <= PALETTE_SIZE,
            counts@.len() == p,
            forall|q: int| 0 <= q < p ==> counts@[q] == 0,
        decreases PALETTE_SIZE - p,
    {
        counts.push(0);
        p += 1;
    }
    let mut i: usize = 0;
    proof {
        assert(colors@.take(0) =~= Seq::empty());
    }
    while i < colors.len()
        invariant
            i <= colors.len(),
            counts@.len() == PALETTE_SIZE,
            forall|c: BoidColor| #[trigger]
                count_color(colors@.take(i as int), c) == counts@[c.spec_index() as int],
            forall|q: int| 0 <= q < PALETTE_SIZE ==> counts@[q] <= i,
        decreases colors.len() - i,
    {
        proof {
            assert(colors@.take(i + 1).drop_last() =~= colors@.take(i as int));
        }
        let ghost before = counts@;
        match colors[i] {
            Some(c) => {
                let place = c.index();
                let grown = counts[place] + 1;
                counts[place] = grown;
                proof {
                    assert forall|d: BoidColor| #[trigger]
                        count_color(colors@.take(i + 1), d) == counts@[d.spec_index() as int] by {
                        assert(count_color(colors@.take(i as int), d) == before[d.spec_index() as int]);
                    }
                }
            },
            None => {
                proof {
                    assert forall|d: BoidColor| #[trigger]
                        count_color(colors@.take(i + 1), d) == counts@[d.spec_index() as int] by {
                        assert(count_color(colors@.take(i as int), d) == before[d.spec_index() as int]);
                    }
                }
            },
        }
        i += 1;
    }
    proof {
        assert(colors@.take(i as int) =~= colors@);
    }
    counts
}

/// Leader `j` is worth chasing for `entity`: it is another leader, it has a
/// colour, its team is smaller than the hunter's, and it is in sight.
pub open spec fn eligible(flock: Flock, entity: usize, j: int) -> bool {
    &&& other_leader(flock, entity, j)
    &&& flock.colors@[j] is Some
    &&& team_size(flock, j) < team_size(flock, entity as int)
    &&& gap(flock, entity, j) < SIGHT_RANGE * SIGHT_RANGE
}

/// Leader `j` is the prey: the eligible leader with the smallest team, the
/// first of them if several teams are equally small.
pub open spec fn prey(flock: Flock, entity: usize, j: int) -> bool {
    &&& eligible(flock, entity, j)
    &&& forall|k: int| #[trigger]
        eligible(flock, entity, k) ==> team_size(flock, j) <= team_size(flock, k)
    &&& forall|k: int| #[trigger]
        eligible(flock, entity, k) && k < j ==> team_size(flock, j) < team_size(flock, k)
}

/// A coloured leader turns towards its prey and speeds up; without prey it
/// slows down. An agent without a colour or that leads nothing asks for
/// nothing.
pub open spec fn decides(flock: Flock, entity: usize, r: BotInputs) -> bool {
    if !flock.leaders@[entity as int] || flock.colors@[entity as int] is None {
        r == BotInputs::nothing()
    } else if forall|j: int| !eligible(flock, entity, j) {
        r == (BotInputs { turn: None, speed: Some(Throttle::Decelerate) })
    } else {
        exists|j: int| #[trigger]
            prey(flock, entity, j) && r == (BotInputs {
                turn: Some(Turn::Towards(j as usize)),
                speed: Some(Throttle::Accelerate),
            })
    }
}

pub fn update(flock: &Flock, entity: usize) -> (r: BotInputs)
    requires
        flock.wf(),
        entity < flock.positions@.len(),
    ensures
        decides(*flock, entity, r),
{
    if !flock.leaders[entity] {
        return BotInputs { turn: None, speed: None };
    }
    let own = match flock.colors[entity] {
        Some(c) => c,
        None => {
            return BotInputs { turn: None, speed: None };
        },
    };
    let counts = color_counts(&flock.colors);
    let own_count = counts[own.index()];
    let here = flock.positions[entity];
    let sight: i128 = (SIGHT_RANGE as i128) * (SIGHT_RANGE as i128);
    let n = flock.positions.len();
    let mut best: Option<(usize, usize)> = None;
    let mut k: usize = 0;
    proof {
        assert(count_color(flock.colors@, own) == own_count);
    }
    while k < n
        invariant
            k <= n,
            n == flock.positions@.len(),
            flock.wf(),
            entity < n,
            here == flock.positions@[entity as int],
            sight == SIGHT_RANGE * SIGHT_RANGE,
            counts@.len() == PALETTE_SIZE,
            forall|c: BoidColor| #[trigger]
                count_color(flock.colors@, c) == counts@[c.spec_index() as int],
            own_count == team_size(*flock, entity as int),
            best is None ==> forall|j: int| 0 <= j < k ==> !eligible(*flock, entity, j),
            best matches Some((j, size)) ==> {
                &&& j < k
                &&& eligible(*flock, entity, j as int)
                &&& size == team_size(*flock, j as int)
                &&& forall|m: int|
                    0 <= m < k && #[trigger] eligible(*flock, entity, m) ==> size <= team_size(
                        *flock,
                        m,
                    )
                &&& forall|m: int|
                    0 <= m < j && #[trigger] eligible(*flock, entity, m) ==> size < team_size(
                        *flock,
                        m,
                    )
            },
        decreases n - k,
    {
        if flock.leaders[k] && k != entity {
            match flock.colors[k] {
                Some(c) => {
                    let size = counts[c.index()];
                    proof {
                        assert(count_color(flock.colors@, c) == size);
                    }
                    if size < own_count && distance_squared(flock.positions[k], here) < sight {
                        let smaller = match best {
                            Some((_, least)) => size < least,
                            None => true,
                        };
                        if smaller {
                            best = Some((k, size));
                        }
                    }
                },
                None => {},
            }
        }
        k += 1;
    }
    match best {
        Some((j, _)) => {
            proof {
                assert(prey(*flock, entity, j as int));
            }
            BotInputs { turn: Some(Turn::Towards(j)), speed: Some(Throttle::Accelerate) }
        },
        None => BotInputs { turn: None, speed: Some(Throttle::Decelerate) },
    }
}

} // verus!
