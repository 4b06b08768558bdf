use crate::ai::bots::{BotInputs, Throttle};
use crate::boids::Flock;
use vstd::prelude::*;
use vstd::string::*;

verus! {

/// A bot that always boosts.
#[derive(Copy, Clone, Debug)]
pub struct Speedy {}

impl Default for Speedy {
    fn default() -> Self {
        Speedy {  }
    }
}

impl Speedy {
    pub fn to_string(&self) -> (r: String)
        ensures
            r@ == "Speedy"@,
    {
        String::from_str("Speedy")
    }
}

/// A leader asks for full speed and no turn; an agent that leads nothing
/// asks for nothing.
pub open spec fn decides(flock: Flock, entity: usize, r: BotInputs) -> bool {
    r == if flock.leaders@[entity as int] {
        BotInputs { turn: None, speed: Some(Throttle::Accelerate) }
    } else {
        BotInputs::nothing()
    }
}

pub fn update(flock: &Flock, entity: usize) -> (r: BotInputs)
    requires
        flock.wf(),
        entity < flock.positions@.len(),
    ensures
        decides(*flock, entity, r),
{
    if flock.leaders[entity] {
        BotInputs { turn: None, speed: Some(Throttle::Accelerate) }
    } else {
        BotInputs { turn: None, speed: None }
    }
}

} // verus!
