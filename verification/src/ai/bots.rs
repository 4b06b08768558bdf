//! The bots that can play a leader, and what each asks of its agent.

use crate::boids::Flock;
use crate::inputs::ONE;
use vstd::prelude::*;
use vstd::string::*;

pub mod bonehead;
pub mod brain_dead;
pub mod coward;
pub mod hunter;
pub mod speedy;

verus! {

/// Which way a bot wants its agent to turn.
#[derive(PartialEq, Eq, Structural, Copy, Clone, Debug)]
pub enum Turn {
    /// Towards this agent.
    Towards(usize),
    /// Away from this agent.
    AwayFrom(usize),
}

/// What a bot wants of its agent's speed.
#[derive(PartialEq, Eq, Structural, Copy, Clone, Debug)]
pub enum Throttle {
    /// Full speed-up.
    Accelerate,
    /// Full slow-down.
    Decelerate,
}

impl Throttle {
    /// The speed request in fixed point: 1.0 to speed up, -1.0 to slow down.
    pub fn request(&self) -> (r: i32)
        ensures
            r == match self {
                Throttle::Accelerate => ONE as int,
                Throttle::Decelerate => -ONE,
            },
    {
        match self {
            Throttle::Accelerate => ONE,
            Throttle::Decelerate => -ONE,
        }
    }
}

/// What a bot submits in one tick: at most one turn and one speed request.
#[derive(PartialEq, Eq, Structural, Copy, Clone, Debug)]
pub struct BotInputs {
    pub turn: Option<Turn>,
    pub speed: Option<Throttle>,
}

impl BotInputs {
    /// No request at all.
    pub open spec fn nothing() -> BotInputs {
        BotInputs { turn: None, speed: None }
    }
}

#[derive(Debug, Copy, Clone, Eq, PartialEq, Structural)]
pub enum Bot {
    BoneHead,
    Speedy,
    ScaredyCat,
    Hunter,
}

impl Default for Bot {
    fn default() -> (r: Self)
        ensures
            r == Bot::BoneHead,
    {
        Bot::BoneHead
    }
}

impl Bot {
    /// The bot's name as the menus show it.
    pub open spec fn spec_name(self) -> Seq<char> {
        match self {
            Bot::BoneHead => "Bonehead"@,
            Bot::Speedy => "Speedy"@,
            Bot::ScaredyCat => "Scaredy Cat"@,
            Bot::Hunter => "Hunter"@,
        }
    }

    pub fn to_string(&self) -> (r: String)
        ensures
            r@ == self.spec_name(),
    {
        match self {
            Bot::BoneHead => bonehead::BoneHead::default().to_string(),
            Bot::Speedy => speedy::Speedy::default().to_string(),
            Bot::ScaredyCat => coward::ScaredyCat::default().to_string(),
            Bot::Hunter => hunter::Hunter::default().to_string(),
        }
    }

    /// What this bot decides for the leader `entity`.
    pub open spec fn decides(self, flock: Flock, entity: usize, r: BotInputs) -> bool {
        match self {
            Bot::BoneHead => r == BotInputs::nothing(),
            Bot::Speedy => speedy::decides(flock, entity, r),
            Bot::ScaredyCat => coward::decides(flock, entity, r),
            Bot::Hunter => hunter::decides(flock, entity, r),
        }
    }

    /// Asks the bot what it submits this tick for the agent it plays.
    pub fn update(&self, flock: &Flock, entity: usize) -> (r: BotInputs)
        requires
            flock.wf(),
            entity < flock.positions@.len(),
        ensures
            self.decides(*flock, entity, r),
    {
        match self {
            Bot::BoneHead => BotInputs { turn: None, speed: None },
            Bot::Speedy => speedy::update(flock, entity),
            Bot::ScaredyCat => coward::update(flock, entity),
            Bot::Hunter => hunter::update(flock, entity),
        }
    }
}

} // verus!
