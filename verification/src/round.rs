//! The settings of a round: who plays which colour, and how.

use crate::ai::bots::Bot;
use crate::boids::{BoidColor, Flock};
use vstd::prelude::*;

verus! {

/// Who steers a leader: an input device at this machine, or a bot.
#[derive(Debug, Copy, Clone, Eq, PartialEq, Structural)]
pub enum PlayerType {
    AnyDevice,
    Wasd,
    ArrowKeys,
    Mouse,
    /// A gamepad by its number, or any gamepad.
    GamePad(Option<usize>),
    Bot(Bot),
}

impl Default for PlayerType {
    fn default() -> (r: Self)
        ensures
            r == PlayerType::AnyDevice,
    {
        PlayerType::AnyDevice
    }
}

impl PlayerType {
    /// Whether a person at this machine plays.
    pub open spec fn spec_is_local(self) -> bool {
        !(self is Bot)
    }

    pub fn is_local(&self) -> (r: bool)
        ensures
            r == self.spec_is_local(),
    {
        !matches!(self, Self::Bot(_))
    }

    /// The choices offered for a human player.
    pub fn human_options() -> (r: [Self; 9])
        ensures
            r@ == seq![
                PlayerType::AnyDevice,
                PlayerType::Wasd,
                PlayerType::Mouse,
                PlayerType::ArrowKeys,
                PlayerType::GamePad(None),
                PlayerType::GamePad(Some(0usize)),
                PlayerType::GamePad(Some(1usize)),
                PlayerType::GamePad(Some(2usize)),
                PlayerType::GamePad(Some(3usize)),
            ],
    {
        let r = [
            Self::AnyDevice,
            Self::Wasd,
            Self::Mouse,
            Self::ArrowKeys,
            Self::GamePad(None),
            Self::GamePad(Some(0)),
            Self::GamePad(Some(1)),
            Self::GamePad(Some(2)),
            Self::GamePad(Some(3)),
        ];
        assert(r@ =~= seq![
            PlayerType::AnyDevice,
            PlayerType::Wasd,
            PlayerType::Mouse,
            PlayerType::ArrowKeys,
            PlayerType::GamePad(None),
            PlayerType::GamePad(Some(0usize)),
            PlayerType::GamePad(Some(1usize)),
            PlayerType::GamePad(Some(2usize)),
            PlayerType::GamePad(Some(3usize)),
        ]);
        r
    }

    /// The choices offered for a bot player.
    pub fn bot_options() -> (r: [Self; 4])
        ensures
            r@ == seq![
                PlayerType::Bot(Bot::BoneHead),
                PlayerType::Bot(Bot::ScaredyCat),
                PlayerType::Bot(Bot::Speedy),
                PlayerType::Bot(Bot::Hunter),
            ],
    {
        let r = [
            Self::Bot(Bot::BoneHead),
            Self::Bot(Bot::ScaredyCat),
            Self::Bot(Bot::Speedy),
            Self::Bot(Bot::Hunter),
        ];
        assert(r@ =~= seq![
            PlayerType::Bot(Bot::BoneHead),
            PlayerType::Bot(Bot::ScaredyCat),
            PlayerType::Bot(Bot::Speedy),
            PlayerType::Bot(Bot::Hunter),
        ]);
        r
    }

    pub fn human_bot_label(&self) -> (r: &'static str)
        ensures
            r@ == if self.spec_is_local() {
                "Human"@
            } else {
                "Bot"@
            },
    {
        match self.is_local() {
            true => "Human",
            false => "Bot",
        }
    }
}

#[derive(Debug, Copy, Clone, Eq, PartialEq, Structural)]
pub struct PlayerSettings {
    pub player_type: PlayerType,
    pub color: BoidColor,
}

/// How several local players share the screen.
#[derive(Debug, Copy, Clone, Eq, PartialEq, Structural)]
pub enum MultiplayerMode {
    SplitScreenVertical,
    SplitScreenHorizontal,
    SharedScreen,
}

impl Default for MultiplayerMode {
    fn default() -> (r: Self)
        ensures
            r == MultiplayerMode::SplitScreenVertical,
    {
        MultiplayerMode::SplitScreenVertical
    }
}

#[derive(Debug, Clone)]
pub struct RoundSettings {
    pub players: Vec<PlayerSettings>,
    /// The radius of the arena, in lattice steps.
    pub arena_radius: u32,
    pub boid_count: u32,
    pub multiplayer_mode: MultiplayerMode,
}

/// Selects the players at this machine.
pub open spec fn local() -> spec_fn(PlayerSettings) -> bool {
    |p: PlayerSettings| p.player_type.spec_is_local()
}

/// How many of the players are at this machine.
pub open spec fn count_local(players: Seq<PlayerSettings>) -> nat {
    players.filter(local()).len()
}

fn count_local_before(players: &Vec<PlayerSettings>, end: usize) -> (n: usize)
    requires
        end <= players@.len(),
    ensures
        n == count_local(players@.take(end as int)),
{
    let mut n: usize = 0;
    let mut i: usize = 0;
    proof {
        assert(players@.take(0) =~= Seq::empty());
        crate::quadtree::lemma_filter_none(players@.take(0), local());
    }
    while i < end
        invariant
            i <= end <= players@.len(),
            n <= i,
            n == count_local(players@.take(i as int)),
        decreases end - i,
    {
        proof {
            players@.take(i as int).lemma_filter_push(players@[i as int], local());
            assert(players@.take(i + 1) =~= players@.take(i as int).push(players@[i as int]));
        }
        if players[i].player_type.is_local() {
            n += 1;
        }
        i += 1;
    }
    n
}

impl RoundSettings {
    pub fn local_player_count(&self) -> (n: usize)
        ensures
            n == count_local(self.players@),
    {
        proof {
            assert(self.players@.take(self.players@.len() as int) =~= self.players@);
        }
        count_local_before(&self.players, self.players.len())
    }

    /// The viewport of a player: a local player gets the number of local
    /// players before it, a bot or a player that does not exist gets none.
    pub fn player_viewport_id(&self, player_index: usize) -> (r: Option<usize>)
        ensures
            r == if player_index < self.players@.len() && self.players@[player_index as int].player_type.spec_is_local() {
                Some(count_local(self.players@.take(player_index as int)) as usize)
            } else {
                None
            },
    {
        if player_index < self.players.len() && self.players[player_index].player_type.is_local() {
            Some(count_local_before(&self.players, player_index))
        } else {
            None
        }
    }
}

impl Default for RoundSettings {
    fn default() -> (r: Self)
        ensures
            r.players@ == seq![
                PlayerSettings { player_type: PlayerType::AnyDevice, color: BoidColor::Red },
                PlayerSettings { player_type: PlayerType::Bot(Bot::BoneHead), color: BoidColor::Green },
                PlayerSettings { player_type: PlayerType::Bot(Bot::BoneHead), color: BoidColor::Blue },
                PlayerSettings {
                    player_type: PlayerType::Bot(Bot::ScaredyCat),
                    color: BoidColor::Yellow,
                },
                PlayerSettings { player_type: PlayerType::Bot(Bot::Speedy), color: BoidColor::Purple },
                PlayerSettings { player_type: PlayerType::Bot(Bot::Hunter), color: BoidColor::Orange },
                PlayerSettings { player_type: PlayerType::Bot(Bot::BoneHead), color: BoidColor::Pink },
                PlayerSettings { player_type: PlayerType::Bot(Bot::BoneHead), color: BoidColor::Cyan },
            ],
            r.arena_radius == 1200,
            r.boid_count == 400,
            r.multiplayer_mode == MultiplayerMode::SplitScreenVertical,
    {
        let mut players: Vec<PlayerSettings> = Vec::new();
        players.push(PlayerSettings { player_type: PlayerType::AnyDevice, color: BoidColor::Red });
        players.push(
            PlayerSettings { player_type: PlayerType::Bot(Bot::BoneHead), color: BoidColor::Green },
        );
        players.push(
            PlayerSettings { player_type: PlayerType::Bot(Bot::BoneHead), color: BoidColor::Blue },
        );
        players.push(
            PlayerSettings { player_type: PlayerType::Bot(Bot::ScaredyCat), color: BoidColor::Yellow },
        );
        players.push(
            PlayerSettings { player_type: PlayerType::Bot(Bot::Speedy), color: BoidColor::Purple },
        );
        players.push(
            PlayerSettings { player_type: PlayerType::Bot(Bot::Hunter), color: BoidColor::Orange },
        );
        players.push(
            PlayerSettings { player_type: PlayerType::Bot(Bot::BoneHead), color: BoidColor::Pink },
        );
        players.push(
            PlayerSettings { player_type: PlayerType::Bot(Bot::BoneHead), color: BoidColor::Cyan },
        );
        assert(players@ =~= seq![
            PlayerSettings { player_type: PlayerType::AnyDevice, color: BoidColor::Red },
            PlayerSettings { player_type: PlayerType::Bot(Bot::BoneHead), color: BoidColor::Green },
            PlayerSettings { player_type: PlayerType::Bot(Bot::BoneHead), color: BoidColor::Blue },
            PlayerSettings { player_type: PlayerType::Bot(Bot::ScaredyCat), color: BoidColor::Yellow },
            PlayerSettings { player_type: PlayerType::Bot(Bot::Speedy), color: BoidColor::Purple },
            PlayerSettings { player_type: PlayerType::Bot(Bot::Hunter), color: BoidColor::Orange },
            PlayerSettings { player_type: PlayerType::Bot(Bot::BoneHead), color: BoidColor::Pink },
            PlayerSettings { player_type: PlayerType::Bot(Bot::BoneHead), color: BoidColor::Cyan },
        ]);
        Self {
            players,
            arena_radius: 1200,
            boid_count: 400,
            multiplayer_mode: MultiplayerMode::SplitScreenVertical,
        }
    }
}

/// The colour that agent `x` starts a round with: the colour of player `x`,
/// if there is such a player.
pub open spec fn starting_color(players: Seq<PlayerSettings>, x: int) -> Option<BoidColor> {
    if x < players.len() {
        Some(players[x].color)
    } else {
        None
    }
}

/// The bot that plays agent `x`, if a bot does.
pub open spec fn starting_bot(players: Seq<PlayerSettings>, x: int) -> Option<Bot> {
    if x < players.len() {
        match players[x].player_type {
            PlayerType::Bot(b) => Some(b),
            _ => None,
        }
    } else {
        None
    }
}

/// Agent `x` is as a round starts it: a leader of its player's colour,
/// steered by a local player's input or played by a bot, or else a neutral
/// follower; without neighbours either way.
pub open spec fn starts_as(
    flock: Flock,
    bots: Seq<Option<Bot>>,
    players: Seq<PlayerSettings>,
    x: int,
) -> bool {
    &&& flock.colors@[x] == starting_color(players, x)
    &&& flock.leaders@[x] == (x < players.len())
    &&& flock.input_bound@[x] == (x < players.len() && players[x].player_type.spec_is_local())
    &&& bots[x] == starting_bot(players, x)
    &&& flock.capture_neighbors@[x].entities@.len() == 0
    &&& flock.separation_neighbors@[x].entities@.len() == 0
}

/// Sets up the flock of a round with one agent at each of `positions`.
///
/// The first agents, one per player, lead that player's colour; an agent of
/// a local player is steered by that player's input, an agent of a bot
/// player by the bot named in the second result. All other agents are
/// neutral followers. No agent has neighbours yet.
pub fn setup_game(round_settings: &RoundSettings, positions: &Vec<[i32; 2]>) -> (r: (
    Flock,
    Vec<Option<Bot>>,
))
    ensures
        r.0.wf(),
        r.0.positions@ == positions@,
        r.1@.len() == positions@.len(),
        forall|x: int|
            0 <= x < positions@.len() ==> #[trigger] starts_as(
                r.0,
                r.1@,
                round_settings.players@,
                x,
            ),
{
    let mut flock = Flock::new();
    let mut bots: Vec<Option<Bot>> = Vec::new();
    let mut x: usize = 0;
    while x < positions.len()
        invariant
            x <= positions@.len(),
            flock.wf(),
            flock.positions@ == positions@.take(x as int),
            bots@.len() == x,
            forall|k: int|
                0 <= k < x ==> #[trigger] starts_as(flock, bots@, round_settings.players@, k),
        decreases positions@.len() - x,
    {
        proof {
            assert(positions@.take(x + 1) =~= positions@.take(x as int).push(positions@[x as int]));
        }
        let ghost earlier = flock;
        let ghost earlier_bots = bots@;
        if x < round_settings.players.len() {
            let player_settings = &round_settings.players[x];
            let local = player_settings.player_type.is_local();
            flock.spawn(positions[x], Some(player_settings.color), true, local);
            let bot = match player_settings.player_type {
                PlayerType::Bot(selected_bot) => Some(selected_bot),
                _ => None,
            };
            bots.push(bot);
        } else {
            flock.spawn(positions[x], None, false, false);
            bots.push(None);
        }
        proof {
            assert forall|k: int| 0 <= k < x implies #[trigger] starts_as(
                flock,
                bots@,
                round_settings.players@,
                k,
            ) by {
                assert(starts_as(earlier, earlier_bots, round_settings.players@, k));
            }
        }
        x += 1;
    }
    proof {
        assert(positions@.take(x as int) =~= positions@);
    }
    (flock, bots)
}

} // verus!
