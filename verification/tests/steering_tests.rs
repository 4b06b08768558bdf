use boid_arena::ai::bots::bonehead::BoneHead;
use boid_arena::ai::bots::brain_dead::BrainDead;
use boid_arena::ai::bots::coward::{ScaredyCat, RUN_AWAY_RANGE};
use boid_arena::ai::bots::hunter::{color_counts, Hunter, SIGHT_RANGE};
use boid_arena::ai::bots::speedy::Speedy;
use boid_arena::ai::bots::{Bot, BotInputs, Throttle, Turn};
use boid_arena::ai::systems::{
    calculate_alignment_inputs, calculate_cohesion_inputs, calculate_separation_inputs,
    followed_leader, leader_of, separation_turn, speed_up_down, Cohesion, SpeedChange,
};
use boid_arena::boids::{
    return_step, BoidColor, BoidSettings, Flock, MotionBranch, Velocity, RETURN_TURN_RATE,
};
use boid_arena::inputs::{BoidAveragedInputs, ONE};
use boid_arena::round::{setup_game, MultiplayerMode, PlayerSettings, PlayerType, RoundSettings};

const NOTHING: BotInputs = BotInputs { turn: None, speed: None };

fn speed(forward: i64) -> Velocity {
    Velocity { forward }
}

#[test]
fn bot_names() {
    assert_eq!(Bot::BoneHead.to_string(), "Bonehead");
    assert_eq!(Bot::Speedy.to_string(), "Speedy");
    assert_eq!(Bot::ScaredyCat.to_string(), "Scaredy Cat");
    assert_eq!(Bot::Hunter.to_string(), "Hunter");
    assert_eq!(BoneHead::default().to_string(), "Bonehead");
    assert_eq!(BrainDead::default().to_string(), "Brain Dead");
    assert_eq!(Speedy::default().to_string(), "Speedy");
    assert_eq!(ScaredyCat::default().to_string(), "Scaredy Cat");
    assert_eq!(Hunter::default().to_string(), "Hunter");
    assert_eq!(Bot::default(), Bot::BoneHead);
}

#[test]
fn bonehead_submits_nothing() {
    let mut flock = Flock::new();
    flock.spawn([0, 0], Some(BoidColor::Red), true, false);
    flock.spawn([10, 0], Some(BoidColor::Blue), true, false);
    assert_eq!(Bot::BoneHead.update(&flock, 0), NOTHING);
}

#[test]
fn speedy_always_boosts() {
    let mut flock = Flock::new();
    flock.spawn([0, 0], Some(BoidColor::Red), true, false);
    flock.spawn([0, 0], Some(BoidColor::Red), false, false);
    assert_eq!(
        Bot::Speedy.update(&flock, 0),
        BotInputs { turn: None, speed: Some(Throttle::Accelerate) }
    );
    assert_eq!(Bot::Speedy.update(&flock, 1), NOTHING);
}

#[test]
fn coward_flees_the_nearest_other_leader() {
    assert_eq!(RUN_AWAY_RANGE, 300);
    let mut flock = Flock::new();
    flock.spawn([0, 0], Some(BoidColor::Red), true, false);
    flock.spawn([10, 0], Some(BoidColor::Red), false, false);
    flock.spawn([0, 299], Some(BoidColor::Blue), true, false);
    flock.spawn([200, 0], Some(BoidColor::Green), true, false);
    flock.spawn([-200, 0], Some(BoidColor::Pink), true, false);
    assert_eq!(
        Bot::ScaredyCat.update(&flock, 0),
        BotInputs { turn: Some(Turn::AwayFrom(3)), speed: Some(Throttle::Accelerate) }
    );
}

#[test]
fn coward_slows_down_when_nobody_is_near() {
    let mut flock = Flock::new();
    flock.spawn([0, 0], Some(BoidColor::Red), true, false);
    flock.spawn([300, 0], Some(BoidColor::Blue), true, false);
    assert_eq!(
        Bot::ScaredyCat.update(&flock, 0),
        BotInputs { turn: None, speed: Some(Throttle::Decelerate) }
    );
    flock.positions[1] = [299, 0];
    assert_eq!(
        Bot::ScaredyCat.update(&flock, 0),
        BotInputs { turn: Some(Turn::AwayFrom(1)), speed: Some(Throttle::Accelerate) }
    );
}

#[test]
fn coward_alone_submits_nothing() {
    let mut flock = Flock::new();
    flock.spawn([0, 0], Some(BoidColor::Red), true, false);
    flock.spawn([1, 0], Some(BoidColor::Red), false, false);
    assert_eq!(Bot::ScaredyCat.update(&flock, 0), NOTHING);
    assert_eq!(Bot::ScaredyCat.update(&flock, 1), NOTHING);
}

#[test]
fn follower_counts_per_colour() {
    let colors = vec![
        Some(BoidColor::Red),
        None,
        Some(BoidColor::Cyan),
        Some(BoidColor::Red),
        Some(BoidColor::Red),
    ];
    assert_eq!(color_counts(&colors), vec![3, 0, 0, 0, 0, 0, 0, 1]);
    assert_eq!(color_counts(&vec![]), vec![0; 8]);
}

fn hunting_ground() -> Flock {
    let mut flock = Flock::new();
    // the hunter and its team of three
    flock.spawn([0, 0], Some(BoidColor::Red), true, false);
    flock.spawn([1, 0], Some(BoidColor::Red), false, false);
    flock.spawn([2, 0], Some(BoidColor::Red), false, false);
    // a team of two, in sight
    flock.spawn([100, 0], Some(BoidColor::Blue), true, false);
    flock.spawn([101, 0], Some(BoidColor::Blue), false, false);
    // a team of one, in sight
    flock.spawn([0, 400], Some(BoidColor::Green), true, false);
    // a team of one, out of sight
    flock.spawn([0, 500], Some(BoidColor::Pink), true, false);
    // a team of four, in sight
    flock.spawn([50, 0], Some(BoidColor::Cyan), true, false);
    flock.spawn([51, 0], Some(BoidColor::Cyan), false, false);
    flock.spawn([52, 0], Some(BoidColor::Cyan), false, false);
    flock.spawn([53, 0], Some(BoidColor::Cyan), false, false);
    flock
}

#[test]
fn hunter_chases_the_weakest_leader_in_sight() {
    assert_eq!(SIGHT_RANGE, 500);
    let flock = hunting_ground();
    assert_eq!(
        Bot::Hunter.update(&flock, 0),
        BotInputs { turn: Some(Turn::Towards(5)), speed: Some(Throttle::Accelerate) }
    );
}

#[test]
fn hunter_slows_down_without_prey() {
    let flock = hunting_ground();
    // the leader of the team of one has nobody weaker in sight
    assert_eq!(
        Bot::Hunter.update(&flock, 5),
        BotInputs { turn: None, speed: Some(Throttle::Decelerate) }
    );
    // a follower is no hunter
    assert_eq!(Bot::Hunter.update(&flock, 1), NOTHING);
}

#[test]
fn hunter_takes_the_first_of_equally_weak_leaders() {
    let mut flock = hunting_ground();
    flock.positions[6] = [0, 300];
    assert_eq!(
        Bot::Hunter.update(&flock, 0),
        BotInputs { turn: Some(Turn::Towards(5)), speed: Some(Throttle::Accelerate) }
    );
}

#[test]
fn speed_dead_zone() {
    assert_eq!(speed_up_down(speed(121), speed(0)), SpeedChange::CatchUp);
    assert_eq!(speed_up_down(speed(120), speed(0)), SpeedChange::SpeedUp);
    assert_eq!(speed_up_down(speed(1), speed(0)), SpeedChange::SpeedUp);
    assert_eq!(speed_up_down(speed(0), speed(0)), SpeedChange::Hold);
    assert_eq!(speed_up_down(speed(0), speed(3)), SpeedChange::Hold);
    assert_eq!(speed_up_down(speed(0), speed(4)), SpeedChange::SlowDown);
    assert_eq!(speed_up_down(speed(i64::MAX), speed(i64::MIN)), SpeedChange::CatchUp);
    assert_eq!(speed_up_down(speed(i64::MIN), speed(i64::MAX)), SpeedChange::SlowDown);
}

#[test]
fn requests_in_fixed_point() {
    assert_eq!(ONE, 1_000_000);
    assert_eq!(SpeedChange::CatchUp.request(), 1_000_000);
    assert_eq!(SpeedChange::SpeedUp.request(), 500_000);
    assert_eq!(SpeedChange::SlowDown.request(), -1_000_000);
    assert_eq!(SpeedChange::Hold.request(), 0);
    assert_eq!(Throttle::Accelerate.request(), 1_000_000);
    assert_eq!(Throttle::Decelerate.request(), -1_000_000);
}

#[test]
fn separation_turn_doubles_and_clamps() {
    assert_eq!(separation_turn(0), 0);
    assert_eq!(separation_turn(250_000), 500_000);
    assert_eq!(separation_turn(-250_000), -500_000);
    assert_eq!(separation_turn(500_000), 1_000_000);
    assert_eq!(separation_turn(500_001), 1_000_000);
    assert_eq!(separation_turn(-500_001), -1_000_000);
    assert_eq!(separation_turn(i32::MAX), 1_000_000);
    assert_eq!(separation_turn(i32::MIN), -1_000_000);
}

fn two_teams() -> Flock {
    let mut flock = Flock::new();
    flock.spawn([0, 0], Some(BoidColor::Red), false, false);
    flock.spawn([0, 0], Some(BoidColor::Red), true, true);
    flock.spawn([0, 0], Some(BoidColor::Blue), false, false);
    flock.spawn([0, 0], None, false, false);
    flock.spawn([0, 0], Some(BoidColor::Red), true, false);
    flock
}

#[test]
fn leader_lookup() {
    let flock = two_teams();
    assert_eq!(leader_of(&flock, BoidColor::Red), Some(1));
    assert_eq!(leader_of(&flock, BoidColor::Blue), None);
    assert_eq!(followed_leader(&flock, 0), Some(1));
    assert_eq!(followed_leader(&flock, 1), None);
    assert_eq!(followed_leader(&flock, 2), None);
    assert_eq!(followed_leader(&flock, 3), None);
}

#[test]
fn cohesion_inputs() {
    let flock = two_teams();
    let velocities = vec![speed(60), speed(200), speed(60), speed(60), speed(60)];
    let mut settings = BoidSettings::default();
    assert_eq!(
        calculate_cohesion_inputs(&flock, &velocities, &settings),
        vec![Some(Cohesion { leader: 1, speed: SpeedChange::CatchUp }), None, None, None, None]
    );
    settings.cohesion_enabled = false;
    assert_eq!(
        calculate_cohesion_inputs(&flock, &velocities, &settings),
        vec![None, None, None, None, None]
    );
}

#[test]
fn alignment_inputs() {
    let flock = two_teams();
    let mut settings = BoidSettings::default();
    assert_eq!(
        calculate_alignment_inputs(&flock, &settings),
        vec![Some(1), None, None, None, None]
    );
    settings.alignment_enabled = false;
    assert_eq!(calculate_alignment_inputs(&flock, &settings), vec![None; 5]);
}

#[test]
fn separation_inputs() {
    let mut flock = two_teams();
    flock.separation_neighbors[0].entities = vec![2, 9, 3];
    flock.separation_neighbors[1].entities = vec![0];
    flock.separation_neighbors[3].entities = vec![0, 0];
    let mut settings = BoidSettings::default();
    assert_eq!(
        calculate_separation_inputs(&flock, &settings),
        vec![vec![2, 3], vec![0], vec![], vec![0, 0], vec![]]
    );
    settings.separation_enabled = false;
    assert_eq!(calculate_separation_inputs(&flock, &settings), vec![Vec::<usize>::new(); 5]);
}

#[test]
fn player_types() {
    assert!(PlayerType::AnyDevice.is_local());
    assert!(PlayerType::GamePad(Some(2)).is_local());
    assert!(!PlayerType::Bot(Bot::Hunter).is_local());
    assert_eq!(PlayerType::Wasd.human_bot_label(), "Human");
    assert_eq!(PlayerType::Bot(Bot::Speedy).human_bot_label(), "Bot");
    assert_eq!(PlayerType::default(), PlayerType::AnyDevice);
    assert_eq!(MultiplayerMode::default(), MultiplayerMode::SplitScreenVertical);
    let humans = PlayerType::human_options();
    assert_eq!(humans.len(), 9);
    assert_eq!(humans[2], PlayerType::Mouse);
    assert_eq!(humans[8], PlayerType::GamePad(Some(3)));
    assert!(humans.iter().all(|p| p.is_local()));
    let bots = PlayerType::bot_options();
    assert_eq!(
        bots,
        [
            PlayerType::Bot(Bot::BoneHead),
            PlayerType::Bot(Bot::ScaredyCat),
            PlayerType::Bot(Bot::Speedy),
            PlayerType::Bot(Bot::Hunter)
        ]
    );
}

#[test]
fn default_round() {
    let round = RoundSettings::default();
    assert_eq!(round.players.len(), 8);
    assert_eq!(
        round.players[0],
        PlayerSettings { player_type: PlayerType::AnyDevice, color: BoidColor::Red }
    );
    assert_eq!(
        round.players[5],
        PlayerSettings { player_type: PlayerType::Bot(Bot::Hunter), color: BoidColor::Orange }
    );
    assert_eq!(round.arena_radius, 1200);
    assert_eq!(round.boid_count, 400);
    assert_eq!(round.local_player_count(), 1);
    assert_eq!(round.player_viewport_id(0), Some(0));
    assert_eq!(round.player_viewport_id(1), None);
    assert_eq!(round.player_viewport_id(8), None);
}

#[test]
fn viewports_count_the_local_players_before() {
    let mut round = RoundSettings::default();
    round.players[3].player_type = PlayerType::Mouse;
    round.players[6].player_type = PlayerType::GamePad(None);
    assert_eq!(round.local_player_count(), 3);
    assert_eq!(round.player_viewport_id(0), Some(0));
    assert_eq!(round.player_viewport_id(3), Some(1));
    assert_eq!(round.player_viewport_id(6), Some(2));
    assert_eq!(round.player_viewport_id(5), None);
    round.players.clear();
    assert_eq!(round.local_player_count(), 0);
    assert_eq!(round.player_viewport_id(0), None);
}

fn to_fixed(value: f32) -> Option<i32> {
    if value.is_nan() {
        None
    } else {
        Some((value * ONE as f32).round() as i32)
    }
}

fn to_float(value: i32) -> f32 {
    value as f32 / ONE as f32
}

#[test]
fn average_does_not_depend_on_the_order() {
    let values = [1.0f32, -1.0, 0.5];
    let orders = [[0, 1, 2], [0, 2, 1], [1, 0, 2], [1, 2, 0], [2, 0, 1], [2, 1, 0]];
    for order in orders {
        let mut inputs = BoidAveragedInputs::new();
        for i in order {
            inputs.add_turn(to_fixed(values[i]));
        }
        assert_eq!(inputs.turn_average(), 166_666);
        assert!((to_float(inputs.turn_average()) - 0.1667).abs() < 1e-4);
        assert_eq!(inputs.turn_count(), 3);
        assert_eq!(inputs.speed_average(), 0);
    }
}

#[test]
fn chatty_sources_weigh_by_request() {
    let mut inputs = BoidAveragedInputs::default();
    for _ in 0..5 {
        inputs.add_speed(Some(ONE));
    }
    inputs.add_speed(Some(-ONE));
    assert_eq!(inputs.speed_average(), 666_666);
    assert_eq!(inputs.speed_count(), 6);
    assert_eq!(inputs.turn_count(), 0);
}

#[test]
fn average_rounds_towards_zero() {
    let mut inputs = BoidAveragedInputs::new();
    inputs.add_turn(Some(-1));
    inputs.add_turn(Some(-1));
    inputs.add_turn(Some(0));
    assert_eq!(inputs.turn_average(), 0);
    inputs.add_turn(Some(-10));
    assert_eq!(inputs.turn_average(), -3);
    let mut extremes = BoidAveragedInputs::new();
    extremes.add_speed(Some(i32::MIN));
    extremes.add_speed(Some(i32::MIN));
    assert_eq!(extremes.speed_average(), i32::MIN);
    extremes.reset();
    extremes.add_speed(Some(i32::MAX));
    extremes.add_speed(Some(i32::MAX));
    extremes.add_speed(Some(i32::MAX));
    assert_eq!(extremes.speed_average(), i32::MAX);
}

#[test]
fn not_a_number_is_dropped() {
    let mut inputs = BoidAveragedInputs::new();
    inputs.add_turn(to_fixed(0.25));
    inputs.add_speed(to_fixed(-0.5));
    inputs.add_turn(to_fixed(f32::NAN));
    inputs.add_speed(to_fixed(f32::NAN));
    inputs.add_turn(None);
    assert_eq!(inputs.turn_average(), 250_000);
    assert_eq!(inputs.turn_count(), 1);
    assert_eq!(inputs.speed_average(), -500_000);
    assert_eq!(inputs.speed_count(), 1);
}

#[test]
fn reset_forgets_everything() {
    let mut inputs = BoidAveragedInputs::new();
    assert_eq!(inputs.turn_average(), 0);
    assert_eq!(inputs.speed_average(), 0);
    inputs.add_turn(Some(ONE));
    inputs.add_speed(Some(ONE / 2));
    inputs.reset();
    assert_eq!(inputs.turn_average(), 0);
    assert_eq!(inputs.speed_average(), 0);
    assert_eq!(to_float(inputs.turn_average()), 0.0);
    assert_eq!(inputs.turn_count(), 0);
    assert_eq!(inputs.speed_count(), 0);
    inputs.add_turn(Some(-123_456));
    assert_eq!(inputs.turn_average(), -123_456);
    inputs.add_speed(Some(7));
    assert_eq!(inputs.speed_average(), 7);
}

#[test]
fn next_speed_follows_the_request() {
    let s = BoidSettings::default();
    let steer = MotionBranch::Steer;
    assert_eq!(s.next_speed(speed(100), ONE, steer, false, 100), speed(120));
    assert_eq!(s.next_speed(speed(100), ONE / 2, steer, false, 100), speed(105));
    assert_eq!(s.next_speed(speed(100), 0, steer, false, 16), speed(98));
    assert_eq!(s.next_speed(speed(100), -ONE, steer, false, 100), speed(60));
    assert_eq!(s.next_speed(speed(100), 0, steer, false, 0), speed(100));
}

#[test]
fn next_speed_stays_in_the_speed_range() {
    let mut s = BoidSettings::default();
    let steer = MotionBranch::Steer;
    assert_eq!(s.next_speed(speed(60), 0, steer, false, 1000), speed(60));
    assert_eq!(s.next_speed(speed(60), 0, steer, true, 0), speed(120));
    assert_eq!(s.next_speed(speed(i64::MIN), i32::MIN, steer, false, u32::MAX), speed(60));
    assert_eq!(s.next_speed(speed(i64::MAX), i32::MAX, steer, true, u32::MAX), speed(120));
    s.min_speed = 200;
    assert_eq!(s.next_speed(speed(100), 0, steer, false, 0), speed(120));
    assert_eq!(s.next_speed(speed(500), 0, steer, false, 0), speed(120));
}

#[test]
fn next_speed_ignores_the_request_out_of_bounds() {
    let s = BoidSettings::default();
    let back = MotionBranch::ReturnToCenter;
    assert_eq!(s.next_speed(speed(100), ONE, back, false, 100), speed(90));
    assert_eq!(s.next_speed(speed(70), ONE, back, true, 100), speed(120));
}

#[test]
fn next_speed_rounds_down() {
    let mut s = BoidSettings::default();
    s.min_speed = 0;
    s.max_speed = 1000;
    let steer = MotionBranch::Steer;
    assert_eq!(s.next_speed(speed(500), 1, steer, false, 1000), speed(400));
    assert_eq!(s.next_speed(speed(500), -1, steer, false, 1000), speed(399));
    assert_eq!(s.next_speed(speed(500), 0, steer, false, 1), speed(499));
}

#[test]
fn turn_steps() {
    let s = BoidSettings::default();
    assert_eq!(s.turn_step(ONE, 1000), -520_000_000);
    assert_eq!(s.turn_step(-ONE / 2, 100), 26_000_000);
    assert_eq!(s.turn_step(0, 1000), 0);
    assert_eq!(s.turn_step(1, 1), -1);
    assert_eq!(s.turn_step(-1, 1), 0);
    assert_eq!(
        s.turn_step(i32::MIN, u32::MAX),
        (i32::MIN as i128).abs() * 520 * (u32::MAX as i128) / 1000
    );
    assert_eq!(RETURN_TURN_RATE, 90);
    assert_eq!(return_step(1000), 90_000_000);
    assert_eq!(return_step(16), 1_440_000);
    assert_eq!(return_step(0), 0);
    assert_eq!(return_step(u32::MAX), 90_000 * (u32::MAX as i64));
}

#[test]
fn setup_gives_the_first_agents_to_the_players() {
    let round = RoundSettings::default();
    let positions: Vec<[i32; 2]> = (0..10).map(|i| [i * 10, -i]).collect();
    let (flock, bots) = setup_game(&round, &positions);
    assert!(flock.is_well_formed());
    assert_eq!(flock.len(), 10);
    assert_eq!(flock.positions, positions);
    for x in 0..8 {
        assert_eq!(flock.colors[x], Some(round.players[x].color));
        assert!(flock.leaders[x]);
    }
    for x in 8..10 {
        assert_eq!(flock.colors[x], None);
        assert!(!flock.leaders[x]);
    }
    assert_eq!(
        flock.input_bound,
        vec![true, false, false, false, false, false, false, false, false, false]
    );
    assert_eq!(
        bots,
        vec![
            None,
            Some(Bot::BoneHead),
            Some(Bot::BoneHead),
            Some(Bot::ScaredyCat),
            Some(Bot::Speedy),
            Some(Bot::Hunter),
            Some(Bot::BoneHead),
            Some(Bot::BoneHead),
            None,
            None
        ]
    );
    for x in 0..10 {
        assert!(flock.capture_neighbors[x].entities.is_empty());
        assert!(flock.separation_neighbors[x].entities.is_empty());
    }
}

#[test]
fn setup_with_fewer_agents_than_players() {
    let round = RoundSettings::default();
    let (flock, bots) = setup_game(&round, &vec![[1, 2], [3, 4]]);
    assert_eq!(flock.colors, vec![Some(BoidColor::Red), Some(BoidColor::Green)]);
    assert_eq!(flock.leaders, vec![true, true]);
    assert_eq!(flock.input_bound, vec![true, false]);
    assert_eq!(bots, vec![None, Some(Bot::BoneHead)]);
    let (empty, no_bots) = setup_game(&round, &vec![]);
    assert_eq!(empty.len(), 0);
    assert!(no_bots.is_empty());
}

#[test]
fn hunter_without_a_colour_submits_nothing() {
    let mut flock = Flock::new();
    flock.spawn([0, 0], None, true, false);
    flock.spawn([10, 0], Some(BoidColor::Blue), true, false);
    assert_eq!(Bot::Hunter.update(&flock, 0), NOTHING);
}

#[test]
fn spawn_numbers_the_agents() {
    let mut flock = Flock::new();
    assert_eq!(flock.len(), 0);
    assert_eq!(flock.spawn([1, 1], None, false, false), 0);
    assert_eq!(flock.spawn([2, 2], Some(BoidColor::Pink), true, true), 1);
    assert_eq!(flock.len(), 2);
    assert!(flock.is_well_formed());
    assert_eq!(flock.positions, vec![[1, 1], [2, 2]]);
    assert_eq!(flock.colors, vec![None, Some(BoidColor::Pink)]);
    assert_eq!(flock.leaders, vec![false, true]);
    assert_eq!(flock.input_bound, vec![false, true]);
    flock.leaders.pop();
    assert!(!flock.is_well_formed());
}
