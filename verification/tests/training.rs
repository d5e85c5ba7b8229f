use kabaddi_raid::actor_units::court::Court;
use kabaddi_raid::actor_units::player::Player;
use kabaddi_raid::agent::Agent;
use kabaddi_raid::environments::{RaidEnv, SimulationEnvironment};
use kabaddi_raid::training::{is_terminal, run_episode, train, EPISODES, STEPS_PER_EPISODE};

#[test]
fn a_training_is_a_thousand_episodes_of_thirty_steps() {
    assert_eq!(EPISODES, 1000);
    assert_eq!(STEPS_PER_EPISODE, 30);
}

#[test]
fn an_episode_ends_out_of_bounds_or_after_success() {
    let court = Court::default();
    let at = |x: i32, y: i32, struggling: bool| Player::new(0, 1750, 70000, (x, y), struggling);
    assert!(!is_terminal(&court, at(0, 0, false)));
    assert!(!is_terminal(&court, at(7999, 6500, true)));
    assert!(is_terminal(&court, at(8000, 0, false)));
    assert!(is_terminal(&court, at(0, 6501, false)));
    assert!(is_terminal(&court, at(-1, 0, false)));
    assert!(is_terminal(&court, at(-1, 0, true)));
}

#[test]
fn an_episode_of_no_steps_is_nothing() {
    let mut agent = Agent::default();
    let mut env = RaidEnv::new(7).unwrap();
    assert_eq!(run_episode(&mut agent, &mut env, 0), 0);
    assert_eq!(env.current_state(), (0, 0));
    assert_eq!(agent.exploration_rate(), 1000);
}

#[test]
fn an_episode_of_one_step() {
    for _ in 0..200 {
        let mut agent = Agent::default();
        let mut env = RaidEnv::new(7).unwrap();
        let total = run_episode(&mut agent, &mut env, 1);
        let expected = match env.current_state() {
            // forward, left, or an action that moves nobody: in bounds, near the boundary
            (1000, 0) | (0, -1000) | (0, 0) => -2000,
            // backward or a retreat, or right: out of bounds
            (-1000, 0) | (-2000, 0) => -10000,
            (0, 1000) => -2000,
            other => panic!("{other:?}"),
        };
        assert_eq!(total, expected);
        assert_eq!(agent.exploration_rate(), 995);
    }
}

#[test]
fn an_episode_stops_when_the_raid_is_over() {
    for _ in 0..200 {
        let mut agent = Agent::default();
        let mut env = RaidEnv::new(7).unwrap();
        let total = run_episode(&mut agent, &mut env, 30);
        assert!(-37000 * 30 <= total && total <= 0);
        let decays = {
            let mut rate = 1000;
            let mut n = 0;
            while rate != agent.exploration_rate() {
                rate = rate * 995 / 1000;
                n += 1;
                assert!(n <= 30);
            }
            n
        };
        assert!(decays >= 1);
        if decays < 30 {
            // stopped early: the raider is out of bounds, and the last step cost ten
            assert!(env.court().is_out_of_bounds(env.raider()));
            assert!(total <= -10000);
        }
    }
}

#[test]
fn a_greedy_agent_that_knows_nothing_walks_forward() {
    let mut agent = Agent::new(100, 900, 0, 995);
    let mut env = RaidEnv::new(7).unwrap();
    // it goes forward, where every step costs two, until that is valued
    // less than going backward, of which it knows nothing yet
    let total = run_episode(&mut agent, &mut env, 1);
    assert_eq!(env.current_state(), (1000, 0));
    assert_eq!(total, -2000);
    assert_eq!(
        agent.q_value(Player::new(0, 0, 0, (0, 0), false), kabaddi_raid::agent::Action::MoveForward),
        -200
    );
}

#[test]
fn a_training_answers_one_total_for_each_episode() {
    let mut agent = Agent::default();
    let mut env = RaidEnv::new(7).unwrap();
    let rewards = train(&mut agent, &mut env, 50, 30);
    assert_eq!(rewards.len(), 50);
    for total in rewards {
        assert!(-37000 * 30 <= total && total <= 0);
    }
    assert_eq!(env.num_antis(), 7);
    assert_eq!(env.raider().id, 0);
    assert_eq!(env.court().width_x, 8000);
    assert_eq!(agent.learning_rate(), 100);
    assert_eq!(agent.discount_factor(), 900);
    assert_eq!(agent.exploration_decay(), 995);
    assert!(agent.exploration_rate() < 1000);
}

#[test]
fn a_training_of_no_episodes_is_nothing() {
    let mut agent = Agent::default();
    let mut env = RaidEnv::new(7).unwrap();
    assert!(train(&mut agent, &mut env, 0, 30).is_empty());
    assert_eq!(env.current_state(), (0, 0));
    assert_eq!(agent.exploration_rate(), 1000);
}

#[test]
fn a_whole_training_runs() {
    let mut agent = Agent::default();
    let mut env = RaidEnv::new(7).unwrap();
    let rewards = train(&mut agent, &mut env, EPISODES, STEPS_PER_EPISODE);
    assert_eq!(rewards.len(), 1000);
    assert!(rewards.iter().all(|total| *total <= 0));
}
