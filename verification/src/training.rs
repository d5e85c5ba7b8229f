//! The learning loop: episodes of steps, each step chosen by the agent,
//! answered by the environment and learned from.
use crate::actor_units::court::Court;
use crate::actor_units::player::Player;
use crate::agent::{candidate_actions, Action, Agent, AgentView};
use crate::environments::{RaidEnv, RaidEnvView, SimulationEnvironment};
use vstd::prelude::*;

verus! {

/// How many episodes a training runs.
pub const EPISODES: usize = 1000;

/// How many steps an episode takes at most.
pub const STEPS_PER_EPISODE: u32 = 30;

/// How far a training has come: the raid, the agent, and the sum of the
/// rewards of the episode under way.
pub struct Progress {
    pub env: RaidEnvView,
    pub agent: AgentView,
    pub total: int,
}

/// The progress before the first step of an episode.
pub open spec fn outset(env: RaidEnvView, agent: AgentView) -> Progress {
    Progress { env, agent, total: 0 }
}

impl Progress {
    /// The progress after one more step, in which the raider does `action`:
    /// the raid moves on, the agent learns from the step and lets its
    /// exploration decay, and the reward is added to the total.
    pub open spec fn advance(self, action: Action) -> Progress {
        let env = self.env.after(action);
        let reward = env.step_reward();
        Progress {
            env,
            agent: self.agent.updated(
                self.env.raider,
                action,
                reward as i64,
                env.raider,
                candidate_actions(env.raider),
            ).decayed(),
            total: self.total + reward,
        }
    }

    /// The progress after the steps of `actions`, in order.
    pub open spec fn replay(self, actions: Seq<Action>) -> Progress
        decreases actions.len(),
    {
        if actions.len() == 0 {
            self
        } else {
            self.replay(actions.drop_last()).advance(actions.last())
        }
    }

    /// Whether the agent may take `action` now: it is open to the raider,
    /// and it is the best action if the agent does not explore.
    pub open spec fn admits(self, action: Action) -> bool {
        let open = candidate_actions(self.env.raider);
        &&& open.contains(action)
        &&& self.agent.exploration_rate <= 0 ==> action == self.agent.best_action(
            self.env.raider,
            open,
        )
    }

    /// Whether `actions` make an episode of at most `max_steps` steps from
    /// here: the agent may take each action when its turn comes, the raid is
    /// not over after any step but the last, and the episode stops short of
    /// `max_steps` only because the raid is over.
    pub open spec fn is_episode(self, actions: Seq<Action>, max_steps: int) -> bool {
        &&& actions.len() <= max_steps
        &&& forall|k: int|
            0 <= k < actions.len() ==> (#[trigger] self.replay(actions.take(k))).admits(actions[k])
        &&& forall|k: int|
            0 < k < actions.len() ==> !(#[trigger] self.replay(actions.take(k))).env.is_over()
        &&& actions.len() < max_steps ==> actions.len() > 0 && self.replay(actions).env.is_over()
    }

    /// The progress as the next episode begins: the total starts at zero.
    pub open spec fn rested(self) -> Progress {
        Progress { total: 0, ..self }
    }

    /// The progress at the end of the last of `episodes`, run one after the
    /// other from here.
    pub open spec fn replay_all(self, episodes: Seq<Seq<Action>>) -> Progress
        decreases episodes.len(),
    {
        if episodes.len() == 0 {
            self
        } else {
            self.replay_all(episodes.drop_last()).rested().replay(episodes.last())
        }
    }

    /// Whether `episodes` make a training from here: each is an episode from
    /// where the one before it ended.
    pub open spec fn is_training(self, episodes: Seq<Seq<Action>>, max_steps: int) -> bool {
        forall|i: int|
            0 <= i < episodes.len() ==> (#[trigger] self.replay_all(
                episodes.take(i),
            )).rested().is_episode(episodes[i], max_steps)
    }

    /// Whatever the actions, a replay changes nothing of the raid but the
    /// position of the raider, and nothing of the rates but the exploration
    /// rate. If the raid was in order, it still is, and the total has fallen
    /// by no more than thirty-seven points a step, and not risen.
    pub proof fn lemma_replay_keeps(self, actions: Seq<Action>)
        ensures
            self.replay(actions).env.antis == self.env.antis,
            self.replay(actions).env.court == self.env.court,
            self.replay(actions).env.raider.same_person(self.env.raider),
            self.replay(actions).agent.learning_rate == self.agent.learning_rate,
            self.replay(actions).agent.discount_factor == self.agent.discount_factor,
            self.replay(actions).agent.exploration_decay == self.agent.exploration_decay,
            self.env.wf() ==> self.replay(actions).env.wf(),
            self.env.wf() ==> self.total - 37000 * actions.len() <= self.replay(actions).total
                <= self.total,
        decreases actions.len(),
    {
        if actions.len() > 0 {
            let before = self.replay(actions.drop_last());
            self.lemma_replay_keeps(actions.drop_last());
            if self.env.wf() {
                before.env.after(actions.last()).lemma_reward_bounds();
            }
        }
    }

    /// Whatever the episodes, a training changes nothing of the raid but the
    /// position of the raider, and nothing of the rates but the exploration
    /// rate.
    pub proof fn lemma_replay_all_keeps(self, episodes: Seq<Seq<Action>>)
        ensures
            self.replay_all(episodes).env.antis == self.env.antis,
            self.replay_all(episodes).env.court == self.env.court,
            self.replay_all(episodes).env.raider.same_person(self.env.raider),
            self.replay_all(episodes).agent.learning_rate == self.agent.learning_rate,
            self.replay_all(episodes).agent.discount_factor == self.agent.discount_factor,
            self.replay_all(episodes).agent.exploration_decay == self.agent.exploration_decay,
            self.env.wf() ==> self.replay_all(episodes).env.wf(),
        decreases episodes.len(),
    {
        if episodes.len() > 0 {
            self.lemma_replay_all_keeps(episodes.drop_last());
            self.replay_all(episodes.drop_last()).rested().lemma_replay_keeps(episodes.last());
        }
    }
}

/// Whether an episode ends with `player` on `court`: out of bounds, or
/// after a successful raid.
pub fn is_terminal(court: &Court, player: Player) -> (r: bool)
    ensures
        r == (court.spec_is_out_of_bounds(player) || court.spec_is_raid_successful(
            player.position,
            player.is_struggling,
        )),
{
    court.is_out_of_bounds(player) || court.is_raid_successful(
        player.position,
        player.is_struggling,
    )
}

/// Runs one episode of at most `max_steps` steps and answers the sum of the
/// rewards. The agent chooses each action among those open to the raider,
/// learns from the step and lets its exploration decay. The episode stops
/// early as soon as the raid is over. Which actions are taken is up to the
/// agent's exploration; what they lead to is not.
pub fn run_episode(agent: &mut Agent, env: &mut RaidEnv, max_steps: u32) -> (total: i64)
    ensures
        exists|actions: Seq<Action>|
            {
                &&& #[trigger] outset(old(env)@, old(agent)@).is_episode(actions, max_steps as int)
                &&& outset(old(env)@, old(agent)@).replay(actions) == (Progress {
                    env: final(env)@,
                    agent: final(agent)@,
                    total: total as int,
                })
            },
        -37000 * max_steps <= total <= 0,
{
    let ghost start = outset(env@, agent@);
    let ghost mut actions: Seq<Action> = Seq::empty();
    let mut player = env.raider();
    let mut total: i64 = 0;
    let mut steps: u32 = 0;
    let mut over = false;
    while steps < max_steps && !over
        invariant
            steps <= max_steps,
            actions.len() == steps,
            start.total == 0,
            start.replay(actions) == (Progress { env: env@, agent: agent@, total: total as int }),
            -37000 * steps <= total <= 0,
            player == env@.raider,
            over ==> steps > 0 && env@.is_over(),
            !over && steps > 0 ==> !env@.is_over(),
            forall|k: int|
                0 <= k < actions.len() ==> (#[trigger] start.replay(actions.take(k))).admits(
                    actions[k],
                ),
            forall|k: int|
                0 < k < actions.len() ==> !(#[trigger] start.replay(actions.take(k))).env.is_over(),
        decreases max_steps - steps, if over { 0int } else { 1int },
    {
        let next_actions = agent.get_next_actions(&player);
        let action = agent.choose_action(player, next_actions.as_slice());
        let (next_player, reward) = env.step(action);
        let next_next_actions = agent.get_next_actions(&next_player);
        agent.update_q_table(player, action, reward, next_player, next_next_actions.as_slice());
        agent.decay_exploration();
        proof {
            env@.lemma_reward_bounds();
            let longer = actions.push(action);
            assert(longer.drop_last() =~= actions);
            assert(longer.take(steps as int) =~= actions);
            assert(actions.take(steps as int) =~= actions);
            assert forall|k: int| 0 <= k < actions.len() implies #[trigger] longer.take(k)
                == actions.take(k) by {
                assert(longer.take(k) =~= actions.take(k));
            }
            actions = longer;
        }
        total += reward;
        player = next_player;
        steps += 1;
        over = is_terminal(env.court(), player);
    }
    proof {
        assert(actions.take(actions.len() as int) =~= actions);
        assert(start.is_episode(actions, max_steps as int));
    }
    total
}

/// Runs `episodes` episodes of at most `max_steps` steps each, one after the
/// other on the same raid and with the same agent, and answers the sum of
/// the rewards of each, in order.
pub fn train(agent: &mut Agent, env: &mut RaidEnv, episodes: usize, max_steps: u32) -> (rewards:
    Vec<i64>)
    ensures
        rewards@.len() == episodes,
        exists|runs: Seq<Seq<Action>>|
            {
                &&& runs.len() == episodes
                &&& #[trigger] outset(old(env)@, old(agent)@).is_training(runs, max_steps as int)
                &&& outset(old(env)@, old(agent)@).replay_all(runs).env == final(env)@
                &&& outset(old(env)@, old(agent)@).replay_all(runs).agent == final(agent)@
                &&& forall|i: int|
                    0 <= i < episodes ==> rewards@[i] == (#[trigger] outset(
                        old(env)@,
                        old(agent)@,
                    ).replay_all(runs.take(i + 1))).total
            },
        forall|i: int| 0 <= i < episodes ==> -37000 * max_steps <= #[trigger] rewards@[i] <= 0,
{
    let ghost start = outset(env@, agent@);
    let ghost mut runs: Seq<Seq<Action>> = Seq::empty();
    let mut rewards: Vec<i64> = Vec::new();
    let mut episode: usize = 0;
    while episode < episodes
        invariant
            episode <= episodes,
            rewards@.len() == episode,
            runs.len() == episode,
            start.is_training(runs, max_steps as int),
            start.replay_all(runs).env == env@,
            start.replay_all(runs).agent == agent@,
            forall|i: int|
                0 <= i < episode ==> rewards@[i] == (#[trigger] start.replay_all(
                    runs.take(i + 1),
                )).total,
            forall|i: int| 0 <= i < episode ==> -37000 * max_steps <= #[trigger] rewards@[i] <= 0,
        decreases episodes - episode,
    {
        let ghost before = outset(env@, agent@);
        let total = run_episode(agent, env, max_steps);
        proof {
            let actions = choose|actions: Seq<Action>|
                {
                    &&& #[trigger] before.is_episode(actions, max_steps as int)
                    &&& before.replay(actions) == (Progress {
                        env: env@,
                        agent: agent@,
                        total: total as int,
                    })
                };
            assert(before == start.replay_all(runs).rested());
            let longer = runs.push(actions);
            assert(longer.drop_last() =~= runs);
            assert(longer.take(episode as int) =~= runs);
            assert(longer.take(episode + 1) =~= longer);
            assert(runs.take(episode as int) =~= runs);
            assert forall|i: int| 0 <= i <= runs.len() implies #[trigger] longer.take(i)
                == runs.take(i) by {
                assert(longer.take(i) =~= runs.take(i));
            }
            runs = longer;
        }
        rewards.push(total);
        episode += 1;
    }
    proof {
        assert(runs.take(runs.len() as int) =~= runs);
    }
    rewards
}

} // verus!
