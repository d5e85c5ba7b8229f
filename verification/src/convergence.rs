//! How the learned value behaves when the same reward comes again and again
//! and the discount factor is zero.
use crate::actor_units::player::Player;
use crate::agent::{learned, Action, AgentView};
use crate::fixed::{scaled, UNIT};
use vstd::prelude::*;

verus! {

/// How far apart two numbers are.
pub open spec fn gap(a: int, b: int) -> int {
    if a >= b {
        a - b
    } else {
        b - a
    }
}

/// The value after learning `n` times from the same reward with a discount
/// factor of zero, starting from `q`.
pub open spec fn learned_repeatedly(q: int, reward: int, learning_rate: int, n: nat) -> int
    decreases n,
{
    if n == 0 {
        q
    } else {
        learned(
            learned_repeatedly(q, reward, learning_rate, (n - 1) as nat),
            reward,
            0,
            learning_rate,
            0,
        )
    }
}

/// The nearest that repeated learning at `learning_rate` is sure to come to
/// the reward: closer than this, the step rounds to nothing.
pub open spec fn resolution(learning_rate: int) -> int {
    (UNIT - 1) / learning_rate
}

/// With a discount factor of zero the value of the next state plays no part.
pub proof fn lemma_no_discount_ignores_future(
    q: int,
    reward: int,
    best_next: int,
    learning_rate: int,
)
    ensures
        learned(q, reward, best_next, learning_rate, 0) == learned(q, reward, 0, learning_rate, 0),
{
    assert(0 * best_next == 0);
    assert(scaled(0, best_next) == 0);
    assert(scaled(0, 0) == 0);
}

/// One step of learning with a discount factor of zero and a learning rate
/// strictly between zero and one moves the value toward the reward: never
/// away from it, never past it, and by at least a thousandth as long as the
/// value is further from the reward than the resolution. What is left of the
/// gap is at most the share that the learning rate leaves, and the rounding.
pub proof fn lemma_learning_step(q: int, reward: int, best_next: int, learning_rate: int)
    requires
        i64::MIN <= q <= i64::MAX,
        i64::MIN <= reward <= i64::MAX,
        0 < learning_rate < UNIT,
    ensures
        ({
            let next = learned(q, reward, best_next, learning_rate, 0);
            &&& q <= reward ==> q <= next <= reward
            &&& q >= reward ==> reward <= next <= q
            &&& gap(next, reward) <= gap(q, reward)
            &&& gap(q, reward) > resolution(learning_rate) ==> gap(next, reward) < gap(q, reward)
            &&& UNIT * gap(next, reward) <= (UNIT - learning_rate) * gap(q, reward) + (UNIT - 1)
        }),
{
    lemma_no_discount_ignores_future(q, reward, best_next, learning_rate);
    let d = reward - q;
    let g = gap(q, reward);
    let product = learning_rate * g;
    assert(0 <= product <= (UNIT - 1) * g) by (nonlinear_arith)
        requires
            0 <= g,
            0 < learning_rate <= UNIT - 1,
            product == learning_rate * g,
    ;
    assert(learning_rate * d == if d >= 0 {
        product
    } else {
        -product
    }) by (nonlinear_arith)
        requires
            g == if d >= 0 {
                d
            } else {
                -d
            },
            product == learning_rate * g,
    ;
    assert(scaled(0, 0) == 0);
    let change = scaled(learning_rate, d);
    assert(change == if d >= 0 {
        product / 1000
    } else {
        -(product / 1000)
    });
    if g > resolution(learning_rate) {
        assert(product >= UNIT) by (nonlinear_arith)
            requires
                g >= (UNIT - 1) / learning_rate + 1,
                0 < learning_rate,
                product == learning_rate * g,
        {
            assert(((UNIT - 1) / learning_rate + 1) * learning_rate > UNIT - 1);
        }
    }
    assert((UNIT - learning_rate) * g == UNIT * g - product) by (nonlinear_arith)
        requires
            product == learning_rate * g,
    ;
}

/// Learning again and again from the same reward, with a discount factor of
/// zero and a learning rate strictly between zero and one, brings the value
/// monotonically toward the reward: the value stays on its side of the
/// reward, each step leaves it no further away than the one before, and
/// after `n` steps the gap has shrunk by `n` thousandths or is within the
/// resolution.
pub proof fn lemma_learning_converges(q: int, reward: int, learning_rate: int, n: nat)
    requires
        i64::MIN <= q <= i64::MAX,
        i64::MIN <= reward <= i64::MAX,
        0 < learning_rate < UNIT,
    ensures
        ({
            let now = learned_repeatedly(q, reward, learning_rate, n);
            let next = learned_repeatedly(q, reward, learning_rate, n + 1);
            &&& q <= reward ==> q <= now <= next <= reward
            &&& q >= reward ==> reward <= next <= now <= q
            &&& gap(next, reward) <= gap(now, reward) <= gap(q, reward)
            &&& gap(now, reward) <= gap(q, reward) - n || gap(now, reward) <= resolution(
                learning_rate,
            )
        }),
    decreases n,
{
    if n > 0 {
        lemma_learning_converges(q, reward, learning_rate, (n - 1) as nat);
        let before = learned_repeatedly(q, reward, learning_rate, (n - 1) as nat);
        lemma_learning_step(before, reward, 0, learning_rate);
    }
    let now = learned_repeatedly(q, reward, learning_rate, n);
    lemma_learning_step(now, reward, 0, learning_rate);
}

/// An agent whose discount factor is zero and whose learning rate is
/// strictly between zero and one learns from every step toward the reward of
/// that step: the value of what was done comes no further from the reward,
/// does not pass it, and comes nearer as long as it is further away than the
/// resolution.
pub proof fn lemma_update_approaches_reward(
    agent: AgentView,
    player: Player,
    action: Action,
    reward: i64,
    next_player: Player,
    next_actions: Seq<Action>,
)
    requires
        agent.discount_factor == 0,
        0 < agent.learning_rate < UNIT,
    ensures
        ({
            let before = agent.value(player, action);
            let after = agent.updated(player, action, reward, next_player, next_actions).value(
                player,
                action,
            );
            &&& before <= reward ==> before <= after <= reward
            &&& before >= reward ==> reward <= after <= before
            &&& gap(before, reward as int) > resolution(agent.learning_rate as int) ==> gap(
                after,
                reward as int,
            ) < gap(before, reward as int)
        }),
{
    lemma_learning_step(
        agent.value(player, action),
        reward as int,
        crate::agent::best_value(agent.table, next_player, next_actions),
        agent.learning_rate as int,
    );
}

} // verus!
