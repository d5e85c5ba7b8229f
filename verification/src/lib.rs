//! A tabular Q-learning experiment on a kabaddi court.
//!
//! A raider learns, by trial and error, how to move on a bounded court while
//! the antis stand still. The environment owns the court, the raider and the
//! antis and hands out rewards; the agent owns the value table and picks the
//! actions.
//!
//! Every quantity is a fixed-point number counted in thousandths: a length of
//! one metre, a weight of one kilogram, a reward of one point and a
//! probability of one are all written `1000` (see [`fixed::UNIT`]). Products
//! are rounded toward zero, and a number that would leave the range of its
//! type stops at the end of the range.
//!
//! - [`actor_units`]: the court and the players.
//! - [`environments`]: the raid, its steps and its rewards.
//! - [`agent`]: the value table, the choice of an action, the update.
//! - [`training`]: episodes of steps, and trainings of episodes.
//! - [`convergence`]: what repeated learning from one reward leads to.
//! - [`decimal`]: reading the rates from text.
//! - [`fixed`]: the arithmetic underneath.
pub mod actor_units;
pub mod agent;
mod chance;
pub mod convergence;
pub mod decimal;
pub mod environments;
pub mod fixed;
pub mod training;
