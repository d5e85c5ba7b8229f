//! The raid: a raider, the antis and the court, and what a step does to them.
use crate::actor_units::court::Court;
use crate::actor_units::player::{
    entry, lineup, starting_raider, Player, INVALID_CONFIGURATION, MAX_ANTIS, MIN_ANTIS,
};
use crate::agent::Action;
use crate::fixed::{
    clamp_i32, floor_sqrt, is_floor_sqrt, isqrt, lemma_floor_sqrt, lemma_square_monotone,
    saturate_i32, UNIT,
};
use std::collections::HashMap;
use vstd::prelude::*;

verus! {

broadcast use vstd::std_specs::hash::group_hash_axioms;

/// The reward of a step that ends out of bounds.
pub const OUT_OF_BOUNDS_PENALTY: i64 = -10000;

/// What every anti less than a metre from the raider takes off the reward.
pub const CLOSENESS_PENALTY: i64 = -5000;

/// What standing near the boundary takes off the reward.
pub const BOUNDARY_PENALTY: i64 = -2000;

/// What a successful raid adds to the reward.
pub const SUCCESS_BONUS: i64 = 50000;

/// A raid in progress. The antis stand still; only the raider moves, and
/// only by `step`.
pub struct RaidEnv {
    pub(crate) raider: Player,
    pub(crate) anti_list: HashMap<i32, Player>,
    pub(crate) court: Court,
}

/// The state of a raid: the raider, the antis by identity, and the court.
pub struct RaidEnvView {
    pub raider: Player,
    pub antis: Map<i32, Player>,
    pub court: Court,
}

/// What an environment offers to the one who drives the learning.
pub trait SimulationEnvironment {
    /// Where the learner is.
    fn current_state(&self) -> (i32, i32);

    /// Does `action` and answers the learner as it is now, and the reward.
    fn step(&mut self, action: Action) -> (Player, i64);

    /// Where `action` would take the learner.
    fn calculate_next_state(&self, action: Action) -> (i32, i32);

    /// The reward of the place where the learner is.
    fn calculate_reward(&self) -> i64;
}

/// The square of the distance between two positions.
pub open spec fn distance_sq(a: (i32, i32), b: (i32, i32)) -> int {
    (a.0 - b.0) * (a.0 - b.0) + (a.1 - b.1) * (a.1 - b.1)
}

/// The distance between two positions, rounded down to a thousandth.
pub open spec fn distance(a: (i32, i32), b: (i32, i32)) -> int {
    floor_sqrt(distance_sq(a, b))
}

/// Where `action` takes a player from `position`: a metre forward, backward,
/// left or right, two metres backward for a retreat, nowhere for the rest. A
/// coordinate stops at the end of its range.
pub open spec fn next_position(position: (i32, i32), action: Action) -> (i32, i32) {
    match action {
        Action::MoveForward => (clamp_i32(position.0 + UNIT) as i32, position.1),
        Action::MoveBackward => (clamp_i32(position.0 - UNIT) as i32, position.1),
        Action::MoveLeft => (position.0, clamp_i32(position.1 - UNIT) as i32),
        Action::MoveRight => (position.0, clamp_i32(position.1 + UNIT) as i32),
        Action::Retreat => (clamp_i32(position.0 - 2 * UNIT) as i32, position.1),
        _ => position,
    }
}

/// The identities from one to `n`.
pub open spec fn identities(n: int) -> Set<i32> {
    Set::new(|k: i32| 1 <= k <= n)
}

/// Whether `antis` are between one and seven and their identities count up
/// from one.
pub open spec fn numbered(antis: Seq<Player>) -> bool {
    &&& MIN_ANTIS <= antis.len() <= MAX_ANTIS
    &&& forall|j: int| 0 <= j < antis.len() ==> (#[trigger] antis[j]).id == j + 1
}

/// The antis of `antis`, each filed under its place in the line, from one.
pub open spec fn filed(antis: Seq<Player>) -> Map<i32, Player> {
    Map::new(|k: i32| 1 <= k <= antis.len(), |k: i32| antis[k - 1])
}

impl RaidEnvView {
    /// The antis are between one and seven, they are filed under their
    /// identities, which count up from one, and every extent of the court is
    /// positive.
    pub open spec fn wf(self) -> bool {
        &&& self.antis.dom().finite()
        &&& MIN_ANTIS <= self.antis.len() <= MAX_ANTIS
        &&& forall|k: i32| #[trigger] self.antis.contains_key(k) <==> 1 <= k <= self.antis.len()
        &&& forall|k: i32| #[trigger] self.antis.contains_key(k) ==> self.antis[k].id == k
        &&& self.court.wf()
    }

    /// The distance from the raider to each anti, in the order of their
    /// identities.
    pub open spec fn distances(self) -> Seq<u64> {
        Seq::new(
            self.antis.len(),
            |i: int| distance(self.raider.position, self.antis[(i + 1) as i32].position) as u64,
        )
    }

    /// The identities of the antis less than a metre from the raider.
    pub open spec fn close_antis(self) -> Set<i32> {
        Set::new(
            |k: i32|
                self.antis.contains_key(k) && distance_sq(
                    self.raider.position,
                    self.antis[k].position,
                ) < UNIT * UNIT,
        )
    }

    /// The identities up to `n` of the antis less than a metre from the
    /// raider.
    pub open spec fn close_among(self, n: int) -> Set<i32> {
        Set::new(|k: i32| 1 <= k <= n && self.close_antis().contains(k))
    }

    /// The reward of standing where the raider stands: a penalty for every
    /// anti less than a metre away, and one more near the boundary.
    pub open spec fn reward(self) -> int {
        CLOSENESS_PENALTY * self.close_antis().len() + if self.raider.spec_is_near_boundary() {
            BOUNDARY_PENALTY as int
        } else {
            0
        }
    }

    /// The state after the raider has done `action`: only the raider's
    /// position has changed.
    pub open spec fn after(self, action: Action) -> RaidEnvView {
        RaidEnvView {
            raider: Player {
                position: next_position(self.raider.position, action),
                ..self.raider
            },
            ..self
        }
    }

    /// The reward of the step that led to this state. Out of bounds the
    /// penalty stands alone; otherwise the reward of the place, with the
    /// bonus on top for a successful raid.
    pub open spec fn step_reward(self) -> int {
        if self.court.spec_is_out_of_bounds(self.raider) {
            OUT_OF_BOUNDS_PENALTY as int
        } else if self.court.spec_is_raid_successful(
            self.raider.position,
            self.raider.is_struggling,
        ) {
            self.reward() + SUCCESS_BONUS
        } else {
            self.reward()
        }
    }

    /// Whether the raid is over: the raider is out of bounds, or has
    /// succeeded.
    pub open spec fn is_over(self) -> bool {
        self.court.spec_is_out_of_bounds(self.raider) || self.court.spec_is_raid_successful(
            self.raider.position,
            self.raider.is_struggling,
        )
    }

    /// Out of bounds is checked first, so a raider who is both out of bounds
    /// and successful gets the penalty and nothing else. Every successful
    /// raider is out of bounds, so no step pays the bonus.
    pub proof fn lemma_out_of_bounds_wins(self)
        ensures
            self.court.spec_is_out_of_bounds(self.raider) ==> self.step_reward()
                == OUT_OF_BOUNDS_PENALTY,
            self.court.spec_is_raid_successful(self.raider.position, self.raider.is_struggling)
                ==> self.step_reward() == OUT_OF_BOUNDS_PENALTY,
            !self.court.spec_is_out_of_bounds(self.raider) ==> self.step_reward() == self.reward(),
            self.is_over() == self.court.spec_is_out_of_bounds(self.raider),
    {
    }

    /// The penalties add up: with `close` antis less than a metre away the
    /// reward is `close` closeness penalties, and the boundary penalty on top
    /// near the boundary. Far from the antis and from the boundary it is
    /// zero; near the boundary with two antis close it is minus twelve.
    pub proof fn lemma_reward_adds_up(self, close: nat)
        requires
            self.close_antis().len() == close,
        ensures
            self.raider.spec_is_near_boundary() ==> self.reward() == CLOSENESS_PENALTY * close
                + BOUNDARY_PENALTY,
            !self.raider.spec_is_near_boundary() ==> self.reward() == CLOSENESS_PENALTY * close,
            close == 0 && !self.raider.spec_is_near_boundary() ==> self.reward() == 0,
            close == 2 && self.raider.spec_is_near_boundary() ==> self.reward() == -12000,
    {
    }

    /// The close antis among the first `n` are finitely many, and the next
    /// anti adds itself to them if it is close.
    pub proof fn lemma_close_among(self, n: int)
        requires
            0 <= n < i32::MAX,
        ensures
            self.close_among(n).finite(),
            self.close_among(n).len() <= n,
            !self.close_among(n).contains((n + 1) as i32),
            self.close_among(n + 1) == if self.close_antis().contains((n + 1) as i32) {
                self.close_among(n).insert((n + 1) as i32)
            } else {
                self.close_among(n)
            },
        decreases n,
    {
        if n == 0 {
            assert(self.close_among(0) =~= Set::<i32>::empty());
        } else {
            self.lemma_close_among(n - 1);
        }
        if self.close_antis().contains((n + 1) as i32) {
            assert(self.close_among(n + 1) =~= self.close_among(n).insert((n + 1) as i32));
        } else {
            assert(self.close_among(n + 1) =~= self.close_among(n));
        }
    }

    /// No reward is below the penalties of seven close antis and of the
    /// boundary together, and none is above zero.
    pub proof fn lemma_reward_bounds(self)
        requires
            self.wf(),
        ensures
            self.close_antis().finite(),
            self.close_antis().len() <= self.antis.len(),
            -37000 <= self.reward() <= 0,
            -37000 <= self.step_reward() <= 0,
    {
        let n = self.antis.len() as int;
        self.lemma_close_among(n);
        assert(self.close_among(n) =~= self.close_antis());
    }
}

impl View for RaidEnv {
    type V = RaidEnvView;

    closed spec fn view(&self) -> RaidEnvView {
        RaidEnvView { raider: self.raider, antis: self.anti_list@, court: self.court }
    }
}

impl RaidEnv {
    #[verifier::type_invariant]
    closed spec fn inv(self) -> bool {
        self@.wf()
    }

    /// A raid of one raider against `num_anti` antis on the standard court,
    /// or `INVALID_CONFIGURATION` unless there are between one and seven
    /// antis.
    pub fn new(num_anti: usize) -> (r: Result<Self, &'static str>)
        ensures
            r is Err <==> num_anti < MIN_ANTIS || num_anti > MAX_ANTIS,
            r matches Err(e) ==> e@ == INVALID_CONFIGURATION@,
            r matches Ok(env) ==> env@ == (RaidEnvView {
                raider: starting_raider(),
                antis: lineup(num_anti as int),
                court: Court::standard(),
            }) && env@.wf() && env@.antis.len() == num_anti,
    {
        let (raider, anti_list) = entry(num_anti)?;
        proof {
            lemma_lineup_len(num_anti as int);
        }
        Ok(Self { raider, anti_list, court: Court::default() })
    }

    /// A raid of `raider` against `antis` on `court`, or
    /// `INVALID_CONFIGURATION` unless the antis are between one and seven,
    /// their identities count up from one, and every extent of the court is
    /// positive.
    pub fn from_parts(raider: Player, antis: Vec<Player>, court: Court) -> (r: Result<
        Self,
        &'static str,
    >)
        ensures
            r is Ok <==> numbered(antis@) && court.wf(),
            r matches Err(e) ==> e@ == INVALID_CONFIGURATION@,
            r matches Ok(env) ==> env@ == (RaidEnvView { raider, antis: filed(antis@), court })
                && env@.wf() && env@.antis.len() == antis@.len(),
    {
        let n = antis.len();
        if n < MIN_ANTIS || n > MAX_ANTIS {
            return Err(INVALID_CONFIGURATION);
        }
        if court.width_x <= 0 || court.height_y <= 0 || court.width_z <= 0 {
            return Err(INVALID_CONFIGURATION);
        }
        let mut anti_list: HashMap<i32, Player> = HashMap::new();
        let mut i: usize = 0;
        while i < n
            invariant
                i <= n == antis@.len() <= MAX_ANTIS,
                forall|j: int| 0 <= j < i ==> (#[trigger] antis@[j]).id == j + 1,
                anti_list@ =~= filed(antis@.subrange(0, i as int)),
            decreases n - i,
        {
            let anti = antis[i];
            if anti.id != (i + 1) as i32 {
                return Err(INVALID_CONFIGURATION);
            }
            anti_list.insert(anti.id, anti);
            i += 1;
        }
        proof {
            assert(antis@.subrange(0, n as int) =~= antis@);
            lemma_identities_len(n as int);
            assert(filed(antis@).dom() =~= identities(n as int));
        }
        Ok(Self { raider, anti_list, court })
    }

    /// The raider as it is now.
    pub fn raider(&self) -> (p: Player)
        ensures
            p == self@.raider,
    {
        self.raider
    }

    /// The court of the raid.
    pub fn court(&self) -> (c: &Court)
        ensures
            *c == self@.court,
    {
        &self.court
    }

    /// How many antis the raid is played against.
    pub fn num_antis(&self) -> (n: usize)
        ensures
            n == self@.antis.len(),
            self@.wf(),
    {
        proof {
            use_type_invariant(self);
        }
        self.anti_list.len()
    }

    /// The distance from the raider to each anti, in the order of their
    /// identities.
    pub fn distances_to_all_antis(&self) -> (d: Vec<u64>)
        ensures
            d@ == self@.distances(),
    {
        proof {
            use_type_invariant(self);
        }
        let n = self.anti_list.len();
        let mut d: Vec<u64> = Vec::new();
        let mut i: usize = 0;
        while i < n
            invariant
                self@.wf(),
                n == self@.antis.len(),
                i <= n,
                d@.len() == i,
                forall|j: int| 0 <= j < i ==> d@[j] == #[trigger] self@.distances()[j],
            decreases n - i,
        {
            let id: i32 = (i + 1) as i32;
            assert(self@.antis.contains_key(id));
            match self.anti_list.get(&id) {
                Some(anti) => {
                    d.push(distance_between(self.raider.position, anti.position));
                },
                None => {
                    vstd::pervasive::unreached::<()>();
                },
            }
            i += 1;
        }
        assert(d@ =~= self@.distances());
        d
    }
}

impl SimulationEnvironment for RaidEnv {
    /// The position of the raider.
    fn current_state(&self) -> (position: (i32, i32))
        ensures
            position == self@.raider.position,
    {
        self.raider.position
    }

    /// Moves the raider as `action` says and answers the raider as it is
    /// now, and the reward of the step.
    fn step(&mut self, action: Action) -> (r: (Player, i64))
        ensures
            final(self)@ == old(self)@.after(action),
            final(self)@.wf(),
            r.0 == final(self)@.raider,
            r.1 == final(self)@.step_reward(),
    {
        proof {
            use_type_invariant(&*self);
        }
        let next_position = self.calculate_next_state(action);
        self.raider.position = next_position;
        if self.court.is_out_of_bounds(self.raider) {
            return (self.raider, OUT_OF_BOUNDS_PENALTY);
        }
        let reward = self.calculate_reward();
        proof {
            self@.lemma_reward_bounds();
        }
        if self.court.is_raid_successful(self.raider.position, self.raider.is_struggling) {
            return (self.raider, reward + SUCCESS_BONUS);
        }
        (self.raider, reward)
    }

    /// Where `action` would take the raider. Nobody is moved.
    fn calculate_next_state(&self, action: Action) -> (position: (i32, i32))
        ensures
            position == next_position(self@.raider.position, action),
    {
        let (x, y) = self.raider.position;
        match action {
            Action::MoveForward => (saturate_i32(x as i64 + UNIT as i64), y),
            Action::MoveBackward => (saturate_i32(x as i64 - UNIT as i64), y),
            Action::MoveLeft => (x, saturate_i32(y as i64 - UNIT as i64)),
            Action::MoveRight => (x, saturate_i32(y as i64 + UNIT as i64)),
            Action::Retreat => (saturate_i32(x as i64 - 2 * UNIT as i64), y),
            _ => (x, y),
        }
    }

    /// The reward of the place where the raider stands.
    fn calculate_reward(&self) -> (reward: i64)
        ensures
            reward == self@.reward(),
    {
        proof {
            use_type_invariant(self);
        }
        let distances = self.distances_to_all_antis();
        let mut close: i64 = 0;
        let mut i: usize = 0;
        proof {
            self@.lemma_close_among(0);
        }
        while i < distances.len()
            invariant
                self@.wf(),
                distances@ == self@.distances(),
                i <= distances@.len(),
                close == self@.close_among(i as int).len(),
                close <= i,
            decreases distances@.len() - i,
        {
            proof {
                self@.lemma_close_among(i as int);
                let id = (i + 1) as i32;
                assert(self@.antis.contains_key(id));
                lemma_distance(self@.raider.position, self@.antis[id].position);
            }
            if distances[i] < UNIT as u64 {
                close += 1;
            }
            i += 1;
        }
        assert(self@.close_among(i as int) =~= self@.close_antis());
        let boundary_penalty: i64 = if self.raider.is_near_boundary() {
            BOUNDARY_PENALTY
        } else {
            0
        };
        close * CLOSENESS_PENALTY + boundary_penalty
    }
}

/// The distance between two positions, rounded down to a thousandth.
pub fn distance_between(a: (i32, i32), b: (i32, i32)) -> (d: u64)
    ensures
        d == distance(a, b),
{
    let dx: i128 = a.0 as i128 - b.0 as i128;
    let dy: i128 = a.1 as i128 - b.1 as i128;
    proof {
        lemma_distance(a, b);
        lemma_square_bound(dx as int, 0x1_0000_0000);
        lemma_square_bound(dy as int, 0x1_0000_0000);
    }
    let square: u128 = (dx * dx + dy * dy) as u128;
    isqrt(square)
}

/// The square of a number between `-bound` and `bound` is between zero and
/// the square of `bound`.
proof fn lemma_square_bound(d: int, bound: int)
    requires
        -bound <= d <= bound,
    ensures
        0 <= d * d <= bound * bound,
{
    assert(0 <= d * d <= bound * bound) by (nonlinear_arith)
        requires
            -bound <= d <= bound,
    ;
}

/// The distance is the integer square root of its square, it fits 34 bits,
/// and it is below a metre exactly when its square is below a square metre.
pub proof fn lemma_distance(a: (i32, i32), b: (i32, i32))
    ensures
        is_floor_sqrt(distance_sq(a, b), distance(a, b)),
        distance(a, b) < 0x2_0000_0000,
        distance(a, b) < UNIT <==> distance_sq(a, b) < UNIT * UNIT,
{
    lemma_square_bound(a.0 - b.0, 0x1_0000_0000);
    lemma_square_bound(a.1 - b.1, 0x1_0000_0000);
    lemma_floor_sqrt(distance_sq(a, b));
    let d = distance(a, b);
    if d >= 0x2_0000_0000 {
        lemma_square_monotone(0x2_0000_0000, d);
    }
    if d < UNIT {
        lemma_square_monotone(d + 1, UNIT as int);
    } else {
        lemma_square_monotone(UNIT as int, d);
    }
}

/// There are `n` identities from one to `n`.
pub proof fn lemma_identities_len(n: int)
    requires
        0 <= n <= i32::MAX,
    ensures
        identities(n).finite(),
        identities(n).len() == n,
    decreases n,
{
    if n == 0 {
        assert(identities(0) =~= Set::<i32>::empty());
    } else {
        lemma_identities_len(n - 1);
        assert(identities(n) =~= identities(n - 1).insert(n as i32));
    }
}

/// A line-up of `n` antis holds `n` antis.
pub proof fn lemma_lineup_len(n: int)
    requires
        0 <= n <= i32::MAX,
    ensures
        lineup(n).dom().finite(),
        lineup(n).len() == n,
{
    lemma_identities_len(n);
    assert(lineup(n).dom() =~= identities(n));
}

} // verus!
