//! The learning agent: its value table, its policy and its update rule.
use crate::actor_units::player::Player;
use crate::chance::{pick, roll};
use crate::decimal::{parse_thousandths, spec_parse_thousandths};
use crate::fixed::{clamp_i32, clamp_i64, div_toward_zero, saturate_i32, saturate_i64, scaled, UNIT};
use std::collections::HashMap;
use vstd::prelude::*;
use vstd::std_specs::convert::FromSpecImpl;
use vstd::utf8::encode_utf8;

verus! {

broadcast use vstd::std_specs::hash::group_hash_axioms;

/// What a player can do in one step. `Avoid` and `PushOut` are never offered
/// by `Agent::get_next_actions`; they can only be given by hand.
#[derive(Debug, Clone, Copy, PartialEq, Eq, Hash, Structural)]
pub enum Action {
    MoveForward,
    MoveBackward,
    MoveLeft,
    MoveRight,
    Struggle,
    Retreat,
    Avoid,
    Capture,
    PushOut,
}

impl Action {
    /// The place of the action in the enumeration, from zero.
    pub open spec fn ordinal(self) -> int {
        match self {
            Action::MoveForward => 0,
            Action::MoveBackward => 1,
            Action::MoveLeft => 2,
            Action::MoveRight => 3,
            Action::Struggle => 4,
            Action::Retreat => 5,
            Action::Avoid => 6,
            Action::Capture => 7,
            Action::PushOut => 8,
        }
    }
}

/// What a value of the table is filed under: who stands where, and what they
/// do there. Height, weight and the struggling flag of the player are no part
/// of it.
pub struct Situation {
    pub id: i32,
    pub position: (i32, i32),
    pub action: Action,
}

/// The situation of `player` doing `action`.
pub open spec fn situation(player: Player, action: Action) -> Situation {
    Situation { id: player.id, position: player.position, action }
}

/// The number under which the hash table files a situation: identity, the
/// two coordinates and the action, each shifted to a non-negative number and
/// written side by side.
pub open spec fn code(s: Situation) -> int {
    (((s.id + 0x8000_0000) * 0x1_0000_0000 + (s.position.0 + 0x8000_0000)) * 0x1_0000_0000 + (
    s.position.1 + 0x8000_0000)) * 16 + s.action.ordinal()
}

/// Different situations have different codes, and every code fits the key
/// of the table.
pub proof fn lemma_code_injective(s: Situation, t: Situation)
    ensures
        0 <= code(s) <= u128::MAX,
        code(s) == code(t) ==> s == t,
{
}

/// Two players that agree in identity and position are in the same
/// situation, whatever else differs between them.
pub proof fn lemma_same_state_same_situation(p: Player, q: Player, action: Action)
    ensures
        p.same_state(q) <==> situation(p, action) == situation(q, action),
{
}

fn key_of(player: Player, action: Action) -> (k: u128)
    ensures
        k == code(situation(player, action)),
{
    let ordinal: u128 = match action {
        Action::MoveForward => 0,
        Action::MoveBackward => 1,
        Action::MoveLeft => 2,
        Action::MoveRight => 3,
        Action::Struggle => 4,
        Action::Retreat => 5,
        Action::Avoid => 6,
        Action::Capture => 7,
        Action::PushOut => 8,
    };
    let id: u128 = (player.id as i64 + 0x8000_0000) as u128;
    let x: u128 = (player.position.0 as i64 + 0x8000_0000) as u128;
    let y: u128 = (player.position.1 as i64 + 0x8000_0000) as u128;
    ((id * 0x1_0000_0000 + x) * 0x1_0000_0000 + y) * 16 + ordinal
}

/// The learning rate of an agent made by default: 0.1.
pub const DEFAULT_LEARNING_RATE: i32 = 100;

/// The discount factor of an agent made by default: 0.9.
pub const DEFAULT_DISCOUNT_FACTOR: i32 = 900;

/// The exploration rate of an agent made by default: 1.
pub const DEFAULT_EXPLORATION_RATE: i32 = 1000;

/// The exploration decay of an agent made by default: 0.995.
pub const DEFAULT_EXPLORATION_DECAY: i32 = 995;

/// A tabular Q-learning agent. The four rates are fixed-point numbers in
/// thousandths and are not held to any range.
#[derive(Debug)]
pub struct Agent {
    q_table: HashMap<u128, i64>,
    learning_rate: i32,
    discount_factor: i32,
    exploration_rate: i32,
    exploration_decay: i32,
}

/// What an agent knows and how it learns.
pub struct AgentView {
    /// The value learned so far for each situation met.
    pub table: Map<Situation, i64>,
    pub learning_rate: i32,
    pub discount_factor: i32,
    pub exploration_rate: i32,
    pub exploration_decay: i32,
}

impl View for Agent {
    type V = AgentView;

    closed spec fn view(&self) -> AgentView {
        AgentView {
            table: Map::new(
                |s: Situation| self.q_table@.contains_key(code(s) as u128),
                |s: Situation| self.q_table@[code(s) as u128],
            ),
            learning_rate: self.learning_rate,
            discount_factor: self.discount_factor,
            exploration_rate: self.exploration_rate,
            exploration_decay: self.exploration_decay,
        }
    }
}

/// The value that `table` holds for `player` doing `action`: zero until one
/// was learned.
pub open spec fn value_in(table: Map<Situation, i64>, player: Player, action: Action) -> int {
    if table.contains_key(situation(player, action)) {
        table[situation(player, action)] as int
    } else {
        0
    }
}

/// The index in `actions` of the action that `table` values most for
/// `player`; among equals, the first. Zero for an empty list.
pub open spec fn best_index(table: Map<Situation, i64>, player: Player, actions: Seq<Action>) -> int
    decreases actions.len(),
{
    if actions.len() <= 1 {
        0
    } else {
        let before = best_index(table, player, actions.drop_last());
        if value_in(table, player, actions.last()) > value_in(table, player, actions[before]) {
            actions.len() - 1
        } else {
            before
        }
    }
}

/// The highest value that `table` holds for `player` among `actions`; zero
/// for an empty list.
pub open spec fn best_value(table: Map<Situation, i64>, player: Player, actions: Seq<Action>) -> int {
    if actions.len() == 0 {
        0
    } else {
        value_in(table, player, actions[best_index(table, player, actions)])
    }
}

/// The actions open to `player`: the four moves, then `Struggle` for one who
/// can struggle, `Retreat` for one near the boundary, `Capture` for one who
/// can capture, in this order.
pub open spec fn candidate_actions(player: Player) -> Seq<Action> {
    seq![Action::MoveForward, Action::MoveBackward, Action::MoveLeft, Action::MoveRight] + (
    if player.spec_can_struggle() {
        seq![Action::Struggle]
    } else {
        seq![]
    }) + (if player.spec_is_near_boundary() {
        seq![Action::Retreat]
    } else {
        seq![]
    }) + (if player.spec_can_capture() {
        seq![Action::Capture]
    } else {
        seq![]
    })
}

/// The value after one step of learning: the old value `q` moved toward
/// `reward + discount_factor * best_next` by the fraction `learning_rate`,
/// each product rounded toward zero and the result kept in range.
pub open spec fn learned(
    q: int,
    reward: int,
    best_next: int,
    learning_rate: int,
    discount_factor: int,
) -> int {
    clamp_i64(q + scaled(learning_rate, reward + scaled(discount_factor, best_next) - q))
}

/// The exploration rate after one decay.
pub open spec fn decayed(exploration_rate: int, exploration_decay: int) -> int {
    clamp_i32(scaled(exploration_rate, exploration_decay))
}

impl AgentView {
    /// The value held for `player` doing `action`.
    pub open spec fn value(self, player: Player, action: Action) -> int {
        value_in(self.table, player, action)
    }

    /// The action that an agent who does not explore takes among `actions`.
    pub open spec fn best_action(self, player: Player, actions: Seq<Action>) -> Action
        recommends
            actions.len() > 0,
    {
        actions[best_index(self.table, player, actions)]
    }

    /// What the agent knows after learning from one step: `player` did
    /// `action`, got `reward`, and is now `next_player` with `next_actions`
    /// to choose from. The value of `player` doing `action` is learned; the
    /// rest of the table and the rates stay as they are.
    pub open spec fn updated(
        self,
        player: Player,
        action: Action,
        reward: i64,
        next_player: Player,
        next_actions: Seq<Action>,
    ) -> AgentView {
        AgentView {
            table: self.table.insert(
                situation(player, action),
                learned(
                    value_in(self.table, player, action),
                    reward as int,
                    best_value(self.table, next_player, next_actions),
                    self.learning_rate as int,
                    self.discount_factor as int,
                ) as i64,
            ),
            ..self
        }
    }

    /// The agent after its exploration rate has decayed once.
    pub open spec fn decayed(self) -> AgentView {
        AgentView {
            exploration_rate: decayed(
                self.exploration_rate as int,
                self.exploration_decay as int,
            ) as i32,
            ..self
        }
    }
}

/// The product of two bounded numbers is bounded by the product of the
/// bounds.
proof fn lemma_product_bound(a: int, b: int, bound_a: int, bound_b: int)
    requires
        -bound_a <= a <= bound_a,
        -bound_b <= b <= bound_b,
    ensures
        -(bound_a * bound_b) <= a * b <= bound_a * bound_b,
{
    assert(-(bound_a * bound_b) <= a * b <= bound_a * bound_b) by (nonlinear_arith)
        requires
            -bound_a <= a <= bound_a,
            -bound_b <= b <= bound_b,
    ;
}

impl Agent {
    /// An agent that has learned nothing yet.
    pub fn new(
        learning_rate: i32,
        discount_factor: i32,
        exploration_rate: i32,
        exploration_decay: i32,
    ) -> (agent: Self)
        ensures
            agent@ == (AgentView {
                table: Map::empty(),
                learning_rate,
                discount_factor,
                exploration_rate,
                exploration_decay,
            }),
    {
        let agent = Self {
            q_table: HashMap::new(),
            learning_rate,
            discount_factor,
            exploration_rate,
            exploration_decay,
        };
        assert(agent@.table =~= Map::empty());
        agent
    }

    pub fn learning_rate(&self) -> (r: i32)
        ensures
            r == self@.learning_rate,
    {
        self.learning_rate
    }

    pub fn discount_factor(&self) -> (r: i32)
        ensures
            r == self@.discount_factor,
    {
        self.discount_factor
    }

    pub fn exploration_rate(&self) -> (r: i32)
        ensures
            r == self@.exploration_rate,
    {
        self.exploration_rate
    }

    pub fn exploration_decay(&self) -> (r: i32)
        ensures
            r == self@.exploration_decay,
    {
        self.exploration_decay
    }

    /// The value learned for `player` doing `action`, zero if none was.
    pub fn q_value(&self, player: Player, action: Action) -> (v: i64)
        ensures
            v == value_in(self@.table, player, action),
    {
        let key = key_of(player, action);
        match self.q_table.get(&key) {
            Some(v) => *v,
            None => 0,
        }
    }

    /// The actions open to `player`.
    pub fn get_next_actions(&self, player: &Player) -> (actions: Vec<Action>)
        ensures
            actions@ == candidate_actions(*player),
    {
        let mut actions = vec![
            Action::MoveForward,
            Action::MoveBackward,
            Action::MoveLeft,
            Action::MoveRight,
        ];
        let ghost moves = actions@;
        assert(moves =~= seq![
            Action::MoveForward,
            Action::MoveBackward,
            Action::MoveLeft,
            Action::MoveRight,
        ]);
        if player.can_struggle() {
            actions.push(Action::Struggle);
        }
        if player.is_near_boundary() {
            actions.push(Action::Retreat);
        }
        if player.can_capture() {
            actions.push(Action::Capture);
        }
        assert(actions@ =~= candidate_actions(*player));
        actions
    }

    /// The action among `actions` that the table values most for `player`;
    /// among equals, the first.
    pub fn best_action(&self, player: Player, actions: &[Action]) -> (a: Action)
        requires
            actions@.len() > 0,
        ensures
            a == self@.best_action(player, actions@),
    {
        let mut best: usize = 0;
        let mut best_v: i64 = self.q_value(player, actions[0]);
        let mut i: usize = 1;
        assert(actions@.subrange(0, 1).len() == 1);
        while i < actions.len()
            invariant
                1 <= i <= actions@.len(),
                best < i,
                best == best_index(self@.table, player, actions@.subrange(0, i as int)),
                best_v == value_in(self@.table, player, actions@[best as int]),
            decreases actions@.len() - i,
        {
            let v = self.q_value(player, actions[i]);
            proof {
                let longer = actions@.subrange(0, i + 1);
                assert(longer.drop_last() =~= actions@.subrange(0, i as int));
                assert(longer.last() == actions@[i as int]);
                assert(longer[best as int] == actions@[best as int]);
            }
            if v > best_v {
                best = i;
                best_v = v;
            }
            i += 1;
        }
        assert(actions@.subrange(0, i as int) =~= actions@);
        actions[best]
    }

    /// The highest value that the table holds for `player` among `actions`;
    /// zero where there is no action to choose from.
    pub fn best_value(&self, player: Player, actions: &[Action]) -> (v: i64)
        ensures
            v == best_value(self@.table, player, actions@),
    {
        if actions.len() == 0 {
            0
        } else {
            self.q_value(player, self.best_action(player, actions))
        }
    }

    /// Whether the agent explores on a draw of `draw` thousandths: it does
    /// when the draw is below the exploration rate.
    pub fn explores(&self, draw: u32) -> (r: bool)
        ensures
            r == (draw < self@.exploration_rate),
    {
        (draw as i64) < (self.exploration_rate as i64)
    }

    /// Chooses what `player` does next among `next_actions`. With the
    /// probability that the exploration rate gives, the agent explores and
    /// takes any of them; otherwise it takes the one that the table values
    /// most, the first among equals. An agent whose exploration rate is zero
    /// or less never explores.
    pub fn choose_action(&mut self, player: Player, next_actions: &[Action]) -> (a: Action)
        requires
            next_actions@.len() > 0,
        ensures
            *final(self) == *old(self),
            next_actions@.contains(a),
            old(self)@.exploration_rate <= 0 ==> a == old(self)@.best_action(player, next_actions@),
    {
        let draw = roll(UNIT as u32);
        if self.explores(draw) {
            match pick(next_actions) {
                Some(a) => a,
                None => vstd::pervasive::unreached(),
            }
        } else {
            proof {
                lemma_best_index_is_first_best(self@.table, player, next_actions@);
            }
            self.best_action(player, next_actions)
        }
    }

    /// Learns from one step: `player` did `action`, got `reward`, and is now
    /// `next_player` with `next_actions` to choose from. Only the value of
    /// `player` doing `action` changes.
    pub fn update_q_table(
        &mut self,
        player: Player,
        action: Action,
        reward: i64,
        next_player: Player,
        next_actions: &[Action],
    )
        ensures
            final(self)@ == old(self)@.updated(player, action, reward, next_player, next_actions@),
    {
        let next_max_q: i64 = self.best_value(next_player, next_actions);
        let q: i64 = self.q_value(player, action);
        proof {
            lemma_product_bound(
                self.discount_factor as int,
                next_max_q as int,
                0x8000_0000,
                0x8000_0000_0000_0000,
            );
        }
        let discounted: i128 = div_toward_zero(
            (self.discount_factor as i128) * (next_max_q as i128),
            UNIT as i128,
        );
        let error: i128 = reward as i128 + discounted - q as i128;
        proof {
            lemma_product_bound(
                self.learning_rate as int,
                error as int,
                0x8000_0000,
                0x4000_0000_0000_0000_0000_0000,
            );
        }
        let change: i128 = div_toward_zero((self.learning_rate as i128) * error, UNIT as i128);
        let value: i64 = saturate_i64(q as i128 + change);
        let key = key_of(player, action);
        self.q_table.insert(key, value);
        proof {
            let target = old(self)@.table.insert(situation(player, action), value);
            assert forall|s: Situation| #[trigger]
                final(self)@.table.contains_key(s) == target.contains_key(s) by {
                lemma_code_injective(s, situation(player, action));
            }
            assert forall|s: Situation| #[trigger]
                final(self)@.table.contains_key(s) implies final(self)@.table[s] == target[s] by {
                lemma_code_injective(s, situation(player, action));
            }
            assert(final(self)@.table =~= target);
        }
    }

    /// Lets the exploration rate decay: it is multiplied by the exploration
    /// decay, rounded toward zero.
    pub fn decay_exploration(&mut self)
        ensures
            final(self)@ == old(self)@.decayed(),
    {
        proof {
            lemma_product_bound(
                self.exploration_rate as int,
                self.exploration_decay as int,
                0x8000_0000,
                0x8000_0000,
            );
        }
        let product: i128 = (self.exploration_rate as i128) * (self.exploration_decay as i128);
        let rate = div_toward_zero(product, UNIT as i128);
        self.exploration_rate = saturate_i32(rate as i64);
    }
}

/// The rate that `text` writes, in thousandths, or `default` where `text`
/// writes no number, or one too large.
pub open spec fn rate_or(text: Seq<char>, default: i32) -> i32 {
    match spec_parse_thousandths(encode_utf8(text)) {
        Some(rate) => rate,
        None => default,
    }
}

/// What an agent made by default knows: nothing, with the default rates.
pub open spec fn default_view() -> AgentView {
    AgentView {
        table: Map::empty(),
        learning_rate: DEFAULT_LEARNING_RATE,
        discount_factor: DEFAULT_DISCOUNT_FACTOR,
        exploration_rate: DEFAULT_EXPLORATION_RATE,
        exploration_decay: DEFAULT_EXPLORATION_DECAY,
    }
}

/// The agent that `args` configure. Four texts give, in this order, the
/// learning rate, the discount factor, the exploration rate and the
/// exploration decay, each replaced by its default where it is no number.
/// Any other count of texts gives the four defaults.
pub open spec fn configured(args: Seq<String>) -> AgentView {
    if args.len() == 4 {
        AgentView {
            table: Map::empty(),
            learning_rate: rate_or(args[0]@, DEFAULT_LEARNING_RATE),
            discount_factor: rate_or(args[1]@, DEFAULT_DISCOUNT_FACTOR),
            exploration_rate: rate_or(args[2]@, DEFAULT_EXPLORATION_RATE),
            exploration_decay: rate_or(args[3]@, DEFAULT_EXPLORATION_DECAY),
        }
    } else {
        default_view()
    }
}

/// Reads one rate, falling back on `default`.
fn read_rate(text: &String, default: i32) -> (rate: i32)
    ensures
        rate == rate_or(text@, default),
{
    match parse_thousandths(text.as_str().as_bytes()) {
        Some(rate) => rate,
        None => default,
    }
}

impl Default for Agent {
    fn default() -> (agent: Self)
        ensures
            agent@ == default_view(),
    {
        Agent::new(
            DEFAULT_LEARNING_RATE,
            DEFAULT_DISCOUNT_FACTOR,
            DEFAULT_EXPLORATION_RATE,
            DEFAULT_EXPLORATION_DECAY,
        )
    }
}

impl From<Vec<String>> for Agent {
    fn from(args: Vec<String>) -> (agent: Self)
        ensures
            agent@ == configured(args@),
    {
        if args.len() == 4 {
            let learning_rate = read_rate(&args[0], DEFAULT_LEARNING_RATE);
            let discount_factor = read_rate(&args[1], DEFAULT_DISCOUNT_FACTOR);
            let exploration_rate = read_rate(&args[2], DEFAULT_EXPLORATION_RATE);
            let exploration_decay = read_rate(&args[3], DEFAULT_EXPLORATION_DECAY);
            Agent::new(learning_rate, discount_factor, exploration_rate, exploration_decay)
        } else {
            Agent::default()
        }
    }
}

impl FromSpecImpl<Vec<String>> for Agent {
    open spec fn obeys_from_spec() -> bool {
        false
    }

    open spec fn from_spec(args: Vec<String>) -> Self {
        arbitrary()
    }
}

/// Learning from a step changes the value of one situation and of no
/// other. Players that agree in identity and position share their values.
pub proof fn lemma_update_changes_one_value(
    agent: AgentView,
    player: Player,
    action: Action,
    reward: i64,
    next_player: Player,
    next_actions: Seq<Action>,
    other: Player,
    other_action: Action,
)
    ensures
        ({
            let after = agent.updated(player, action, reward, next_player, next_actions);
            &&& after.value(player, action) == learned(
                agent.value(player, action),
                reward as int,
                best_value(agent.table, next_player, next_actions),
                agent.learning_rate as int,
                agent.discount_factor as int,
            )
            &&& other.same_state(player) && other_action == action ==> after.value(
                other,
                other_action,
            ) == after.value(player, action)
            &&& !(other.same_state(player) && other_action == action) ==> after.value(
                other,
                other_action,
            ) == agent.value(other, other_action)
            &&& after.table.dom() == agent.table.dom().insert(situation(player, action))
        }),
{
}

/// `best_index` is the place of the highest value, and of the first such:
/// no action is valued more, and every action before it is valued less.
pub proof fn lemma_best_index_is_first_best(
    table: Map<Situation, i64>,
    player: Player,
    actions: Seq<Action>,
)
    requires
        actions.len() > 0,
    ensures
        0 <= best_index(table, player, actions) < actions.len(),
        forall|j: int|
            0 <= j < actions.len() ==> value_in(table, player, #[trigger] actions[j]) <= best_value(
                table,
                player,
                actions,
            ),
        forall|j: int|
            0 <= j < best_index(table, player, actions) ==> value_in(
                table,
                player,
                #[trigger] actions[j],
            ) < best_value(table, player, actions),
    decreases actions.len(),
{
    if actions.len() > 1 {
        let shorter = actions.drop_last();
        lemma_best_index_is_first_best(table, player, shorter);
        assert forall|j: int| 0 <= j < shorter.len() implies shorter[j] == actions[j] by {}
    }
}

} // verus!
