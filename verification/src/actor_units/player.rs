//! A player: the raider, or one of the antis.
use std::collections::HashMap;
use vstd::prelude::*;
use vstd::std_specs::cmp::PartialEqSpecImpl;

verus! {

broadcast use vstd::std_specs::hash::group_hash_axioms;

/// The fewest antis a raid is played against.
pub const MIN_ANTIS: usize = 1;

/// The most antis a raid is played against.
pub const MAX_ANTIS: usize = 7;

/// What is answered to a configuration that makes no raid: "give a number
/// of antis between 1 and 7".
pub const INVALID_CONFIGURATION: &'static str = "アンティの人数は1から7の間で指定してください。";

/// A player on the court. Height is in millimetres, weight in grams, and the
/// position in thousandths of a metre along the court (`position.0`) and
/// across it (`position.1`).
#[derive(Debug, Clone, Copy)]
pub struct Player {
    pub id: i32,
    pub height: i32,
    pub weight: i32,
    pub position: (i32, i32),
    pub is_struggling: bool,
}

impl Player {
    pub fn new(id: i32, height: i32, weight: i32, position: (i32, i32), is_struggling: bool) -> (p:
        Self)
        ensures
            p == (Player { id, height, weight, position, is_struggling }),
    {
        Self { id, height, weight, position, is_struggling }
    }

    /// Two players are the same state of the game when they agree in identity
    /// and position; height, weight and the struggling flag do not count.
    pub open spec fn same_state(self, other: Player) -> bool {
        self.id == other.id && self.position == other.position
    }

    /// Two players are the same person when they differ in nothing but
    /// their position.
    pub open spec fn same_person(self, other: Player) -> bool {
        self.id == other.id && self.height == other.height && self.weight == other.weight
            && self.is_struggling == other.is_struggling
    }

    pub open spec fn spec_can_struggle(&self) -> bool {
        !self.is_struggling
    }

    /// The neighbourhood of the edges is measured on a fixed rectangle of
    /// twenty by ten metres, whatever the extents of the court are.
    pub open spec fn spec_is_near_boundary(&self) -> bool {
        self.position.0 <= 1000 || self.position.0 >= 19000 || self.position.1 <= 1000
            || self.position.1 >= 9000
    }

    pub open spec fn spec_can_capture(&self) -> bool {
        self.height >= 1700 && self.weight >= 60000
    }

    /// A player can start to struggle only while not struggling already.
    #[verifier::when_used_as_spec(spec_can_struggle)]
    pub fn can_struggle(&self) -> (r: bool)
        ensures
            r == self.spec_can_struggle(),
    {
        !self.is_struggling
    }

    /// Whether the player stands within one metre of an edge of the
    /// reference rectangle.
    #[verifier::when_used_as_spec(spec_is_near_boundary)]
    pub fn is_near_boundary(&self) -> (r: bool)
        ensures
            r == self.spec_is_near_boundary(),
    {
        let (x, y) = self.position;
        x <= 1000 || x >= 19000 || y <= 1000 || y >= 9000
    }

    /// A player of at least 1.7 m and 60 kg can capture.
    #[verifier::when_used_as_spec(spec_can_capture)]
    pub fn can_capture(&self) -> (r: bool)
        ensures
            r == self.spec_can_capture(),
    {
        self.height >= 1700 && self.weight >= 60000
    }
}

impl Default for Player {
    fn default() -> (p: Self)
        ensures
            p == (Player { id: 0, height: 0, weight: 0, position: (0, 0), is_struggling: false }),
    {
        Player { id: 0, height: 0, weight: 0, position: (0, 0), is_struggling: false }
    }
}

impl PartialEq for Player {
    fn eq(&self, other: &Self) -> (r: bool) {
        self.id == other.id && self.position.0 == other.position.0 && self.position.1
            == other.position.1
    }
}

impl PartialEqSpecImpl for Player {
    open spec fn obeys_eq_spec() -> bool {
        true
    }

    open spec fn eq_spec(&self, other: &Self) -> bool {
        self.id == other.id && self.position.0 == other.position.0 && self.position.1
            == other.position.1
    }
}

impl Eq for Player {

}

/// The raider as a raid begins: at the origin, not struggling.
pub open spec fn starting_raider() -> Player {
    Player { id: 0, height: 1750, weight: 70000, position: (0, 0), is_struggling: false }
}

/// The anti with identity `i`. The antis stand on a line, two metres further
/// along and one metre further across with each identity, and get shorter and
/// lighter.
pub open spec fn anti_at(i: i32) -> Player {
    Player {
        id: i,
        height: (1800 - 100 * i) as i32,
        weight: (75000 - 2000 * i) as i32,
        position: ((10000 + 2000 * i) as i32, (5000 + 1000 * i) as i32),
        is_struggling: false,
    }
}

/// The first `n` antis, each under its identity.
pub open spec fn lineup(n: int) -> Map<i32, Player> {
    Map::new(|k: i32| 1 <= k <= n, |k: i32| anti_at(k))
}

/// The raider and `num_anti` antis for a new raid, or
/// `INVALID_CONFIGURATION` unless there are between one and seven antis.
pub fn entry(num_anti: usize) -> (r: Result<(Player, HashMap<i32, Player>), &'static str>)
    ensures
        r is Err <==> num_anti < MIN_ANTIS || num_anti > MAX_ANTIS,
        r matches Err(e) ==> e@ == INVALID_CONFIGURATION@,
        r matches Ok((raider, antis)) ==> raider == starting_raider() && antis@ == lineup(
            num_anti as int,
        ),
{
    if num_anti < MIN_ANTIS || num_anti > MAX_ANTIS {
        return Err(INVALID_CONFIGURATION);
    }
    let raider = Player::new(0, 1750, 70000, (0, 0), false);
    let mut anti_list: HashMap<i32, Player> = HashMap::new();
    let count: i32 = num_anti as i32;
    let mut i: i32 = 1;
    while i <= count
        invariant
            1 <= i <= count + 1,
            count <= 7,
            anti_list@ =~= lineup(i - 1),
        decreases count + 1 - i,
    {
        anti_list.insert(
            i,
            Player::new(
                i,
                1800 - 100 * i,
                75000 - 2000 * i,
                (10000 + 2000 * i, 5000 + 1000 * i),
                false,
            ),
        );
        i += 1;
    }
    Ok((raider, anti_list))
}

} // verus!
