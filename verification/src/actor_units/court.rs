//! The court: its extents and the rules that depend on them.
use crate::actor_units::player::Player;
use vstd::prelude::*;

verus! {

/// The length of the court without the lobby, in thousandths of a metre.
pub const LENGTH_WITHOUT_LOBBY: i32 = 8000;

/// The length of the court with the lobby.
pub const LENGTH_WITH_LOBBY: i32 = 10000;

/// The extents of the court, in thousandths of a metre.
#[derive(Debug)]
pub struct Court {
    pub width_x: i32,
    pub height_y: i32,
    pub width_z: i32,
}

impl Court {
    /// The court as a raid begins: eight metres long, ten high, six and a
    /// half wide, the lobby closed.
    pub open spec fn standard() -> Court {
        Court { width_x: LENGTH_WITHOUT_LOBBY, height_y: 10000, width_z: 6500 }
    }

    /// Every extent of a court is positive.
    pub open spec fn wf(self) -> bool {
        self.width_x > 0 && self.height_y > 0 && self.width_z > 0
    }

    /// This court with the lobby open.
    pub open spec fn with_lobby(self) -> Court {
        Court { width_x: LENGTH_WITH_LOBBY, ..self }
    }

    /// This court with the lobby closed.
    pub open spec fn without_lobby(self) -> Court {
        Court { width_x: LENGTH_WITHOUT_LOBBY, ..self }
    }

    /// A position is out of bounds behind the baseline, at or beyond the far
    /// end, or further across than the court is wide. The bound across is
    /// `width_z`, not `height_y`, and there is none on the near side.
    pub open spec fn spec_is_out_of_bounds(&self, player: Player) -> bool {
        player.position.0 < 0 || player.position.0 >= self.width_x || player.position.1
            > self.width_z
    }

    /// A raid succeeds when the raider is behind the baseline while
    /// struggling.
    pub open spec fn spec_is_raid_successful(&self, position: (i32, i32), is_struggling: bool) -> bool {
        position.0 < 0 && is_struggling
    }

    /// Opens the lobby: the court becomes ten metres long.
    pub fn enable_lobby(&mut self)
        ensures
            *final(self) == old(self).with_lobby(),
    {
        self.width_x = LENGTH_WITH_LOBBY;
    }

    /// Closes the lobby: the court becomes eight metres long.
    pub fn disable_lobby(&mut self)
        ensures
            *final(self) == old(self).without_lobby(),
    {
        self.width_x = LENGTH_WITHOUT_LOBBY;
    }

    #[verifier::when_used_as_spec(spec_is_out_of_bounds)]
    pub fn is_out_of_bounds(&self, player: Player) -> (r: bool)
        ensures
            r == self.spec_is_out_of_bounds(player),
    {
        let (x, y) = player.position;
        x < 0 || x >= self.width_x || y > self.width_z
    }

    #[verifier::when_used_as_spec(spec_is_raid_successful)]
    pub fn is_raid_successful(&self, position: (i32, i32), is_struggling: bool) -> (r: bool)
        ensures
            r == self.spec_is_raid_successful(position, is_struggling),
            r <==> position.0 < 0 && is_struggling,
    {
        if position.0 < 0 && is_struggling {
            return true;
        }
        false
    }

    /// Opening or closing the lobby twice is the same as doing it once, and
    /// neither changes the other extents nor makes an extent non-positive.
    pub proof fn lemma_lobby_idempotent(self)
        ensures
            self.with_lobby().with_lobby() == self.with_lobby(),
            self.without_lobby().without_lobby() == self.without_lobby(),
            self.with_lobby().without_lobby() == self.without_lobby(),
            self.without_lobby().with_lobby() == self.with_lobby(),
            self.wf() ==> self.with_lobby().wf() && self.without_lobby().wf(),
    {
    }

    /// On the standard court a player is out of bounds exactly when behind
    /// the baseline, eight metres or more along, or more than six and a half
    /// metres across.
    pub proof fn lemma_standard_bounds(player: Player)
        ensures
            Court::standard().wf(),
            Court::standard().spec_is_out_of_bounds(player) <==> (player.position.0 < 0
                || player.position.0 >= 8000 || player.position.1 > 6500),
    {
    }

    /// Whoever has succeeded in a raid is out of bounds, on every court.
    pub proof fn lemma_success_is_out_of_bounds(self, player: Player)
        requires
            self.spec_is_raid_successful(player.position, player.is_struggling),
        ensures
            self.spec_is_out_of_bounds(player),
    {
    }
}

impl Default for Court {
    fn default() -> (c: Self)
        ensures
            c == Court::standard(),
    {
        Self { width_x: LENGTH_WITHOUT_LOBBY, height_y: 10000, width_z: 6500 }
    }
}

} // verus!
