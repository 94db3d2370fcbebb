//! The board-game state the demo scene animates.
//!
//! Four players advance along a track of stops; a roulette spin decides
//! the step count, landing on a stop pays its dollar amount, and the turn
//! passes to the next player still short of the final stop. Coordinates
//! and spring animation belong to the presentation layer outside this
//! library; the game state here tracks positions and dollars only.

use vstd::prelude::*;

verus! {

/// How many distinct roulette outcomes a spin is folded into.
pub const ROULETTE_MAX: u64 = 6;

/// The spread of the raw spin.
pub const RANDOM_VARIANCE: u64 = 12;

/// The smallest raw spin.
pub const RANDOM_BASE: u64 = 18;

/// Relies on fastrand's `u64`: a pseudorandom number from the
/// thread-local generator; nothing is promised of its value.
#[verifier::external_body]
fn random_u64() -> u64 {
    fastrand::u64(..)
}

/// The number of players at the table.
pub const PLAYER_COUNT: usize = 4;

/// The game state: each player's winnings and track position, whose turn
/// it is, the payout of each stop, and the number of coordinate stops the
/// surrounding board exposes.
#[derive(Debug)]
pub struct LifeGame {
    pub dollars: Vec<i32>,
    pub position: Vec<usize>,
    pub current_player: usize,
    pub position_to_dollar: Vec<i32>,
    pub position_count: usize,
}

/// The player who takes the next turn: the first of the following
/// candidates whose position is still short of the last stop; after three
/// candidates the last one takes the turn regardless.
pub open spec fn next_player(cur: int, positions: Seq<usize>, len: int) -> int {
    let c1 = (cur + 1) % 4;
    if positions[c1] < len - 1 {
        c1
    } else {
        let c2 = (c1 + 2) % 4;
        if positions[c2] < len - 1 {
            c2
        } else {
            (c2 + 3) % 4
        }
    }
}

impl LifeGame {
    /// A well-formed table: one entry per player, a position count the
    /// positions stay inside, and positions on the track.
    pub open spec fn wf(&self) -> bool {
        &&& self.dollars@.len() == PLAYER_COUNT
        &&& self.position@.len() == PLAYER_COUNT
        &&& self.current_player < PLAYER_COUNT
        &&& self.position_count > 0
        &&& forall|k: int|
            0 <= k < PLAYER_COUNT ==> #[trigger] self.position@[k] < self.position_count
    }

    /// A fresh table with everyone at the start.
    pub fn new(position_to_dollar: Vec<i32>, position_count: usize) -> (r: LifeGame)
        requires
            position_count > 0,
        ensures
            r.wf(),
            r.position_to_dollar@ == position_to_dollar@,
            r.position_count == position_count,
            r.current_player == 0,
            forall|k: int| 0 <= k < PLAYER_COUNT ==> #[trigger] r.position@[k] == 0,
            forall|k: int| 0 <= k < PLAYER_COUNT ==> #[trigger] r.dollars@[k] == 0,
    {
        let mut dollars: Vec<i32> = Vec::new();
        let mut position: Vec<usize> = Vec::new();
        let mut k: usize = 0;
        while k < PLAYER_COUNT
            invariant
                k <= PLAYER_COUNT,
                dollars@.len() == k,
                position@.len() == k,
                forall|t: int| 0 <= t < k ==> #[trigger] position@[t] == 0,
                forall|t: int| 0 <= t < k ==> #[trigger] dollars@[t] == 0,
            decreases PLAYER_COUNT - k,
        {
            dollars.push(0);
            position.push(0);
            k = k + 1;
        }
        LifeGame { dollars, position, current_player: 0, position_to_dollar, position_count }
    }

    /// Spins the roulette: a raw pseudorandom value folded into the base
    /// range.
    pub fn spin_roulette() -> (r: u64)
        ensures
            RANDOM_BASE <= r < RANDOM_BASE + RANDOM_VARIANCE,
    {
        RANDOM_BASE + random_u64() % RANDOM_VARIANCE
    }

    /// Advances the current player by the spin, folded to the roulette
    /// range, clamping at the last stop.
    pub fn proceed(&mut self, steps: u64)
        requires
            old(self).wf(),
        ensures
            final(self).wf(),
            ({
                let step = (steps % ROULETTE_MAX + 1) as int;
                let target = old(self).position@[old(self).current_player as int] + step;
                let clamped = if target > old(self).position_count - 1 {
                    old(self).position_count - 1
                } else {
                    target
                };
                final(self).position@ == old(self).position@.update(
                    old(self).current_player as int,
                    clamped as usize,
                )
            }),
            final(self).dollars@ == old(self).dollars@,
            final(self).current_player == old(self).current_player,
            final(self).position_to_dollar@ == old(self).position_to_dollar@,
            final(self).position_count == old(self).position_count,
    {
        let step = (steps % ROULETTE_MAX) as usize + 1;
        let cur = self.current_player;
        let pos = self.position[cur];
        let last = self.position_count - 1;
        let target: usize = if last - pos < step {
            last
        } else {
            pos + step
        };
        let slot = vstd::std_specs::vec::vec_index_mut(&mut self.position, cur);
        *slot = target;
        assert(final(self).position@ =~= old(self).position@.update(cur as int, target));
    }

    /// Ends the turn: pays the current player the dollar amount of the
    /// stop they landed on and passes the turn to the next player still
    /// on the track.
    pub fn finish_turn(&mut self)
        requires
            old(self).wf(),
            old(self).position@[old(self).current_player as int]
                < old(self).position_to_dollar@.len(),
            i32::MIN <= old(self).dollars@[old(self).current_player as int]
                + old(self).position_to_dollar@[old(self).position@[old(self).current_player as int] as int]
                <= i32::MAX,
        ensures
            final(self).wf(),
            final(self).dollars@ == old(self).dollars@.update(
                old(self).current_player as int,
                (old(self).dollars@[old(self).current_player as int]
                    + old(self).position_to_dollar@[old(self).position@[old(self).current_player as int] as int])
                    as i32,
            ),
            final(self).current_player as int == next_player(
                old(self).current_player as int,
                old(self).position@,
                old(self).position_to_dollar@.len() as int,
            ),
            final(self).position@ == old(self).position@,
            final(self).position_to_dollar@ == old(self).position_to_dollar@,
            final(self).position_count == old(self).position_count,
    {
        let cur = self.current_player;
        let stop = self.position[cur];
        let delta = self.position_to_dollar[stop];
        let paid = self.dollars[cur] + delta;
        let slot = vstd::std_specs::vec::vec_index_mut(&mut self.dollars, cur);
        *slot = paid;
        assert(self.dollars@ =~= old(self).dollars@.update(cur as int, paid));
        let len = self.position_to_dollar.len();
        let c1 = (cur + 1) % 4;
        if len >= 1 && self.position[c1] < len - 1 {
            self.current_player = c1;
        } else {
            let c2 = (c1 + 2) % 4;
            if len >= 1 && self.position[c2] < len - 1 {
                self.current_player = c2;
            } else {
                self.current_player = (c2 + 3) % 4;
            }
        }
        proof {
            let np = next_player(
                cur as int,
                old(self).position@,
                old(self).position_to_dollar@.len() as int,
            );
            assert(self.current_player as int == np);
        }
    }
}

} // verus!
