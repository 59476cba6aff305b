//! A player's rating, and the record of one period's update of it.

use vstd::prelude::*;
use crate::outcome::Outcome;
use crate::binary64::Binary64;

verus! {

/// The deviation of a player who has not been rated yet: 350 points of the
/// public scale, which are 350 / 173.7178 on the internal scale.
pub const UNRATED_DEVIATION_BITS: u64 = 0x4000_1E3B_78FA_09B3;

/// The volatility of a player who has not been rated yet: six hundredths.
pub const UNRATED_VOLATILITY_BITS: u64 = 0x3FAE_B851_EB85_1EB8;

/// A player's rating on the internal Glicko-2 scale.
#[derive(Clone, Copy, Debug, PartialEq, Eq, Structural)]
pub struct G2Player {
    /// The rating.
    pub mu: Binary64,
    /// The rating deviation: how uncertain the rating is.
    pub phi: Binary64,
    /// The volatility: how much the player's strength is expected to move.
    pub vol: Binary64,
}

impl G2Player {
    /// What holds of every rating after an update: the rating is finite, the
    /// deviation and the volatility are finite and greater than zero.
    pub open spec fn valid(self) -> bool {
        self.mu.finite() && self.phi.positive() && self.vol.positive()
    }

    /// The rating of a player who has not been rated yet: rating zero, with the
    /// deviation and the volatility of the unrated.
    pub open spec fn unrated_spec() -> G2Player {
        G2Player {
            mu: Binary64 { bits: 0 },
            phi: Binary64 { bits: UNRATED_DEVIATION_BITS },
            vol: Binary64 { bits: UNRATED_VOLATILITY_BITS },
        }
    }

    /// The rating of a player who has not been rated yet.
    #[verifier::when_used_as_spec(unrated_spec)]
    pub fn unrated() -> (player: G2Player)
        ensures
            player == G2Player::unrated_spec(),
            player.valid(),
    {
        G2Player {
            mu: Binary64 { bits: 0 },
            phi: Binary64 { bits: UNRATED_DEVIATION_BITS },
            vol: Binary64 { bits: UNRATED_VOLATILITY_BITS },
        }
    }

    /// Whether the rating is finite and the deviation and the volatility are
    /// finite and greater than zero.
    pub fn is_valid(&self) -> (valid: bool)
        ensures
            valid == self.valid(),
    {
        self.mu.is_finite() && self.phi.is_positive() && self.vol.is_positive()
    }
}

/// One player's update over a period: the rating before, the rating after,
/// and the outcomes that were counted, each with the player in the first place.
#[derive(Debug, PartialEq, Eq)]
pub struct G2PlayerUpdate {
    pub before: G2Player,
    pub after: G2Player,
    pub outcomes: Vec<Outcome>,
}

} // verus!
