//! One pairwise result between two named players, and how each of them sees it.

use vstd::prelude::*;
use vstd::string::*;
use crate::instant::{utc_now, UtcInstant};

verus! {

/// How a game ended for the player whose view is taken.
#[derive(Clone, Copy, Debug, PartialEq, Eq, Structural)]
pub enum GameResult {
    Win,
    Loss,
    Draw,
}

impl GameResult {
    /// The same game as the other side saw it.
    pub open spec fn mirrored(self) -> GameResult {
        match self {
            GameResult::Win => GameResult::Loss,
            GameResult::Loss => GameResult::Win,
            GameResult::Draw => GameResult::Draw,
        }
    }

    /// The same game as the other side saw it.
    pub fn mirror(self) -> (other: GameResult)
        ensures
            other == self.mirrored(),
    {
        match self {
            GameResult::Win => GameResult::Loss,
            GameResult::Loss => GameResult::Win,
            GameResult::Draw => GameResult::Draw,
        }
    }
}

/// The result that a pair of game counts stands for: the side with more games
/// won, equal counts are a draw.
pub open spec fn result_of_counts(own: int, other: int) -> GameResult {
    if own > other {
        GameResult::Win
    } else if own < other {
        GameResult::Loss
    } else {
        GameResult::Draw
    }
}

/// A result between two players. The first player is the one whose view the
/// record takes.
#[derive(Debug, PartialEq, Eq)]
pub struct Outcome {
    /// Recorded, but left out of every rating computation.
    pub ignore: bool,
    pub p1_name: String,
    pub p2_name: String,
    /// Games won by the first player.
    pub p1_gc: i8,
    /// Games won by the second player.
    pub p2_gc: i8,
    pub date_time: UtcInstant,
}

/// An outcome as a mathematical value.
pub struct OutcomeView {
    pub ignore: bool,
    pub p1_name: Seq<char>,
    pub p2_name: Seq<char>,
    pub p1_gc: int,
    pub p2_gc: int,
    pub date_time: UtcInstant,
}

impl OutcomeView {
    /// The same result with the two players' places exchanged.
    pub open spec fn swapped(self) -> OutcomeView {
        OutcomeView {
            ignore: self.ignore,
            p1_name: self.p2_name,
            p2_name: self.p1_name,
            p1_gc: self.p2_gc,
            p2_gc: self.p1_gc,
            date_time: self.date_time,
        }
    }

    /// Two different players, and no negative game count.
    pub open spec fn well_formed(self) -> bool {
        self.p1_name != self.p2_name && self.p1_gc >= 0 && self.p2_gc >= 0
    }

    /// Whether the outcome counts for `name`: it is not left out, and `name`
    /// is one of its players.
    pub open spec fn counts_for(self, name: Seq<char>) -> bool {
        !self.ignore && (self.p1_name == name || self.p2_name == name)
    }

    /// The outcome with `name` in the first place.
    pub open spec fn seen_by(self, name: Seq<char>) -> OutcomeView {
        if self.p1_name == name {
            self
        } else {
            self.swapped()
        }
    }

    /// How the game ended for the first player.
    pub open spec fn result(self) -> GameResult {
        result_of_counts(self.p1_gc, self.p2_gc)
    }
}

impl View for Outcome {
    type V = OutcomeView;

    open spec fn view(&self) -> OutcomeView {
        OutcomeView {
            ignore: self.ignore,
            p1_name: self.p1_name@,
            p2_name: self.p2_name@,
            p1_gc: self.p1_gc as int,
            p2_gc: self.p2_gc as int,
            date_time: self.date_time,
        }
    }
}

/// The views of a list of outcomes, in order.
pub open spec fn outcome_views(outcomes: Seq<Outcome>) -> Seq<OutcomeView> {
    outcomes.map_values(|o: Outcome| o@)
}

impl Clone for Outcome {
    fn clone(&self) -> (copy: Outcome)
        ensures
            copy@ == self@,
    {
        Outcome {
            ignore: self.ignore,
            p1_name: self.p1_name.clone(),
            p2_name: self.p2_name.clone(),
            p1_gc: self.p1_gc,
            p2_gc: self.p2_gc,
            date_time: self.date_time,
        }
    }
}

impl Outcome {
    /// The placeholder record dated `at`: counted, nil-nil, between the names
    /// `p1_name` and `p2_name`.
    pub open spec fn placeholder_view(at: UtcInstant) -> OutcomeView {
        OutcomeView {
            ignore: false,
            p1_name: "p1_name"@,
            p2_name: "p2_name"@,
            p1_gc: 0,
            p2_gc: 0,
            date_time: at,
        }
    }

    /// A placeholder record dated `at`: counted, nil-nil, between the names
    /// `p1_name` and `p2_name`.
    pub fn placeholder(at: UtcInstant) -> (outcome: Outcome)
        ensures
            outcome@ == Outcome::placeholder_view(at),
    {
        Outcome {
            ignore: false,
            p1_name: String::from_str("p1_name"),
            p2_name: String::from_str("p2_name"),
            p1_gc: 0,
            p2_gc: 0,
            date_time: at,
        }
    }

    /// Exchanges the two players' places: names and game counts.
    pub fn swap_player_order(&mut self)
        ensures
            final(self)@ == old(self)@.swapped(),
    {
        let temp_name = self.p1_name.clone();
        self.p1_name = self.p2_name.clone();
        self.p2_name = temp_name;

        let temp_gc = self.p1_gc;
        self.p1_gc = self.p2_gc;
        self.p2_gc = temp_gc;
    }

    /// A new record with the two players' places exchanged; `self` is left as it is.
    pub fn swapped(&self) -> (other: Outcome)
        ensures
            other@ == self@.swapped(),
    {
        let mut other = self.clone();
        other.swap_player_order();
        other
    }

    /// Whether the record names two different players and no negative game count.
    pub fn is_well_formed(&self) -> (ok: bool)
        ensures
            ok == self@.well_formed(),
    {
        !(self.p1_name == self.p2_name) && self.p1_gc >= 0 && self.p2_gc >= 0
    }

    /// How the game ended for the first player.
    pub fn result(&self) -> (result: GameResult)
        ensures
            result == self@.result(),
    {
        if self.p1_gc > self.p2_gc {
            GameResult::Win
        } else if self.p1_gc < self.p2_gc {
            GameResult::Loss
        } else {
            GameResult::Draw
        }
    }

    /// The record as `name` sees it: with `name` in the first place, where the
    /// outcome counts for `name`, and nothing where it does not.
    pub fn for_player(&self, name: &String) -> (seen: Option<Outcome>)
        ensures
            self@.counts_for(name@) <==> seen is Some,
            seen is Some ==> seen->Some_0@ == self@.seen_by(name@),
    {
        if self.ignore {
            None
        } else if self.p1_name == *name {
            Some(self.clone())
        } else if self.p2_name == *name {
            Some(self.swapped())
        } else {
            None
        }
    }
}

impl Default for Outcome {
    /// The placeholder record, dated by the system clock.
    fn default() -> (outcome: Outcome)
        ensures
            outcome@ == Outcome::placeholder_view(outcome.date_time),
    {
        Outcome::placeholder(utc_now())
    }
}

} // verus!
