//! One rating period from end to end. The period is first laid out: for every
//! player, the rating held at the start of the period and the games played,
//! each against the opponent's rating at the start of the period. The numeric
//! update of each player is the caller's to compute, one player independently
//! of the other. The computed ratings are then settled: a rating is installed
//! only where it is valid, and every failure is kept beside the successes.

use vstd::prelude::*;
use crate::grouper::{
    all_well_formed,
    assign_outcomes_to_players,
    held_before,
    outcomes_of,
    refuses,
    roster_after,
    OutcomeError,
};
use crate::outcome::{outcome_views, GameResult, Outcome, OutcomeView};
use crate::player::{G2Player, G2PlayerUpdate};
use crate::table::NameMap;

verus! {

/// One game as the update formulas read it: the opponent's rating at the
/// start of the period, and how the game ended for the player.
#[derive(Clone, Copy, Debug, PartialEq, Eq, Structural)]
pub struct Game {
    pub opponent: G2Player,
    pub result: GameResult,
}

/// What one player's update works on.
#[derive(Debug, PartialEq, Eq)]
pub struct PlayerWork {
    /// The player's rating at the start of the period.
    pub prior: G2Player,
    /// The games that count, in the order of the outcomes.
    pub games: Vec<Game>,
    /// The outcomes that the games were taken from, the player in the first place.
    pub outcomes: Vec<Outcome>,
}

/// Why a player's update has no new rating.
#[derive(Clone, Copy, Debug, PartialEq, Eq, Structural)]
pub enum UpdateFailure {
    /// The search for the new volatility used up its iterations.
    NonConvergence,
    /// The estimated variance was zero or not finite.
    DegenerateVariance,
    /// The computed rating is not a rating: its deviation or its volatility
    /// is not greater than zero, or one of its numbers is not finite.
    InvalidState,
}

/// A player's update that failed: the rating stays what it was.
#[derive(Clone, Copy, Debug, PartialEq, Eq, Structural)]
pub struct FailedUpdate {
    pub before: G2Player,
    pub reason: UpdateFailure,
}

/// The rating that `name` holds at the start of the period: the one on
/// record, or that of the unrated for a player seen for the first time.
pub open spec fn state_of(prior_states: NameMap<G2Player>, name: Seq<char>) -> G2Player {
    match prior_states.lookup(name) {
        Some(state) => state,
        None => G2Player::unrated_spec(),
    }
}

/// The game that an outcome stands for, as its first player sees it.
pub open spec fn game_of(prior_states: NameMap<G2Player>, seen: OutcomeView) -> Game {
    Game { opponent: state_of(prior_states, seen.p2_name), result: seen.result() }
}

/// The games that a player's outcomes stand for.
pub open spec fn games_of(prior_states: NameMap<G2Player>, seen: Seq<OutcomeView>) -> Seq<Game> {
    seen.map_values(|o: OutcomeView| game_of(prior_states, o))
}

/// Whether `work` is what the player `name` has to be updated on.
pub open spec fn is_work_of(
    prior_states: NameMap<G2Player>,
    outcomes: Seq<OutcomeView>,
    name: Seq<char>,
    work: PlayerWork,
) -> bool {
    &&& work.prior == state_of(prior_states, name)
    &&& outcome_views(work.outcomes@) == outcomes_of(outcomes, name)
    &&& work.games@ == games_of(prior_states, outcomes_of(outcomes, name))
}

/// Whether `plan` lays out the period: it holds the players on record in
/// their order, then the players seen for the first time, and for each of
/// them the work of the update.
pub open spec fn is_plan(
    prior_states: NameMap<G2Player>,
    outcomes: Seq<OutcomeView>,
    plan: NameMap<PlayerWork>,
) -> bool {
    &&& plan.names() == roster_after(prior_states.names(), outcomes)
    &&& plan.values().len() == plan.names().len()
    &&& forall|i: int|
        0 <= i < plan.names().len() ==> is_work_of(
            prior_states,
            outcomes,
            plan.names()[i],
            #[trigger] plan.values()[i],
        )
}

/// The rating that a computed rating leaves a player with. A player without
/// games takes the computed deviation only: rating and volatility stay what
/// they were.
pub open spec fn rating_after(work: PlayerWork, computed: G2Player) -> G2Player {
    if work.games@.len() == 0 {
        G2Player { mu: work.prior.mu, phi: computed.phi, vol: work.prior.vol }
    } else {
        computed
    }
}

/// What a player's update comes to: the failure that the computation met,
/// the new rating where it is valid, and the failure of an invalid rating
/// otherwise.
pub open spec fn settled(work: PlayerWork, computed: Result<G2Player, UpdateFailure>) -> Result<
    G2Player,
    UpdateFailure,
> {
    match computed {
        Err(reason) => Err(reason),
        Ok(rating) => if rating_after(work, rating).valid() {
            Ok(rating_after(work, rating))
        } else {
            Err(UpdateFailure::InvalidState)
        },
    }
}

/// Whether `entry` records what the update of `work` came to.
pub open spec fn records(
    entry: Result<G2PlayerUpdate, FailedUpdate>,
    work: PlayerWork,
    computed: Result<G2Player, UpdateFailure>,
) -> bool {
    match (entry, settled(work, computed)) {
        (Ok(update), Ok(after)) => {
            &&& update.before == work.prior
            &&& update.after == after
            &&& outcome_views(update.outcomes@) == outcome_views(work.outcomes@)
        },
        (Err(failed), Err(reason)) => failed.before == work.prior && failed.reason == reason,
        _ => false,
    }
}

/// The rating that a player holds once the period is over.
pub open spec fn rating_held(entry: Result<G2PlayerUpdate, FailedUpdate>) -> G2Player {
    match entry {
        Ok(update) => update.after,
        Err(failed) => failed.before,
    }
}

/// A copy of a list of outcomes.
fn copy_outcomes(outcomes: &Vec<Outcome>) -> (copy: Vec<Outcome>)
    ensures
        outcome_views(copy@) == outcome_views(outcomes@),
{
    let mut copy: Vec<Outcome> = Vec::new();
    let mut i: usize = 0;
    while i < outcomes.len()
        invariant
            i <= outcomes@.len(),
            copy@.len() == i,
            forall|j: int| 0 <= j < i ==> (#[trigger] copy@[j])@ == outcomes@[j]@,
        decreases outcomes@.len() - i,
    {
        copy.push(outcomes[i].clone());
        i += 1;
    }
    assert(outcome_views(copy@) =~= outcome_views(outcomes@));
    copy
}

/// Settles one player's update. A failure of the computation is kept as it
/// is. A computed rating is installed where it is valid; for a player without
/// games only its deviation is taken, so that rating and volatility stay
/// exactly what they were. A rating that is not valid is a failure of its own.
pub fn settle(work: &PlayerWork, computed: Result<G2Player, UpdateFailure>) -> (entry: Result<
    G2PlayerUpdate,
    FailedUpdate,
>)
    ensures
        records(entry, *work, computed),
{
    match computed {
        Err(reason) => Err(FailedUpdate { before: work.prior, reason }),
        Ok(rating) => {
            let after = if work.games.len() == 0 {
                G2Player { mu: work.prior.mu, phi: rating.phi, vol: work.prior.vol }
            } else {
                rating
            };
            if after.is_valid() {
                Ok(
                    G2PlayerUpdate {
                        before: work.prior,
                        after,
                        outcomes: copy_outcomes(&work.outcomes),
                    },
                )
            } else {
                Err(FailedUpdate { before: work.prior, reason: UpdateFailure::InvalidState })
            }
        },
    }
}

/// Settles a period: `computed` holds, for each player of the plan and in the
/// plan's order, what the player's update computed. The report holds every
/// player of the plan, in the same order: the update where a valid rating
/// came out, the failure where none did. One player's failure leaves the
/// others' updates as they are.
pub fn complete_period(
    plan: &NameMap<PlayerWork>,
    computed: &Vec<Result<G2Player, UpdateFailure>>,
) -> (report: NameMap<Result<G2PlayerUpdate, FailedUpdate>>)
    requires
        plan.wf(),
        computed@.len() == plan.names().len(),
    ensures
        report.wf(),
        report.names() == plan.names(),
        report.values().len() == plan.names().len(),
        forall|i: int|
            0 <= i < plan.names().len() ==> records(
                #[trigger] report.values()[i],
                plan.values()[i],
                computed@[i],
            ),
{
    let mut report: NameMap<Result<G2PlayerUpdate, FailedUpdate>> = NameMap::new();
    let n = plan.len();
    let mut i: usize = 0;
    while i < n
        invariant
            plan.wf(),
            n == plan.names().len(),
            n == plan.values().len(),
            n == computed@.len(),
            i <= n,
            report.wf(),
            report.names() == plan.names().take(i as int),
            report.values().len() == i,
            forall|j: int|
                0 <= j < i ==> records(#[trigger] report.values()[j], plan.values()[j], computed@[j]),
        decreases n - i,
    {
        let name = plan.name_at(i).clone();
        let entry = settle(plan.value_at(i), computed[i]);
        proof {
            let seen = plan.names().take(i as int);
            if seen.contains(name@) {
                let j = seen.index_of(name@);
                assert(plan.names()[j] == plan.names()[i as int]);
            }
            assert(seen.push(name@) =~= plan.names().take(i as int + 1));
        }
        report.insert(name, entry);
        i += 1;
    }
    assert(plan.names().take(n as int) =~= plan.names());
    report
}

/// The ratings to start the next period with: each player's new rating where
/// the update came out, and the rating held before where it failed.
pub fn next_states(report: &NameMap<Result<G2PlayerUpdate, FailedUpdate>>) -> (states: NameMap<
    G2Player,
>)
    requires
        report.wf(),
    ensures
        states.wf(),
        states.names() == report.names(),
        states.values().len() == report.names().len(),
        forall|i: int|
            0 <= i < report.names().len() ==> #[trigger] states.values()[i] == rating_held(
                report.values()[i],
            ),
{
    let mut states: NameMap<G2Player> = NameMap::new();
    let n = report.len();
    let mut i: usize = 0;
    while i < n
        invariant
            report.wf(),
            n == report.names().len(),
            n == report.values().len(),
            i <= n,
            states.wf(),
            states.names() == report.names().take(i as int),
            states.values().len() == i,
            forall|j: int|
                0 <= j < i ==> #[trigger] states.values()[j] == rating_held(report.values()[j]),
        decreases n - i,
    {
        let name = report.name_at(i).clone();
        let held = match report.value_at(i) {
            Ok(update) => update.after,
            Err(failed) => failed.before,
        };
        proof {
            let seen = report.names().take(i as int);
            if seen.contains(name@) {
                let j = seen.index_of(name@);
                assert(report.names()[j] == report.names()[i as int]);
            }
            assert(seen.push(name@) =~= report.names().take(i as int + 1));
        }
        states.insert(name, held);
        i += 1;
    }
    assert(report.names().take(n as int) =~= report.names());
    states
}

/// The rating that `name` holds at the start of the period.
pub fn rating_at_start(prior_states: &NameMap<G2Player>, name: &String) -> (state: G2Player)
    requires
        prior_states.wf(),
    ensures
        state == state_of(*prior_states, name@),
{
    match prior_states.get(name) {
        Some(state) => *state,
        None => G2Player::unrated(),
    }
}

/// The games that a player's outcomes stand for: each against the opponent's
/// rating at the start of the period.
fn games_for(prior_states: &NameMap<G2Player>, seen: &Vec<Outcome>) -> (games: Vec<Game>)
    requires
        prior_states.wf(),
    ensures
        games@ == games_of(*prior_states, outcome_views(seen@)),
{
    let mut games: Vec<Game> = Vec::new();
    let mut j: usize = 0;
    while j < seen.len()
        invariant
            prior_states.wf(),
            j <= seen@.len(),
            games@.len() == j,
            forall|k: int| 0 <= k < j ==> #[trigger] games@[k] == game_of(*prior_states, seen@[k]@),
        decreases seen@.len() - j,
    {
        let outcome = &seen[j];
        let opponent = rating_at_start(prior_states, &outcome.p2_name);
        games.push(Game { opponent, result: outcome.result() });
        j += 1;
    }
    assert(games@ =~= games_of(*prior_states, outcome_views(seen@)));
    games
}

/// A table that holds every player on record, each with an empty list.
fn seeded(prior_states: &NameMap<G2Player>) -> (table: NameMap<Vec<Outcome>>)
    requires
        prior_states.wf(),
    ensures
        table.wf(),
        table.names() == prior_states.names(),
        table.values().len() == table.names().len(),
        forall|i: int| 0 <= i < table.values().len() ==> (#[trigger] table.values()[i])@.len() == 0,
{
    let mut table: NameMap<Vec<Outcome>> = NameMap::new();
    let n = prior_states.len();
    let mut i: usize = 0;
    while i < n
        invariant
            prior_states.wf(),
            n == prior_states.names().len(),
            i <= n,
            table.wf(),
            table.names() == prior_states.names().take(i as int),
            table.values().len() == i,
            forall|j: int| 0 <= j < i ==> (#[trigger] table.values()[j])@.len() == 0,
        decreases n - i,
    {
        let name = prior_states.name_at(i).clone();
        proof {
            let seen = prior_states.names().take(i as int);
            if seen.contains(name@) {
                let j = seen.index_of(name@);
                assert(prior_states.names()[j] == prior_states.names()[i as int]);
            }
            assert(seen.push(name@) =~= prior_states.names().take(i as int + 1));
        }
        table.insert(name, Vec::new());
        i += 1;
    }
    assert(prior_states.names().take(n as int) =~= prior_states.names());
    table
}

/// Lays out a period. The plan holds every player on record, in the record's
/// order, followed by the players whom an outcome that counts names for the
/// first time, in the order of their appearance. A player seen for the first
/// time starts from the rating of the unrated. Each player's games are taken
/// from the outcomes that count for the player, in the order given, and every
/// opponent enters with the rating held at the start of the period: no
/// player's update sees another's new rating. A player on record without
/// games is laid out with an empty list.
///
/// The outcomes are refused where one of them names the same player twice or
/// holds a negative game count.
pub fn plan_period(prior_states: &NameMap<G2Player>, outcomes: &Vec<Outcome>) -> (planned: Result<
    NameMap<PlayerWork>,
    OutcomeError,
>)
    requires
        prior_states.wf(),
    ensures
        match planned {
            Ok(plan) => {
                &&& all_well_formed(outcome_views(outcomes@))
                &&& plan.wf()
                &&& is_plan(*prior_states, outcome_views(outcomes@), plan)
            },
            Err(error) => refuses(outcome_views(outcomes@), error),
        },
{
    let mut table = seeded(prior_states);
    let ghost seed = table;
    let ghost views = outcome_views(outcomes@);
    match assign_outcomes_to_players(outcomes, &mut table) {
        Err(error) => {
            return Err(error);
        },
        Ok(()) => {},
    }
    proof {
        assert forall|i: int| 0 <= i < table.names().len() implies outcome_views(
            #[trigger] table.values()[i]@,
        ) == outcomes_of(views, table.names()[i]) by {
            assert(held_before(seed, i) =~= Seq::<OutcomeView>::empty());
            assert(Seq::<OutcomeView>::empty() + outcomes_of(views, table.names()[i])
                =~= outcomes_of(views, table.names()[i]));
        }
    }
    let mut plan: NameMap<PlayerWork> = NameMap::new();
    let n = table.len();
    let mut i: usize = 0;
    while i < n
        invariant
            prior_states.wf(),
            table.wf(),
            n == table.names().len(),
            n == table.values().len(),
            i <= n,
            forall|j: int|
                0 <= j < n ==> outcome_views(#[trigger] table.values()[j]@) == outcomes_of(
                    views,
                    table.names()[j],
                ),
            plan.wf(),
            plan.names() == table.names().take(i as int),
            plan.values().len() == i,
            forall|j: int|
                0 <= j < i ==> is_work_of(
                    *prior_states,
                    views,
                    table.names()[j],
                    #[trigger] plan.values()[j],
                ),
        decreases n - i,
    {
        let name = table.name_at(i).clone();
        let seen = table.value_at(i);
        let work = PlayerWork {
            prior: rating_at_start(prior_states, &name),
            games: games_for(prior_states, seen),
            outcomes: copy_outcomes(seen),
        };
        proof {
            let entered = table.names().take(i as int);
            if entered.contains(name@) {
                let j = entered.index_of(name@);
                assert(table.names()[j] == table.names()[i as int]);
            }
            assert(entered.push(name@) =~= table.names().take(i as int + 1));
        }
        plan.insert(name, work);
        i += 1;
    }
    assert(table.names().take(n as int) =~= table.names());
    Ok(plan)
}

/// Every rating that a period installs is valid: it is finite, and its
/// deviation and its volatility are greater than zero.
pub proof fn lemma_installed_rating_is_valid(
    entry: Result<G2PlayerUpdate, FailedUpdate>,
    work: PlayerWork,
    computed: Result<G2Player, UpdateFailure>,
)
    requires
        records(entry, work, computed),
    ensures
        entry is Ok ==> {
            &&& entry->Ok_0.after.mu.finite()
            &&& entry->Ok_0.after.phi.positive()
            &&& entry->Ok_0.after.vol.positive()
        },
{
}

/// A player without games keeps rating and volatility exactly: of the
/// computed rating only the deviation is installed.
pub proof fn lemma_idle_player_keeps_rating(
    entry: Result<G2PlayerUpdate, FailedUpdate>,
    work: PlayerWork,
    computed: Result<G2Player, UpdateFailure>,
)
    requires
        records(entry, work, computed),
        work.games@.len() == 0,
    ensures
        rating_held(entry).mu == work.prior.mu,
        rating_held(entry).vol == work.prior.vol,
        entry is Ok ==> computed is Ok && rating_held(entry).phi == computed->Ok_0.phi,
{
}

/// A failure of the computation is never turned into a rating: the player is
/// reported as failed, with the reason given, and keeps the rating held before.
pub proof fn lemma_failure_is_reported(
    entry: Result<G2PlayerUpdate, FailedUpdate>,
    work: PlayerWork,
    reason: UpdateFailure,
)
    requires
        records(entry, work, Err(reason)),
    ensures
        entry == Err::<G2PlayerUpdate, FailedUpdate>(FailedUpdate { before: work.prior, reason }),
        rating_held(entry) == work.prior,
{
}

/// The plan is a function of the ratings on record and the outcomes: two
/// plans of the same period hold the same players in the same order, and for
/// each player the same prior rating, the same games and the same outcomes.
pub proof fn lemma_plan_is_determined(
    prior_states: NameMap<G2Player>,
    outcomes: Seq<OutcomeView>,
    first: NameMap<PlayerWork>,
    second: NameMap<PlayerWork>,
)
    requires
        is_plan(prior_states, outcomes, first),
        is_plan(prior_states, outcomes, second),
    ensures
        first.names() == second.names(),
        forall|i: int|
            0 <= i < first.names().len() ==> {
                &&& (#[trigger] first.values()[i]).prior == second.values()[i].prior
                &&& first.values()[i].games@ == second.values()[i].games@
                &&& outcome_views(first.values()[i].outcomes@) == outcome_views(
                    second.values()[i].outcomes@,
                )
            },
{
    assert forall|i: int| 0 <= i < first.names().len() implies {
        &&& (#[trigger] first.values()[i]).prior == second.values()[i].prior
        &&& first.values()[i].games@ == second.values()[i].games@
        &&& outcome_views(first.values()[i].outcomes@) == outcome_views(
            second.values()[i].outcomes@,
        )
    } by {
        assert(is_work_of(prior_states, outcomes, second.names()[i], second.values()[i]));
    }
}

/// What a player's update comes to is a function of the work and of what was
/// computed: two records of the same update hold the same ratings, the same
/// outcomes, or the same failure.
pub proof fn lemma_record_is_determined(
    first: Result<G2PlayerUpdate, FailedUpdate>,
    second: Result<G2PlayerUpdate, FailedUpdate>,
    work: PlayerWork,
    computed: Result<G2Player, UpdateFailure>,
)
    requires
        records(first, work, computed),
        records(second, work, computed),
    ensures
        match (first, second) {
            (Ok(a), Ok(b)) => {
                &&& a.before == b.before
                &&& a.after == b.after
                &&& outcome_views(a.outcomes@) == outcome_views(b.outcomes@)
            },
            (Err(a), Err(b)) => a == b,
            _ => false,
        },
{
}

} // verus!
