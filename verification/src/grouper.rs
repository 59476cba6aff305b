//! Grouping a period's outcomes by player: every outcome that counts is
//! entered in both players' lists, each time with the list's owner in the
//! first place, in the order in which the outcomes were given.

use vstd::prelude::*;
use crate::outcome::{outcome_views, Outcome, OutcomeView};
use crate::table::{lemma_with_name_distinct, with_name, NameMap};

verus! {

/// Why a list of outcomes was refused.
#[derive(Clone, Copy, Debug, PartialEq, Eq, Structural)]
pub enum OutcomeError {
    /// The outcome at `index` names the same player twice.
    SelfPlay { index: usize },
    /// The outcome at `index` holds a negative game count.
    NegativeScore { index: usize },
}

/// Whether every outcome of the list is well formed.
pub open spec fn all_well_formed(outcomes: Seq<OutcomeView>) -> bool {
    forall|i: int| 0 <= i < outcomes.len() ==> (#[trigger] outcomes[i]).well_formed()
}

/// Whether `index` is the place of the first outcome that is not well formed.
pub open spec fn is_first_malformed(outcomes: Seq<OutcomeView>, index: int) -> bool {
    &&& 0 <= index < outcomes.len()
    &&& !outcomes[index].well_formed()
    &&& forall|j: int| 0 <= j < index ==> (#[trigger] outcomes[j]).well_formed()
}

/// The error that a malformed outcome at `index` is refused with: the same
/// player twice comes before a negative count.
pub open spec fn error_at(outcome: OutcomeView, index: usize) -> OutcomeError {
    if outcome.p1_name == outcome.p2_name {
        OutcomeError::SelfPlay { index }
    } else {
        OutcomeError::NegativeScore { index }
    }
}

/// Whether `error` is the refusal that the list calls for: it points at the
/// first malformed outcome and says what is wrong with it.
pub open spec fn refuses(outcomes: Seq<OutcomeView>, error: OutcomeError) -> bool {
    let index = match error {
        OutcomeError::SelfPlay { index } => index,
        OutcomeError::NegativeScore { index } => index,
    };
    is_first_malformed(outcomes, index as int) && error == error_at(outcomes[index as int], index)
}

/// The outcomes that count for `name`, in the order given, each with `name`
/// in the first place.
pub open spec fn outcomes_of(outcomes: Seq<OutcomeView>, name: Seq<char>) -> Seq<OutcomeView> {
    outcomes.filter(|o: OutcomeView| o.counts_for(name)).map_values(
        |o: OutcomeView| o.seen_by(name),
    )
}

/// The names known after the outcomes were read: those in `names`, followed
/// by the players of the outcomes that count, each where it first appears, the
/// first player of an outcome before the second.
pub open spec fn roster_after(names: Seq<Seq<char>>, outcomes: Seq<OutcomeView>) -> Seq<Seq<char>>
    decreases outcomes.len(),
{
    if outcomes.len() == 0 {
        names
    } else {
        let before = roster_after(names, outcomes.drop_last());
        let last = outcomes.last();
        if last.ignore {
            before
        } else {
            with_name(with_name(before, last.p1_name), last.p2_name)
        }
    }
}

/// The list held for the name at index `i` before any outcome was assigned:
/// empty for a name that the table did not hold.
pub open spec fn held_before(table: NameMap<Vec<Outcome>>, i: int) -> Seq<OutcomeView> {
    if 0 <= i < table.values().len() {
        outcome_views(table.values()[i]@)
    } else {
        Seq::empty()
    }
}

/// Whether `after` is `before` with the outcomes assigned: the names are
/// those of `before` followed by the new players, and each name's list is what
/// it held before, followed by the outcomes that count for it.
pub open spec fn is_assignment(
    before: NameMap<Vec<Outcome>>,
    outcomes: Seq<OutcomeView>,
    after: NameMap<Vec<Outcome>>,
) -> bool {
    &&& after.names() == roster_after(before.names(), outcomes)
    &&& after.values().len() == after.names().len()
    &&& forall|i: int|
        0 <= i < after.names().len() ==> outcome_views(#[trigger] after.values()[i]@)
            == held_before(before, i) + outcomes_of(outcomes, after.names()[i])
}

/// One more outcome adds its view for `name` at the end of the list of
/// `name`, where it counts for `name`, and changes nothing where it does not.
pub proof fn lemma_outcomes_of_push(outcomes: Seq<OutcomeView>, last: OutcomeView, name: Seq<char>)
    ensures
        outcomes_of(outcomes.push(last), name) == if last.counts_for(name) {
            outcomes_of(outcomes, name).push(last.seen_by(name))
        } else {
            outcomes_of(outcomes, name)
        },
{
    let counts = |o: OutcomeView| o.counts_for(name);
    let longer = outcomes.push(last);
    assert(longer.drop_last() =~= outcomes);
    assert(longer.last() == last);
    reveal_with_fuel(Seq::filter, 2);
    assert(longer.filter(counts) == if counts(last) {
        outcomes.filter(counts).push(last)
    } else {
        outcomes.filter(counts)
    });
    if last.counts_for(name) {
        assert(outcomes_of(longer, name) =~= outcomes_of(outcomes, name).push(last.seen_by(name)));
    }
}

/// No outcome counts for the players of an empty list.
pub proof fn lemma_outcomes_of_empty(name: Seq<char>)
    ensures
        outcomes_of(Seq::empty(), name) == Seq::<OutcomeView>::empty(),
{
    reveal_with_fuel(Seq::filter, 1);
    assert(outcomes_of(Seq::empty(), name) =~= Seq::<OutcomeView>::empty());
}

/// What the roster holds: the names it started with stay where they were, no
/// name is entered twice, and a name is on it exactly if it was there from the
/// start or an outcome counts for it.
pub proof fn lemma_roster(names: Seq<Seq<char>>, outcomes: Seq<OutcomeView>)
    requires
        names.no_duplicates(),
    ensures
        roster_after(names, outcomes).no_duplicates(),
        roster_after(names, outcomes).len() >= names.len(),
        roster_after(names, outcomes).subrange(0, names.len() as int) == names,
        forall|name: Seq<char>|
            #[trigger] roster_after(names, outcomes).contains(name) <==> (names.contains(name)
                || exists|k: int| 0 <= k < outcomes.len() && (#[trigger] outcomes[k]).counts_for(name)),
    decreases outcomes.len(),
{
    let roster = roster_after(names, outcomes);
    if outcomes.len() == 0 {
        assert(roster.subrange(0, names.len() as int) =~= names);
    } else {
        let shorter = outcomes.drop_last();
        let last = outcomes.last();
        let before = roster_after(names, shorter);
        lemma_roster(names, shorter);
        let with_first = with_name(before, last.p1_name);
        lemma_with_name_distinct(before, last.p1_name);
        lemma_with_name_distinct(with_first, last.p2_name);
        assert(roster.subrange(0, names.len() as int) =~= before.subrange(0, names.len() as int));
        assert forall|name: Seq<char>| #[trigger]
            roster.contains(name) <==> (names.contains(name) || exists|k: int|
                0 <= k < outcomes.len() && (#[trigger] outcomes[k]).counts_for(name)) by {
            if roster.contains(name) {
                if before.contains(name) {
                    if !names.contains(name) {
                        let k = choose|k: int|
                            0 <= k < shorter.len() && (#[trigger] shorter[k]).counts_for(name);
                        assert(outcomes[k].counts_for(name));
                    }
                } else {
                    assert(outcomes[outcomes.len() - 1].counts_for(name));
                }
            }
            if exists|k: int| 0 <= k < outcomes.len() && (#[trigger] outcomes[k]).counts_for(name) {
                let k = choose|k: int|
                    0 <= k < outcomes.len() && (#[trigger] outcomes[k]).counts_for(name);
                if k < shorter.len() {
                    assert(shorter[k].counts_for(name));
                }
            }
        }
    }
}

/// A name that is not on the roster has an empty list.
pub proof fn lemma_absent_has_none(
    names: Seq<Seq<char>>,
    outcomes: Seq<OutcomeView>,
    name: Seq<char>,
)
    requires
        names.no_duplicates(),
        !roster_after(names, outcomes).contains(name),
    ensures
        outcomes_of(outcomes, name) == Seq::<OutcomeView>::empty(),
    decreases outcomes.len(),
{
    lemma_roster(names, outcomes);
    if outcomes.len() == 0 {
        assert(outcomes =~= Seq::empty());
        lemma_outcomes_of_empty(name);
    } else {
        let shorter = outcomes.drop_last();
        let last = outcomes.last();
        lemma_roster(names, shorter);
        assert(!last.counts_for(name));
        assert forall|k: int| 0 <= k < shorter.len() implies !(#[trigger] shorter[k]).counts_for(
            name,
        ) by {
            assert(outcomes[k] == shorter[k]);
        }
        lemma_absent_has_none(names, shorter, name);
        lemma_outcomes_of_push(shorter, last, name);
        assert(shorter.push(last) =~= outcomes);
    }
}

/// Looks for the first outcome that is not well formed.
pub fn check_outcomes(outcomes: &Vec<Outcome>) -> (checked: Result<(), OutcomeError>)
    ensures
        match checked {
            Ok(()) => all_well_formed(outcome_views(outcomes@)),
            Err(error) => refuses(outcome_views(outcomes@), error),
        },
{
    let ghost views = outcome_views(outcomes@);
    let mut i: usize = 0;
    while i < outcomes.len()
        invariant
            i <= outcomes@.len(),
            views == outcome_views(outcomes@),
            forall|j: int| 0 <= j < i ==> (#[trigger] views[j]).well_formed(),
        decreases outcomes@.len() - i,
    {
        let outcome = &outcomes[i];
        assert(views[i as int] == outcome@);
        if outcome.p1_name == outcome.p2_name {
            return Err(OutcomeError::SelfPlay { index: i });
        }
        if outcome.p1_gc < 0 || outcome.p2_gc < 0 {
            return Err(OutcomeError::NegativeScore { index: i });
        }
        i += 1;
    }
    Ok(())
}

/// Enters `record` at the end of the list of `name`, with a new list where
/// the table did not hold the name.
fn append_for(table: &mut NameMap<Vec<Outcome>>, name: &String, record: Outcome)
    requires
        old(table).wf(),
        old(table).values().len() == old(table).names().len(),
    ensures
        final(table).wf(),
        final(table).names() == with_name(old(table).names(), name@),
        final(table).values().len() == final(table).names().len(),
        forall|i: int|
            0 <= i < final(table).names().len() ==> outcome_views(
                #[trigger] final(table).values()[i]@,
            ) == if final(table).names()[i] == name@ {
                held_before(*old(table), i).push(record@)
            } else {
                held_before(*old(table), i)
            },
{
    proof {
        lemma_with_name_distinct(table.names(), name@);
    }
    match table.position(name) {
        Some(i) => {
            let mut list = table.replace_at(i, Vec::new());
            list.push(record);
            assert(outcome_views(list@) =~= held_before(*old(table), i as int).push(record@));
            table.replace_at(i, list);
        },
        None => {
            let mut list: Vec<Outcome> = Vec::new();
            list.push(record);
            assert(outcome_views(list@) =~= Seq::<OutcomeView>::empty().push(record@));
            table.insert(name.clone(), list);
        },
    }
}

/// Goes through the outcomes and enters each one that counts in the lists of
/// both its players: as it stands in the first player's list, with the places
/// exchanged in the second player's. A player whom the table does not hold
/// yet is added at its end. Outcomes marked to be ignored are passed over.
///
/// Nothing is assigned unless every outcome is well formed: otherwise the
/// first malformed outcome is reported and the table is left as it was.
pub fn assign_outcomes_to_players(
    outcomes: &Vec<Outcome>,
    player_update_data: &mut NameMap<Vec<Outcome>>,
) -> (assigned: Result<(), OutcomeError>)
    requires
        old(player_update_data).wf(),
    ensures
        final(player_update_data).wf(),
        match assigned {
            Ok(()) => {
                &&& all_well_formed(outcome_views(outcomes@))
                &&& is_assignment(
                    *old(player_update_data),
                    outcome_views(outcomes@),
                    *final(player_update_data),
                )
            },
            Err(error) => {
                &&& refuses(outcome_views(outcomes@), error)
                &&& *final(player_update_data) == *old(player_update_data)
            },
        },
{
    match check_outcomes(outcomes) {
        Err(error) => {
            return Err(error);
        },
        Ok(()) => {},
    }
    let ghost views = outcome_views(outcomes@);
    let ghost start = *player_update_data;
    proof {
        start.lemma_shape();
        assert(views.take(0) =~= Seq::<OutcomeView>::empty());
        assert forall|i: int| 0 <= i < start.names().len() implies outcome_views(
            #[trigger] start.values()[i]@,
        ) == held_before(start, i) + outcomes_of(views.take(0), start.names()[i]) by {
            lemma_outcomes_of_empty(start.names()[i]);
            assert(held_before(start, i) + Seq::<OutcomeView>::empty() =~= held_before(start, i));
        }
    }
    let mut k: usize = 0;
    while k < outcomes.len()
        invariant
            k <= outcomes@.len(),
            views == outcome_views(outcomes@),
            all_well_formed(views),
            start.wf(),
            player_update_data.wf(),
            is_assignment(start, views.take(k as int), *player_update_data),
        decreases outcomes@.len() - k,
    {
        let outcome = &outcomes[k];
        let ghost seen = views.take(k as int);
        let ghost last = outcome@;
        let ghost held = *player_update_data;
        proof {
            assert(views[k as int] == last);
            assert(last.well_formed());
            assert(views.take(k as int + 1) =~= seen.push(last));
            assert(seen.push(last).drop_last() =~= seen);
            lemma_roster(start.names(), seen);
        }
        if !outcome.ignore {
            append_for(player_update_data, &outcome.p1_name, outcome.clone());
            let ghost middle = *player_update_data;
            append_for(player_update_data, &outcome.p2_name, outcome.swapped());
            proof {
                let after = *player_update_data;
                lemma_with_name_distinct(held.names(), last.p1_name);
                lemma_with_name_distinct(middle.names(), last.p2_name);
                assert(after.names() == roster_after(start.names(), seen.push(last)));
                assert forall|i: int| 0 <= i < after.names().len() implies outcome_views(
                    #[trigger] after.values()[i]@,
                ) == held_before(start, i) + outcomes_of(seen.push(last), after.names()[i]) by {
                    let name = after.names()[i];
                    lemma_outcomes_of_push(seen, last, name);
                    let grown = held_before(start, i) + outcomes_of(seen, name);
                    // What the list held when the outcome was reached.
                    if i < held.names().len() {
                        assert(held.names()[i] == name);
                        assert(held_before(held, i) == grown);
                    } else {
                        assert(!held.names().contains(name)) by {
                            if held.names().contains(name) {
                                let j = held.names().index_of(name);
                                assert(after.names()[j] == name);
                            }
                        }
                        lemma_absent_has_none(start.names(), seen, name);
                        start.lemma_shape();
                        assert(i >= start.values().len());
                        assert(held_before(held, i) =~= grown);
                    }
                    if i < middle.names().len() {
                        assert(middle.names()[i] == name);
                    } else {
                        assert(name == last.p2_name);
                        assert(!middle.names().contains(name));
                    }
                    if name == last.p1_name {
                        assert(grown.push(last) =~= held_before(start, i) + outcomes_of(
                            seen,
                            name,
                        ).push(last.seen_by(name)));
                    } else if name == last.p2_name {
                        assert(grown.push(last.swapped()) =~= held_before(start, i) + outcomes_of(
                            seen,
                            name,
                        ).push(last.seen_by(name)));
                    }
                }
            }
        } else {
            proof {
                assert forall|i: int| 0 <= i < held.names().len() implies outcome_views(
                    #[trigger] held.values()[i]@,
                ) == held_before(start, i) + outcomes_of(seen.push(last), held.names()[i]) by {
                    lemma_outcomes_of_push(seen, last, held.names()[i]);
                }
            }
        }
        k += 1;
    }
    assert(views.take(k as int) =~= views);
    Ok(())
}

/// Groups a period's outcomes by player. The players stand in the order in
/// which they first appear in an outcome that counts; each one's list holds
/// the outcomes that count for the player, in the order given, with the
/// player in the first place.
///
/// The list is refused where an outcome names the same player twice or holds
/// a negative game count, whether or not it is marked to be ignored.
pub fn group(outcomes: &Vec<Outcome>) -> (grouped: Result<NameMap<Vec<Outcome>>, OutcomeError>)
    ensures
        match grouped {
            Ok(table) => {
                &&& all_well_formed(outcome_views(outcomes@))
                &&& table.wf()
                &&& table.names() == roster_after(Seq::empty(), outcome_views(outcomes@))
                &&& table.values().len() == table.names().len()
                &&& forall|i: int|
                    0 <= i < table.names().len() ==> outcome_views(#[trigger] table.values()[i]@)
                        == outcomes_of(outcome_views(outcomes@), table.names()[i])
            },
            Err(error) => refuses(outcome_views(outcomes@), error),
        },
{
    let mut table: NameMap<Vec<Outcome>> = NameMap::new();
    let ghost empty = table;
    match assign_outcomes_to_players(outcomes, &mut table) {
        Ok(()) => {
            proof {
                let views = outcome_views(outcomes@);
                assert forall|i: int| 0 <= i < table.names().len() implies outcome_views(
                    #[trigger] table.values()[i]@,
                ) == outcomes_of(views, table.names()[i]) by {
                    assert(held_before(empty, i) =~= Seq::<OutcomeView>::empty());
                    assert(Seq::<OutcomeView>::empty() + outcomes_of(views, table.names()[i])
                        =~= outcomes_of(views, table.names()[i]));
                }
            }
            Ok(table)
        },
        Err(error) => Err(error),
    }
}

/// The two players of an outcome see the same game from opposite sides: what
/// the second player sees is what the first sees with the places exchanged,
/// and a win for the one is a loss for the other.
pub proof fn lemma_seen_from_both_sides(outcome: OutcomeView)
    requires
        outcome.p1_name != outcome.p2_name,
    ensures
        outcome.seen_by(outcome.p1_name).p1_name == outcome.p1_name,
        outcome.seen_by(outcome.p2_name).p1_name == outcome.p2_name,
        outcome.seen_by(outcome.p2_name) == outcome.seen_by(outcome.p1_name).swapped(),
        outcome.seen_by(outcome.p2_name).result() == outcome.seen_by(
            outcome.p1_name,
        ).result().mirrored(),
{
}

/// Two lists of outcomes that count alike for `name`, place by place, and
/// look alike to `name` wherever they count, give `name` the same list.
pub proof fn lemma_outcomes_of_agree(
    first: Seq<OutcomeView>,
    second: Seq<OutcomeView>,
    name: Seq<char>,
)
    requires
        first.len() == second.len(),
        forall|k: int|
            0 <= k < first.len() ==> (#[trigger] first[k]).counts_for(name) == second[k].counts_for(
                name,
            ),
        forall|k: int|
            0 <= k < first.len() && (#[trigger] first[k]).counts_for(name) ==> first[k].seen_by(
                name,
            ) == second[k].seen_by(name),
    ensures
        outcomes_of(first, name) == outcomes_of(second, name),
    decreases first.len(),
{
    if first.len() == 0 {
        assert(first =~= second);
    } else {
        let n = first.len() - 1;
        assert(first[n].counts_for(name) == second[n].counts_for(name));
        lemma_outcomes_of_agree(first.drop_last(), second.drop_last(), name);
        lemma_outcomes_of_push(first.drop_last(), first.last(), name);
        lemma_outcomes_of_push(second.drop_last(), second.last(), name);
        assert(first.drop_last().push(first.last()) =~= first);
        assert(second.drop_last().push(second.last()) =~= second);
    }
}

/// Which of its two players an outcome names first does not matter to the
/// grouping: with the places of one outcome exchanged, names and game counts
/// alike, every player is given the same list, and the same players are known.
pub proof fn lemma_player_order_is_immaterial(
    names: Seq<Seq<char>>,
    outcomes: Seq<OutcomeView>,
    at: int,
    name: Seq<char>,
)
    requires
        names.no_duplicates(),
        0 <= at < outcomes.len(),
        outcomes[at].p1_name != outcomes[at].p2_name,
    ensures
        outcomes_of(outcomes.update(at, outcomes[at].swapped()), name) == outcomes_of(
            outcomes,
            name,
        ),
        roster_after(names, outcomes.update(at, outcomes[at].swapped())).contains(name)
            == roster_after(names, outcomes).contains(name),
{
    let exchanged = outcomes.update(at, outcomes[at].swapped());
    lemma_outcomes_of_agree(exchanged, outcomes, name);
    lemma_roster(names, outcomes);
    lemma_roster(names, exchanged);
    if exists|k: int| 0 <= k < outcomes.len() && (#[trigger] outcomes[k]).counts_for(name) {
        let k = choose|k: int| 0 <= k < outcomes.len() && (#[trigger] outcomes[k]).counts_for(name);
        assert(exchanged[k].counts_for(name));
    }
    if exists|k: int| 0 <= k < exchanged.len() && (#[trigger] exchanged[k]).counts_for(name) {
        let k = choose|k: int|
            0 <= k < exchanged.len() && (#[trigger] exchanged[k]).counts_for(name);
        assert(outcomes[k].counts_for(name));
    }
}

/// The grouping is a function of what it is given: two assignments of the
/// same outcomes to the same table hold the same names in the same order, and
/// under each name the same list.
pub proof fn lemma_assignment_is_determined(
    before: NameMap<Vec<Outcome>>,
    outcomes: Seq<OutcomeView>,
    first: NameMap<Vec<Outcome>>,
    second: NameMap<Vec<Outcome>>,
)
    requires
        is_assignment(before, outcomes, first),
        is_assignment(before, outcomes, second),
    ensures
        first.names() == second.names(),
        forall|i: int|
            0 <= i < first.names().len() ==> outcome_views(#[trigger] first.values()[i]@)
                == outcome_views(second.values()[i]@),
{
}

} // verus!
