use rating_period::instant::UtcInstant;
use rating_period::outcome::{GameResult, Outcome};

fn at(seconds: i64) -> UtcInstant {
    UtcInstant { seconds, nanos: 0 }
}

fn outcome(p1: &str, p2: &str, p1_gc: i8, p2_gc: i8) -> Outcome {
    Outcome {
        ignore: false,
        p1_name: String::from(p1),
        p2_name: String::from(p2),
        p1_gc,
        p2_gc,
        date_time: at(1_700_000_000),
    }
}

#[test]
fn swap_player_order_exchanges_names_and_counts() {
    let mut o = outcome("ann", "bob", 3, 1);
    o.swap_player_order();
    assert_eq!(o, outcome("bob", "ann", 1, 3));
}

#[test]
fn swap_player_order_keeps_flag_and_date() {
    let mut o = outcome("ann", "bob", 3, 1);
    o.ignore = true;
    o.date_time = UtcInstant { seconds: -5, nanos: 999_999_999 };
    o.swap_player_order();
    assert!(o.ignore);
    assert_eq!(o.date_time, UtcInstant { seconds: -5, nanos: 999_999_999 });
}

#[test]
fn swapping_twice_gives_the_outcome_back() {
    let mut o = outcome("ann", "bob", 3, 1);
    o.swap_player_order();
    o.swap_player_order();
    assert_eq!(o, outcome("ann", "bob", 3, 1));
}

#[test]
fn swapped_leaves_the_original_as_it_is() {
    let o = outcome("ann", "bob", 0, 2);
    let other = o.swapped();
    assert_eq!(o, outcome("ann", "bob", 0, 2));
    assert_eq!(other, outcome("bob", "ann", 2, 0));
}

#[test]
fn clone_copies_every_field() {
    let mut o = outcome("ann", "bob", 7, 5);
    o.ignore = true;
    let copy = o.clone();
    assert_eq!(copy, o);
}

#[test]
fn placeholder_is_nil_nil_between_the_two_stock_names() {
    let o = Outcome::placeholder(at(42));
    assert!(!o.ignore);
    assert_eq!(o.p1_name, "p1_name");
    assert_eq!(o.p2_name, "p2_name");
    assert_eq!(o.p1_gc, 0);
    assert_eq!(o.p2_gc, 0);
    assert_eq!(o.date_time, at(42));
}

#[test]
fn default_is_the_placeholder_dated_by_the_clock() {
    let o = Outcome::default();
    assert_eq!(o, Outcome::placeholder(o.date_time));
    // The clock of any machine that runs this reads later than 2020-09-13.
    assert!(o.date_time.seconds > 1_600_000_000);
    assert!(o.date_time.nanos < 2_000_000_000);
}

#[test]
fn result_follows_the_game_counts() {
    assert_eq!(outcome("ann", "bob", 3, 1).result(), GameResult::Win);
    assert_eq!(outcome("ann", "bob", 1, 3).result(), GameResult::Loss);
    assert_eq!(outcome("ann", "bob", 2, 2).result(), GameResult::Draw);
    assert_eq!(outcome("ann", "bob", 0, 0).result(), GameResult::Draw);
    assert_eq!(outcome("ann", "bob", 127, 126).result(), GameResult::Win);
}

#[test]
fn mirror_turns_win_into_loss() {
    assert_eq!(GameResult::Win.mirror(), GameResult::Loss);
    assert_eq!(GameResult::Loss.mirror(), GameResult::Win);
    assert_eq!(GameResult::Draw.mirror(), GameResult::Draw);
}

#[test]
fn well_formed_needs_two_players_and_no_negative_count() {
    assert!(outcome("ann", "bob", 0, 0).is_well_formed());
    assert!(!outcome("ann", "ann", 1, 0).is_well_formed());
    assert!(!outcome("ann", "bob", -1, 0).is_well_formed());
    assert!(!outcome("ann", "bob", 0, -128).is_well_formed());
    assert!(!outcome("", "", 0, 0).is_well_formed());
    assert!(outcome("", "bob", 0, 0).is_well_formed());
}

#[test]
fn for_player_puts_the_player_first() {
    let o = outcome("ann", "bob", 3, 1);
    assert_eq!(o.for_player(&String::from("ann")), Some(outcome("ann", "bob", 3, 1)));
    assert_eq!(o.for_player(&String::from("bob")), Some(outcome("bob", "ann", 1, 3)));
    assert_eq!(o.for_player(&String::from("cat")), None);
}

#[test]
fn for_player_gives_nothing_of_an_ignored_outcome() {
    let mut o = outcome("ann", "bob", 3, 1);
    o.ignore = true;
    assert_eq!(o.for_player(&String::from("ann")), None);
    assert_eq!(o.for_player(&String::from("bob")), None);
}

#[test]
fn the_two_views_of_a_game_mirror_each_other() {
    let o = outcome("ann", "bob", 3, 1);
    let a = o.for_player(&String::from("ann")).unwrap();
    let b = o.for_player(&String::from("bob")).unwrap();
    assert_eq!(b, a.swapped());
    assert_eq!(a.result(), GameResult::Win);
    assert_eq!(b.result(), GameResult::Loss);
    assert_eq!(b.result(), a.result().mirror());
}
