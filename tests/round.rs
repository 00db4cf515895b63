use dice_round::capability::{Now, Rand, SystemClock, ThreadRand};
use dice_round::conflict::{analyze, effective_values, Conflict};
use dice_round::model::{new_round, Extreme, Roll, Rolls, Round0, RoundError};
use dice_round::names::RoundPlayers;

/// Hands out the values it was given, in turn.
struct Scripted {
    values: Vec<u8>,
    next: usize,
}

impl Rand for Scripted {
    fn rand(&mut self, from: u8, to: u8) -> u8 {
        let v = self.values[self.next % self.values.len()];
        self.next += 1;
        assert!(from <= v && v <= to);
        v
    }
}

/// Always reads the same instant.
struct Fixed(u64);

impl Now for Fixed {
    fn now(&self) -> u64 {
        self.0
    }
}

fn scripted_round(values: Vec<u8>, max_players: u8, max_winners: u8, extreme: Extreme) -> Round0<Scripted, Fixed> {
    Round0::new(1, 12, 1, max_players, max_winners, extreme, 60_000, Scripted { values, next: 0 }, Fixed(7))
}

fn names(v: &[String]) -> Vec<String> {
    let mut r = v.to_vec();
    r.sort();
    r
}

fn group_of(c: &Conflict, value: u8) -> Option<Vec<String>> {
    c.value_groups.iter().find(|g| g.0 == value).map(|g| names(&g.1))
}

#[test]
fn test_roll() {
    let mut round = new_round();
    round.max_players = 10;
    assert_eq!(round.allow("player-a"), Ok(()));
    assert_eq!(round.allow("player-b"), Ok(()));

    let roll1 = round.roll("player-a").unwrap();
    assert_eq!(roll1.player, "player-a");
    assert!(1 <= roll1.value && roll1.value <= 12);
    assert_eq!(round.roll("player-c").unwrap_err(), RoundError::PlayerNotAllowed);
    let roll2 = round.roll("player-b").unwrap();
    assert_eq!(roll2.player, "player-b");

    let cft = round.conflict();
    assert_eq!(cft.players_roll.len(), 2);
    assert_eq!(cft.min_value, Some(roll1.value.min(roll2.value)));
    assert_eq!(cft.max_value, Some(roll1.value.max(roll2.value)));
    assert_eq!(round.rolls.len(), 2);
}

#[test]
fn reroll_supersedes_effective_value() {
    let mut round = scripted_round(vec![3, 5, 9], 2, 1, Extreme::Max);
    round.allow("a").unwrap();
    round.allow("b").unwrap();
    assert_eq!(round.roll("a").unwrap().value, 3);
    assert_eq!(round.roll("b").unwrap().value, 5);
    assert_eq!(round.roll("a").unwrap().value, 9);
    assert_eq!(round.rolls.len(), 3);
    assert_eq!(names(&round.players), vec!["a".to_string(), "b".to_string()]);
    let c = round.conflict();
    let mut eff = c.players_roll.clone();
    eff.sort();
    assert_eq!(eff, vec![("a".to_string(), 9), ("b".to_string(), 5)]);
}

#[test]
fn capacity_refuses_second_player() {
    let mut round = scripted_round(vec![4], 1, 1, Extreme::Max);
    round.allow("a").unwrap();
    round.allow("b").unwrap();
    assert!(round.roll("a").is_ok());
    assert_eq!(round.roll("b").unwrap_err(), RoundError::CapacityExceeded);
    assert_eq!(round.rolls.len(), 1);
    assert_eq!(round.players, vec!["a".to_string()]);
    // a participant may still roll again at capacity
    assert!(round.roll("a").is_ok());
}

#[test]
fn min_tie_is_conflicted() {
    let mut round = scripted_round(vec![2, 2, 5], 3, 1, Extreme::Min);
    for p in ["a", "b", "c"] {
        round.allow(p).unwrap();
        round.roll(p).unwrap();
    }
    let c = round.conflict();
    assert_eq!(names(&c.conflicted), vec!["a".to_string(), "b".to_string()]);
    assert!(c.winners.is_empty());
    assert_eq!(c.min_value, Some(2));
    assert_eq!(c.max_value, Some(5));
}

#[test]
fn tie_within_max_winners_wins() {
    let mut round = scripted_round(vec![2, 2, 5], 3, 2, Extreme::Min);
    for p in ["a", "b", "c"] {
        round.allow(p).unwrap();
        round.roll(p).unwrap();
    }
    let c = round.conflict();
    assert_eq!(names(&c.winners), vec!["a".to_string(), "b".to_string()]);
    assert!(c.conflicted.is_empty());
}

#[test]
fn max_extreme_single_winner() {
    let mut round = scripted_round(vec![2, 2, 5], 3, 1, Extreme::Max);
    for p in ["a", "b", "c"] {
        round.allow(p).unwrap();
        round.roll(p).unwrap();
    }
    let c = round.conflict();
    assert_eq!(c.winners, vec!["c".to_string()]);
    assert!(c.conflicted.is_empty());
}

#[test]
fn close_twice_is_refused() {
    let mut round = Round0::new(1, 6, 1, 4, 1, Extreme::Max, 1000, Scripted { values: vec![1], next: 0 }, Fixed(42));
    assert!(!round.is_closed());
    assert_eq!(round.close(), Ok(()));
    assert_eq!(round.finished, Some(42));
    round.clock = Fixed(99);
    assert_eq!(round.close(), Err(RoundError::AlreadyClosed));
    assert_eq!(round.finished, Some(42));
    assert!(round.is_closed());
}

#[test]
fn roll_after_close_is_refused() {
    let mut round = scripted_round(vec![6], 4, 1, Extreme::Max);
    round.allow("a").unwrap();
    round.roll("a").unwrap();
    round.close().unwrap();
    assert_eq!(round.roll("a").unwrap_err(), RoundError::AlreadyClosed);
    assert_eq!(round.roll("z").unwrap_err(), RoundError::AlreadyClosed);
    assert_eq!(round.rolls.len(), 1);
    assert_eq!(round.allow("b"), Err(RoundError::AlreadyClosed));
    assert_eq!(round.deny("a"), Err(RoundError::AlreadyClosed));
    assert_eq!(round.allowed_players, vec!["a".to_string()]);
}

#[test]
fn reroll_keeps_participants_and_adds_one_roll() {
    let mut round = scripted_round(vec![1, 2, 3, 4], 2, 1, Extreme::Max);
    round.allow("a").unwrap();
    round.roll("a").unwrap();
    for n in 2..5 {
        round.roll("a").unwrap();
        assert_eq!(round.players.len(), 1);
        assert_eq!(round.rolls.len(), n);
    }
}

#[test]
fn not_allowed_player_is_refused() {
    let mut round = scripted_round(vec![1], 4, 1, Extreme::Max);
    round.allow("a").unwrap();
    round.roll("a").unwrap();
    assert_eq!(round.roll("b").unwrap_err(), RoundError::PlayerNotAllowed);
    assert_eq!(round.rolls.len(), 1);
    round.deny("a").unwrap();
    assert_eq!(round.roll("a").unwrap_err(), RoundError::PlayerNotAllowed);
    assert_eq!(round.rolls.len(), 1);
    // rolls already made stay
    assert_eq!(round.players, vec!["a".to_string()]);
}

#[test]
fn allow_is_idempotent() {
    let mut round = scripted_round(vec![1], 4, 1, Extreme::Max);
    round.allow("a").unwrap();
    round.allow("a").unwrap();
    assert_eq!(round.allowed_players, vec!["a".to_string()]);
    round.deny("b").unwrap();
    assert_eq!(round.allowed_players, vec!["a".to_string()]);
}

#[test]
fn participants_count_distinct_rollers() {
    let mut round = scripted_round(vec![3, 7, 3, 12], 3, 1, Extreme::Max);
    for p in ["a", "b", "c", "a", "b"] {
        round.allow(p).unwrap();
        round.roll(p).unwrap();
    }
    assert_eq!(round.players.len(), 3);
    assert_eq!(round.rolls.len(), 5);
}

#[test]
fn value_groups_hold_only_effective_values() {
    let mut round = scripted_round(vec![4, 6, 11], 2, 1, Extreme::Max);
    round.allow("a").unwrap();
    round.allow("b").unwrap();
    round.roll("a").unwrap(); // a: 4
    round.roll("b").unwrap(); // b: 6
    round.roll("a").unwrap(); // a: 11, 4 is stale
    let c = round.conflict();
    let keys: Vec<u8> = c.value_groups.iter().map(|g| g.0).collect();
    assert_eq!(keys, vec![6, 11]);
    assert_eq!(group_of(&c, 4), None);
    assert_eq!(group_of(&c, 11), Some(vec!["a".to_string()]));
    assert_eq!(c.min_value, Some(6));
    assert_eq!(c.winners, vec!["a".to_string()]);
}

#[test]
fn roll_with_records_given_value_and_time() {
    let mut round = scripted_round(vec![1], 2, 1, Extreme::Max);
    round.allow("a").unwrap();
    let r = round.roll_with("a", 8, 1234).unwrap();
    assert_eq!((r.player.as_str(), r.value, r.time), ("a", 8, 1234));
    assert_eq!(round.rolls[0].value, 8);
    assert_eq!(round.roll_with("b", 8, 1).unwrap_err(), RoundError::PlayerNotAllowed);
}

#[test]
fn conflict_of_empty_round() {
    let round = scripted_round(vec![1], 2, 1, Extreme::Min);
    let c = round.conflict();
    assert_eq!(c.min_value, None);
    assert_eq!(c.max_value, None);
    assert!(c.players_roll.is_empty() && c.value_groups.is_empty());
    assert!(c.winners.is_empty() && c.conflicted.is_empty());
}

#[test]
fn analyze_groups_in_ascending_order() {
    let rolls = vec![
        Roll { time: 1, player: "x".to_string(), value: 9 },
        Roll { time: 2, player: "y".to_string(), value: 1 },
        Roll { time: 3, player: "z".to_string(), value: 9 },
        Roll { time: 4, player: "y".to_string(), value: 200 },
    ];
    let e = effective_values(&rolls);
    assert_eq!(e, vec![("x".to_string(), 9), ("y".to_string(), 200), ("z".to_string(), 9)]);
    let c = analyze(&rolls, Extreme::Min, 1);
    assert_eq!(c.value_groups.len(), 2);
    assert_eq!(c.value_groups[0].0, 9);
    assert_eq!(names(&c.value_groups[0].1), vec!["x".to_string(), "z".to_string()]);
    assert_eq!(c.value_groups[1], (200, vec!["y".to_string()]));
    assert_eq!(names(&c.conflicted), vec!["x".to_string(), "z".to_string()]);
    let c2 = analyze(&rolls, Extreme::Max, 1);
    assert_eq!(c2.winners, vec!["y".to_string()]);
}

#[test]
fn thread_rand_stays_in_range() {
    let mut rng = ThreadRand::new();
    for _ in 0..200 {
        let v = rng.rand(5, 6);
        assert!(v == 5 || v == 6);
    }
    assert_eq!(rng.rand(200, 200), 200);
    let mut round = Round0::new(3, 4, 1, 2, 1, Extreme::Max, 1, ThreadRand::new(), SystemClock::new());
    round.allow("a").unwrap();
    for _ in 0..50 {
        let r = round.roll("a").unwrap();
        assert!(r.value == 3 || r.value == 4);
    }
}

#[test]
fn system_clock_does_not_go_back() {
    let clock = SystemClock::new();
    let a = clock.now();
    let b = clock.now();
    assert!(a <= b);
}

#[test]
fn roll_log_operations() {
    let mut log: Vec<Roll> = Vec::new();
    assert_eq!(log.rolls_count(), 0);
    assert!(log.get_roll(0).is_none());
    assert_eq!(Rolls::push(&mut log, Roll { time: 5, player: "a".to_string(), value: 3 }), Ok(1));
    assert_eq!(Rolls::push(&mut log, Roll { time: 6, player: "b".to_string(), value: 4 }), Ok(2));
    assert_eq!(log.rolls_count(), 2);
    let second = log.get_roll(1).unwrap();
    assert_eq!((second.player.as_str(), second.value, second.time), ("b", 4, 6));
    assert!(log.get_roll(2).is_none());
    let snapshot = log.rolls();
    assert_eq!(snapshot.len(), 2);
    assert_eq!(snapshot[0].player, "a");
}

#[test]
fn player_set_operations() {
    let mut set: Vec<String> = Vec::new();
    let a = "a".to_string();
    let b = "b".to_string();
    assert!(!set.is_listed(&a));
    assert_eq!(RoundPlayers::insert(&mut set, &a), Ok(()));
    assert_eq!(RoundPlayers::insert(&mut set, &a), Ok(()));
    assert_eq!(RoundPlayers::insert(&mut set, &b), Ok(()));
    assert!(set.is_listed(&a));
    assert_eq!(set.list_players(), vec![a.clone(), b.clone()]);
    assert_eq!(set.revoke(&a), Ok(()));
    assert!(!set.is_listed(&a));
    assert_eq!(set.list_players(), vec![b]);
}

#[test]
fn elapsed_and_expiry() {
    let round = Round0::new(1, 6, 1, 2, 1, Extreme::Max, 100, Scripted { values: vec![1], next: 0 }, Fixed(1000));
    assert_eq!(round.started, 1000);
    assert_eq!(round.elapsed(), 0);
    assert_eq!(round.elapsed_at(1250), 250);
    assert_eq!(round.elapsed_at(10), 0);
    assert!(!round.expired_at(1099));
    assert!(round.expired_at(1100));
    assert!(!round.expired_at(5));
}

#[test]
fn resolve_keeps_winners_and_conflicted() {
    let mut round = scripted_round(vec![2, 2, 5, 1], 3, 1, Extreme::Min);
    for p in ["a", "b", "c"] {
        round.allow(p).unwrap();
        round.roll(p).unwrap();
    }
    let c = round.resolve();
    assert_eq!(names(&round.conflict), vec!["a".to_string(), "b".to_string()]);
    assert!(round.winners.is_empty());
    assert_eq!(names(&c.conflicted), names(&round.conflict));
    // the tied players roll again: a draws 1 and is alone at the minimum
    round.roll("a").unwrap();
    round.resolve();
    assert_eq!(round.winners, vec!["a".to_string()]);
    assert!(round.conflict.is_empty());
}

#[test]
fn conflict_is_repeatable_and_ordered_by_first_roll() {
    let mut round = scripted_round(vec![7, 3, 7, 7], 3, 1, Extreme::Max);
    for p in ["c", "a", "b", "c"] {
        round.allow(p).unwrap();
        round.roll(p).unwrap();
    }
    let c1 = round.conflict();
    let c2 = round.conflict();
    assert_eq!(c1.players_roll, c2.players_roll);
    assert_eq!(c1.value_groups, c2.value_groups);
    assert_eq!(c1.winners, c2.winners);
    assert_eq!(c1.conflicted, c2.conflicted);
    assert_eq!(
        c1.players_roll,
        vec![("c".to_string(), 7), ("a".to_string(), 3), ("b".to_string(), 7)]
    );
    assert_eq!(c1.value_groups, vec![(3, vec!["a".to_string()]), (7, vec!["c".to_string(), "b".to_string()])]);
    assert_eq!(c1.conflicted, vec!["c".to_string(), "b".to_string()]);
}

#[test]
fn close_at_records_the_given_time() {
    let mut round = scripted_round(vec![1], 2, 1, Extreme::Max);
    assert_eq!(round.close_at(500), Ok(()));
    assert_eq!(round.finished, Some(500));
    assert_eq!(round.close_at(900), Err(RoundError::AlreadyClosed));
    assert_eq!(round.finished, Some(500));
}

#[test]
fn new_round_defaults() {
    let round = new_round();
    assert_eq!((round.value_from, round.value_to), (1, 12));
    assert_eq!((round.max_players, round.max_winners), (0, 0));
    assert!(round.winners.is_empty() && round.conflict.is_empty());
    assert!(!round.is_closed());
}
