//! A round of play: who may roll, who has rolled, and every roll made.

use vstd::prelude::*;
use crate::capability::{Now, Rand, SystemClock, ThreadRand};
use crate::conflict::{Conflict, analysis, analyze, group, grouped};
use crate::names::{RoundPlayers, copy_names, distinct, lemma_distinct_len, lists, name_set};

verus! {

/// Why a call on a round, or on a registry, was refused.
#[derive(Clone, Copy, Debug, PartialEq, Eq, Structural)]
pub enum RoundError {
    /// The round is closed: it no longer changes.
    AlreadyClosed,
    /// The player is not on the round's list of allowed players.
    PlayerNotAllowed,
    /// A new participant would exceed the round's `max_players`.
    CapacityExceeded,
    /// The name is registered already.
    AlreadyExists,
    /// No entry has that name.
    NotFound,
}

/// Which end of the value range wins.
#[derive(Clone, Copy, Debug, PartialEq, Eq, Structural)]
pub enum Extreme {
    Min,
    Max,
}

/// One roll of the dice by one player.
#[derive(Debug)]
pub struct Roll {
    /// When the roll was made, by the round's clock.
    pub time: u64,
    /// Who rolled.
    pub player: String,
    /// The value that came up.
    pub value: u8,
}

impl Roll {
    /// A copy of this roll.
    pub fn duplicate(&self) -> (r: Roll)
        ensures
            r == *self,
    {
        Roll { time: self.time, player: self.player.clone(), value: self.value }
    }
}

/// An append-only log of rolls.
pub trait Rolls {
    /// The rolls held, oldest first.
    spec fn log(&self) -> Seq<Roll>;

    /// A copy of the rolls, oldest first.
    fn rolls(&self) -> (r: Vec<Roll>)
        ensures
            r@ == self.log(),
    ;

    /// How many rolls the log holds.
    fn rolls_count(&self) -> (r: usize)
        ensures
            r == self.log().len(),
    ;

    /// A copy of the roll at `idx`, if there is one.
    fn get_roll(&self, idx: usize) -> (r: Option<Roll>)
        ensures
            idx < self.log().len() ==> r == Some(self.log()[idx as int]),
            idx >= self.log().len() ==> r is None,
    ;

    /// Appends `roll` and answers how many rolls the log now holds.
    fn push(&mut self, roll: Roll) -> (r: Result<usize, RoundError>)
        ensures
            final(self).log() == old(self).log().push(roll),
            r == Ok::<usize, RoundError>(final(self).log().len() as usize),
    ;
}

impl Rolls for Vec<Roll> {
    open spec fn log(&self) -> Seq<Roll> {
        self@
    }

    fn rolls(&self) -> (r: Vec<Roll>) {
        let mut r: Vec<Roll> = Vec::new();
        let mut k: usize = 0;
        while k < self.len()
            invariant
                k <= self@.len(),
                r@ == self@.take(k as int),
            decreases self@.len() - k,
        {
            r.push(self[k].duplicate());
            assert(self@.take(k + 1) =~= self@.take(k as int).push(self@[k as int]));
            k = k + 1;
        }
        assert(self@.take(self@.len() as int) =~= self@);
        r
    }

    fn rolls_count(&self) -> (r: usize) {
        self.len()
    }

    fn get_roll(&self, idx: usize) -> (r: Option<Roll>) {
        if idx < self.len() {
            Some(self[idx].duplicate())
        } else {
            None
        }
    }

    fn push(&mut self, roll: Roll) -> (r: Result<usize, RoundError>) {
        Vec::push(self, roll);
        Ok(self.len())
    }
}

/// A round of the game.
pub struct Round0<R, N> {
    /// Every roll made, in the order they were made.
    pub rolls: Vec<Roll>,
    /// Lowest value of the dice.
    pub value_from: u8,
    /// Highest value of the dice.
    pub value_to: u8,
    /// When the round started.
    pub started: u64,
    /// When the round was closed, once it is.
    pub finished: Option<u64>,
    /// How long the round may last, in milliseconds.
    pub time_limit: u64,
    /// Fewest participants for the round to end properly.
    pub min_players: u8,
    /// Most participants the round admits.
    pub max_players: u8,
    /// Players allowed to roll.
    pub allowed_players: Vec<String>,
    /// Most winners the round may have.
    pub max_winners: u8,
    /// Whether the lowest or the highest value wins.
    pub winning_extreme: Extreme,
    /// The source of dice values.
    pub rnd: R,
    /// The clock.
    pub clock: N,
    /// Players who have rolled at least once.
    pub players: Vec<String>,
    /// The winners, as last resolved.
    pub winners: Vec<String>,
    /// The players who must roll again, as last resolved.
    pub conflict: Vec<String>,
}

/// Some roll of `rolls` was made by `p`.
pub open spec fn rolled(rolls: Seq<Roll>, p: Seq<char>) -> bool {
    exists|j: int| 0 <= j < rolls.len() && (#[trigger] rolls[j]).player@ == p
}

/// The players who made some roll of `rolls`.
pub open spec fn rollers(rolls: Seq<Roll>) -> Set<Seq<char>> {
    Set::new(|p: Seq<char>| rolled(rolls, p))
}

/// The value of the latest roll by `p` in `rolls`: the player's effective value.
pub open spec fn last_value(rolls: Seq<Roll>, p: Seq<char>) -> u8
    decreases rolls.len(),
{
    if rolls.len() == 0 {
        0
    } else if rolls.last().player@ == p {
        rolls.last().value
    } else {
        last_value(rolls.drop_last(), p)
    }
}

impl<R, N> Round0<R, N> {
    /// The state every round keeps: names listed once, every roll by a
    /// participant and inside the dice's range.
    pub open spec fn wf(&self) -> bool {
        &&& self.value_from <= self.value_to
        &&& distinct(self.allowed_players@)
        &&& distinct(self.players@)
        &&& name_set(self.players@) == rollers(self.rolls@)
        &&& forall|j: int|
            0 <= j < self.rolls@.len() ==> self.value_from <= (#[trigger] self.rolls@[j]).value
                <= self.value_to
    }

    /// The allowed players, as a set.
    pub open spec fn allowed(&self) -> Set<Seq<char>> {
        name_set(self.allowed_players@)
    }

    /// The participants, as a set.
    pub open spec fn participants(&self) -> Set<Seq<char>> {
        name_set(self.players@)
    }

    pub open spec fn closed(&self) -> bool {
        self.finished is Some
    }

    /// The two rounds were set up alike: same dice, limits, start and rule.
    pub open spec fn same_settings(&self, other: &Self) -> bool {
        &&& self.value_from == other.value_from
        &&& self.value_to == other.value_to
        &&& self.started == other.started
        &&& self.time_limit == other.time_limit
        &&& self.min_players == other.min_players
        &&& self.max_players == other.max_players
        &&& self.max_winners == other.max_winners
        &&& self.winning_extreme == other.winning_extreme
    }

    /// The other round differs from this one in its allowed players at most.
    pub open spec fn same_play(&self, other: &Self) -> bool {
        &&& self.same_settings(other)
        &&& self.rolls@ == other.rolls@
        &&& self.players@ == other.players@
        &&& self.finished == other.finished
        &&& self.winners@ == other.winners@
        &&& self.conflict@ == other.conflict@
        &&& self.rnd == other.rnd
        &&& self.clock == other.clock
    }

    /// What a refused `roll` by `p` answers, if it is refused.
    pub open spec fn refusal(&self, p: Seq<char>) -> Option<RoundError> {
        if self.closed() {
            Some(RoundError::AlreadyClosed)
        } else if !self.allowed().contains(p) {
            Some(RoundError::PlayerNotAllowed)
        } else if !self.participants().contains(p) && self.players@.len() >= self.max_players {
            Some(RoundError::CapacityExceeded)
        } else {
            None
        }
    }

    /// Whether the round is closed.
    pub fn is_closed(&self) -> (r: bool)
        ensures
            r == self.closed(),
    {
        self.finished.is_some()
    }

    /// Allows `player` to roll.
    pub fn allow(&mut self, player: &str) -> (r: Result<(), RoundError>)
        requires
            old(self).wf(),
        ensures
            final(self).wf(),
            final(self).same_play(old(self)),
            old(self).closed() ==> r == Err::<(), RoundError>(RoundError::AlreadyClosed)
                && *final(self) == *old(self),
            !old(self).closed() ==> r is Ok && final(self).allowed() == old(self).allowed().insert(
                player@,
            ),
    {
        if self.is_closed() {
            return Err(RoundError::AlreadyClosed);
        }
        let name = player.to_owned();
        RoundPlayers::insert(&mut self.allowed_players, &name)
    }

    /// Takes `player` off the list of allowed players. Rolls already made stay.
    pub fn deny(&mut self, player: &str) -> (r: Result<(), RoundError>)
        requires
            old(self).wf(),
        ensures
            final(self).wf(),
            final(self).same_play(old(self)),
            old(self).closed() ==> r == Err::<(), RoundError>(RoundError::AlreadyClosed)
                && *final(self) == *old(self),
            !old(self).closed() ==> r is Ok && final(self).allowed() == old(self).allowed().remove(
                player@,
            ),
    {
        if self.is_closed() {
            return Err(RoundError::AlreadyClosed);
        }
        let name = player.to_owned();
        self.allowed_players.revoke(&name)
    }

    /// Checks that `name` may roll now; `Ok(true)` when they would be a new
    /// participant.
    fn check_roll(&self, name: &String) -> (r: Result<bool, RoundError>)
        requires
            self.wf(),
        ensures
            match self.refusal(name@) {
                Some(e) => r == Err::<bool, RoundError>(e),
                None => r == Ok::<bool, RoundError>(!self.participants().contains(name@)),
            },
    {
        if self.is_closed() {
            return Err(RoundError::AlreadyClosed);
        }
        if !self.allowed_players.is_listed(name) {
            return Err(RoundError::PlayerNotAllowed);
        }
        if self.players.is_listed(name) {
            Ok(false)
        } else if self.players.len() >= self.max_players as usize {
            Err(RoundError::CapacityExceeded)
        } else {
            Ok(true)
        }
    }

    /// Appends the roll of `value` at `time` by `name`, who becomes a
    /// participant if `fresh`.
    fn append(&mut self, name: &String, fresh: bool, value: u8, time: u64) -> (r: Roll)
        requires
            old(self).wf(),
            old(self).value_from <= value <= old(self).value_to,
            fresh == !old(self).participants().contains(name@),
        ensures
            final(self).wf(),
            r == (Roll { time, player: *name, value }),
            final(self).rolls@ == old(self).rolls@.push(r),
            final(self).players@ == (if fresh {
                old(self).players@.push(*name)
            } else {
                old(self).players@
            }),
            final(self).participants() == old(self).participants().insert(name@),
            final(self).allowed_players@ == old(self).allowed_players@,
            final(self).finished == old(self).finished,
            final(self).same_settings(old(self)),
            final(self).winners@ == old(self).winners@,
            final(self).conflict@ == old(self).conflict@,
            final(self).rnd == old(self).rnd,
            final(self).clock == old(self).clock,
    {
        let ghost before = self.rolls@;
        let ghost players_before = self.players@;
        if fresh {
            self.players.push(name.clone());
            proof {
                assert forall|p: Seq<char>| lists(self.players@, p) == (lists(players_before, p) || p == name@) by {
                    if lists(players_before, p) {
                        let i = choose|i: int| 0 <= i < players_before.len() && (#[trigger] players_before[i])@ == p;
                        assert(self.players@[i] == players_before[i]);
                    }
                    if p == name@ {
                        assert(self.players@[players_before.len() as int]@ == p);
                    }
                }
                assert(name_set(self.players@) =~= name_set(players_before).insert(name@));
            }
        } else {
            assert(name_set(players_before).insert(name@) =~= name_set(players_before));
        }
        let roll = Roll { time, player: name.clone(), value };
        let r = roll.duplicate();
        let _ = Rolls::push(&mut self.rolls, roll);
        proof {
            assert forall|p: Seq<char>| rolled(self.rolls@, p) == (rolled(before, p) || p == name@) by {
                if rolled(before, p) {
                    let j = choose|j: int| 0 <= j < before.len() && (#[trigger] before[j]).player@ == p;
                    assert(self.rolls@[j] == before[j]);
                }
                if p == name@ {
                    assert(self.rolls@[before.len() as int].player@ == p);
                }
            }
            assert(rollers(self.rolls@) =~= rollers(before).insert(name@));
            assert forall|j: int| 0 <= j < self.rolls@.len() implies self.value_from <= (#[trigger] self.rolls@[j]).value <= self.value_to by {
                if j < before.len() {
                    assert(self.rolls@[j] == before[j]);
                }
            }
        }
        r
    }

    /// `after` is this round with the roll `r` by `p` appended.
    pub open spec fn rolled_into(&self, after: &Self, r: Roll, p: Seq<char>) -> bool {
        &&& r.player@ == p
        &&& after.rolls@ == self.rolls@.push(r)
        &&& after.participants() == self.participants().insert(p)
        &&& after.players@.len() == self.players@.len() + if self.participants().contains(p) {
            0int
        } else {
            1int
        }
        &&& after.allowed_players@ == self.allowed_players@
        &&& after.finished == self.finished
        &&& after.same_settings(self)
        &&& after.winners@ == self.winners@
        &&& after.conflict@ == self.conflict@
    }

    /// The analysis of the rolls so far under the round's winning extreme
    /// and `max_winners`.
    pub fn conflict(&self) -> (c: Conflict)
        ensures
            analysis(self.rolls@, self.winning_extreme, self.max_winners, c),
    {
        analyze(&self.rolls, self.winning_extreme, self.max_winners)
    }

    /// Time from the start of the round to `now`; none before the start.
    pub fn elapsed_at(&self, now: u64) -> (r: u64)
        ensures
            r == if now >= self.started {
                (now - self.started) as u64
            } else {
                0
            },
    {
        if now >= self.started {
            now - self.started
        } else {
            0
        }
    }

    /// Whether the round's time limit has run out at `now`.
    pub fn expired_at(&self, now: u64) -> (r: bool)
        ensures
            r == (now >= self.started && now - self.started >= self.time_limit),
    {
        self.elapsed_at(now) >= self.time_limit && now >= self.started
    }

    /// Analyses the rolls so far, as `conflict` does, and keeps the
    /// winners and the players who must roll again.
    pub fn resolve(&mut self) -> (c: Conflict)
        requires
            old(self).wf(),
        ensures
            final(self).wf(),
            final(self).same_settings(old(self)),
            final(self).rolls@ == old(self).rolls@,
            final(self).players@ == old(self).players@,
            final(self).allowed_players@ == old(self).allowed_players@,
            final(self).finished == old(self).finished,
            final(self).rnd == old(self).rnd,
            final(self).clock == old(self).clock,
            analysis(old(self).rolls@, old(self).winning_extreme, old(self).max_winners, c),
            final(self).winners@ == c.winners@,
            final(self).conflict@ == c.conflicted@,
    {
        let c = self.conflict();
        self.winners = copy_names(&c.winners);
        self.conflict = copy_names(&c.conflicted);
        c
    }

    /// Closes the round at `time`. A round closes once: a second call is
    /// refused and leaves the round as it was.
    pub fn close_at(&mut self, time: u64) -> (r: Result<(), RoundError>)
        requires
            old(self).wf(),
        ensures
            final(self).wf(),
            old(self).closed() ==> r == Err::<(), RoundError>(RoundError::AlreadyClosed)
                && *final(self) == *old(self),
            !old(self).closed() ==> r is Ok && final(self).finished == Some(time)
                && final(self).same_settings(old(self)) && final(self).rolls@ == old(self).rolls@
                && final(self).players@ == old(self).players@ && final(self).allowed_players@
                == old(self).allowed_players@ && final(self).winners@ == old(self).winners@
                && final(self).conflict@ == old(self).conflict@ && final(self).rnd == old(self).rnd
                && final(self).clock == old(self).clock,
    {
        if self.is_closed() {
            return Err(RoundError::AlreadyClosed);
        }
        self.finished = Some(time);
        Ok(())
    }

    /// Rolls for `player`, with `value` come up at `time`: the round's rules
    /// apart from where the value and the time come from.
    pub fn roll_with(&mut self, player: &str, value: u8, time: u64) -> (r: Result<Roll, RoundError>)
        requires
            old(self).wf(),
            old(self).value_from <= value <= old(self).value_to,
        ensures
            final(self).wf(),
            match old(self).refusal(player@) {
                Some(e) => r == Err::<Roll, RoundError>(e) && *final(self) == *old(self),
                None => r is Ok && old(self).rolled_into(final(self), r->Ok_0, player@)
                    && r->Ok_0.value == value && r->Ok_0.time == time && final(self).rnd == old(
                    self,
                ).rnd && final(self).clock == old(self).clock,
            },
    {
        let name = player.to_owned();
        let fresh = match self.check_roll(&name) {
            Ok(b) => b,
            Err(e) => {
                return Err(e);
            },
        };
        let r = self.append(&name, fresh, value, time);
        Ok(r)
    }
}

impl<R: Rand, N: Now> Round0<R, N> {
    /// An open round with no players and no rolls, started now by `clock`.
    pub fn new(
        value_from: u8,
        value_to: u8,
        min_players: u8,
        max_players: u8,
        max_winners: u8,
        winning_extreme: Extreme,
        time_limit: u64,
        rnd: R,
        clock: N,
    ) -> (r: Self)
        requires
            value_from <= value_to,
        ensures
            r.wf(),
            !r.closed(),
            r.rolls@.len() == 0,
            r.players@.len() == 0,
            r.allowed_players@.len() == 0,
            r.winners@.len() == 0,
            r.conflict@.len() == 0,
            r.value_from == value_from,
            r.value_to == value_to,
            r.min_players == min_players,
            r.max_players == max_players,
            r.max_winners == max_winners,
            r.winning_extreme == winning_extreme,
            r.time_limit == time_limit,
            r.rnd == rnd,
            r.clock == clock,
    {
        let started = clock.now();
        let r = Round0 {
            rolls: Vec::new(),
            value_from,
            value_to,
            started,
            finished: None,
            time_limit,
            min_players,
            max_players,
            allowed_players: Vec::new(),
            max_winners,
            winning_extreme,
            rnd,
            clock,
            players: Vec::new(),
            winners: Vec::new(),
            conflict: Vec::new(),
        };
        assert(name_set(r.players@) =~= rollers(r.rolls@));
        r
    }

    /// Rolls the dice for `player`: refused on a closed round, for a player
    /// who is not allowed, and for a new participant beyond `max_players`.
    /// Otherwise the roll, with a value drawn from the dice's range and the
    /// clock's time, is appended to the log and returned.
    pub fn roll(&mut self, player: &str) -> (r: Result<Roll, RoundError>)
        requires
            old(self).wf(),
        ensures
            final(self).wf(),
            match old(self).refusal(player@) {
                Some(e) => r == Err::<Roll, RoundError>(e) && *final(self) == *old(self),
                None => r is Ok && old(self).rolled_into(final(self), r->Ok_0, player@)
                    && old(self).value_from <= r->Ok_0.value <= old(self).value_to
                    && final(self).clock == old(self).clock,
            },
    {
        let name = player.to_owned();
        if let Err(e) = self.check_roll(&name) {
            return Err(e);
        }
        let value = self.rnd.rand(self.value_from, self.value_to);
        let time = self.clock.now();
        self.roll_with(player, value, time)
    }

    /// Time since the round started, by its clock.
    pub fn elapsed(&self) -> u64 {
        self.elapsed_at(self.clock.now())
    }

    /// Closes the round now. A round closes once: a second call is refused.
    pub fn close(&mut self) -> (r: Result<(), RoundError>)
        requires
            old(self).wf(),
        ensures
            final(self).wf(),
            final(self).closed(),
            old(self).closed() ==> r == Err::<(), RoundError>(RoundError::AlreadyClosed)
                && *final(self) == *old(self),
            !old(self).closed() ==> r is Ok && final(self).same_settings(old(self))
                && final(self).rolls@ == old(self).rolls@ && final(self).players@ == old(
                self,
            ).players@ && final(self).allowed_players@ == old(self).allowed_players@
                && final(self).winners@ == old(self).winners@ && final(self).conflict@ == old(
                self,
            ).conflict@ && final(self).rnd == old(self).rnd && final(self).clock == old(
                self,
            ).clock,
    {
        if self.is_closed() {
            return Err(RoundError::AlreadyClosed);
        }
        let time = self.clock.now();
        self.close_at(time)
    }
}

/// An open round on the system's generator and clock: dice from 1 to 12,
/// the highest value wins, an hour to play, and room for no participant
/// and no winner until `max_players` and `max_winners` are raised.
pub fn new_round() -> (r: Round0<ThreadRand, SystemClock>)
    ensures
        r.wf(),
        !r.closed(),
        r.rolls@.len() == 0,
        r.players@.len() == 0,
        r.allowed_players@.len() == 0,
        r.winners@.len() == 0,
        r.conflict@.len() == 0,
        r.value_from == 1,
        r.value_to == 12,
        r.max_players == 0,
        r.max_winners == 0,
        r.winning_extreme == Extreme::Max,
{
    Round0::new(1, 12, 0, 0, 0, Extreme::Max, 3_600_000, ThreadRand::new(), SystemClock::new())
}

/// A round has as many participants as there are distinct players among
/// its rolls.
pub proof fn lemma_participants_count<R, N>(round: &Round0<R, N>)
    requires
        round.wf(),
    ensures
        round.players@.len() == rollers(round.rolls@).len(),
{
    lemma_distinct_len(round.players@);
}

/// Once a round is closed, every roll is refused as `AlreadyClosed`, and a
/// refused roll leaves the round as it was (see `roll`).
pub proof fn lemma_closed_refuses<R, N>(round: &Round0<R, N>, p: Seq<char>)
    requires
        round.closed(),
    ensures
        round.refusal(p) == Some(RoundError::AlreadyClosed),
{
}

/// On an open round, a player who is not allowed is refused as
/// `PlayerNotAllowed`.
pub proof fn lemma_not_allowed_refused<R, N>(round: &Round0<R, N>, p: Seq<char>)
    requires
        !round.closed(),
        !round.allowed().contains(p),
    ensures
        round.refusal(p) == Some(RoundError::PlayerNotAllowed),
{
}

/// A roll by a participant keeps the number of participants and adds
/// exactly one roll to the log.
pub proof fn lemma_reroll<R, N>(before: &Round0<R, N>, after: &Round0<R, N>, r: Roll, p: Seq<char>)
    requires
        before.participants().contains(p),
        before.rolled_into(after, r, p),
    ensures
        after.players@.len() == before.players@.len(),
        after.participants() == before.participants(),
        after.rolls@.len() == before.rolls@.len() + 1,
{
    assert(before.participants().insert(p) =~= before.participants());
}

/// The values that head the groups of an analysis are exactly the effective
/// values of the players who rolled: a value that was superseded heads no group.
pub proof fn lemma_group_values(rs: Seq<Roll>, g: Seq<(u8, Vec<String>)>, v: u8)
    requires
        grouped(rs, g),
    ensures
        (exists|a: int| 0 <= a < g.len() && (#[trigger] g[a]).0 == v) <==> (exists|p: Seq<char>|
            rolled(rs, p) && last_value(rs, p) == v),
{
    if exists|a: int| 0 <= a < g.len() && (#[trigger] g[a]).0 == v {
        let a = choose|a: int| 0 <= a < g.len() && (#[trigger] g[a]).0 == v;
        let q = g[a].1@[0]@;
        assert(lists(g[a].1@, q));
        assert(name_set(g[a].1@).contains(q));
        assert(group(rs, v).contains(q));
    }
    if exists|p: Seq<char>| rolled(rs, p) && last_value(rs, p) == v {
        let p = choose|p: Seq<char>| rolled(rs, p) && last_value(rs, p) == v;
        assert(rolled(rs, p));
    }
}

} // verus!
