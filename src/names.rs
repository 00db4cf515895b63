//! Lists of player names kept free of duplicates, read as sets.

use vstd::prelude::*;
use crate::model::RoundError;

verus! {

/// The name `p` occurs in `v`.
pub open spec fn lists(v: Seq<String>, p: Seq<char>) -> bool {
    exists|i: int| 0 <= i < v.len() && (#[trigger] v[i])@ == p
}

/// No name occurs twice in `v`.
pub open spec fn distinct(v: Seq<String>) -> bool {
    forall|i: int, j: int| 0 <= i < j < v.len() ==> (#[trigger] v[i])@ != (#[trigger] v[j])@
}

/// The names of `v`, as a set.
pub open spec fn name_set(v: Seq<String>) -> Set<Seq<char>> {
    Set::new(|p: Seq<char>| lists(v, p))
}

/// Where `name` stands in `v`, if it does.
pub fn position(v: &Vec<String>, name: &String) -> (r: Option<usize>)
    ensures
        match r {
            Some(i) => i < v@.len() && v@[i as int]@ == name@,
            None => !lists(v@, name@),
        },
{
    let mut i: usize = 0;
    while i < v.len()
        invariant
            i <= v@.len(),
            forall|k: int| 0 <= k < i ==> (#[trigger] v@[k])@ != name@,
        decreases v@.len() - i,
    {
        if v[i] == *name {
            return Some(i);
        }
        i = i + 1;
    }
    None
}

/// Adds `name` to `v` unless it is there already.
pub fn insert_name(v: &mut Vec<String>, name: &String)
    requires
        distinct(old(v)@),
    ensures
        distinct(final(v)@),
        name_set(final(v)@) == name_set(old(v)@).insert(name@),
        lists(old(v)@, name@) ==> final(v)@ == old(v)@,
        !lists(old(v)@, name@) ==> final(v)@ == old(v)@.push(*name),
{
    match position(v, name) {
        Some(_) => {
            assert(name_set(v@) =~= name_set(v@).insert(name@));
        },
        None => {
            let ghost before = v@;
            v.push(name.clone());
            assert forall|p: Seq<char>| lists(v@, p) == (lists(before, p) || p == name@) by {
                if lists(before, p) {
                    let i = choose|i: int| 0 <= i < before.len() && (#[trigger] before[i])@ == p;
                    assert(v@[i] == before[i]);
                }
                if p == name@ {
                    assert(v@[before.len() as int]@ == p);
                }
            }
            assert(name_set(v@) =~= name_set(before).insert(name@));
        },
    }
}

/// Takes `name` out of `v`, if it is there.
pub fn remove_name(v: &mut Vec<String>, name: &String)
    requires
        distinct(old(v)@),
    ensures
        distinct(final(v)@),
        name_set(final(v)@) == name_set(old(v)@).remove(name@),
        final(v)@.len() <= old(v)@.len(),
{
    match position(v, name) {
        Some(i) => {
            let ghost before = v@;
            v.remove(i);
            assert(v@ =~= before.remove(i as int));
            assert forall|p: Seq<char>| lists(v@, p) == (lists(before, p) && p != name@) by {
                if lists(v@, p) {
                    let k = choose|k: int| 0 <= k < v@.len() && (#[trigger] v@[k])@ == p;
                    if k < i {
                        assert(before[k] == v@[k]);
                    } else {
                        assert(before[k + 1] == v@[k]);
                    }
                }
                if lists(before, p) && p != name@ {
                    let k = choose|k: int| 0 <= k < before.len() && (#[trigger] before[k])@ == p;
                    if k < i {
                        assert(v@[k] == before[k]);
                    } else {
                        assert(k != i);
                        assert(v@[k - 1] == before[k]);
                    }
                }
            }
            assert(name_set(v@) =~= name_set(before).remove(name@));
        },
        None => {
            assert(name_set(v@) =~= name_set(v@).remove(name@));
        },
    }
}

/// A copy of the names `v`.
pub fn copy_names(v: &Vec<String>) -> (r: Vec<String>)
    ensures
        r@ == v@,
{
    let mut r: Vec<String> = Vec::new();
    let mut k: usize = 0;
    while k < v.len()
        invariant
            k <= v@.len(),
            r@ == v@.take(k as int),
        decreases v@.len() - k,
    {
        r.push(v[k].clone());
        assert(v@.take(k + 1) =~= v@.take(k as int).push(v@[k as int]));
        k = k + 1;
    }
    assert(v@.take(v@.len() as int) =~= v@);
    r
}

/// A list of distinct names holds as many names as its set.
pub proof fn lemma_distinct_len(v: Seq<String>)
    requires
        distinct(v),
    ensures
        name_set(v).finite(),
        name_set(v).len() == v.len(),
{
    let s = v.map_values(|x: String| x@);
    assert forall|i: int, j: int| 0 <= i < s.len() && 0 <= j < s.len() && i != j implies s[i] != s[j] by {
        if i < j {
            assert(v[i]@ != v[j]@);
        } else {
            assert(v[j]@ != v[i]@);
        }
    }
    assert(s.no_duplicates());
    s.unique_seq_to_set();
    vstd::seq_lib::seq_to_set_is_finite(s);
    assert forall|p: Seq<char>| lists(v, p) == s.contains(p) by {
        if lists(v, p) {
            let i = choose|i: int| 0 <= i < v.len() && (#[trigger] v[i])@ == p;
            assert(s[i] == p);
        }
        if s.contains(p) {
            let i = choose|i: int| 0 <= i < s.len() && s[i] == p;
            assert(v[i]@ == p);
        }
    }
    assert(name_set(v) =~= s.to_set());
}

/// A set of players, such as those allowed into a round.
pub trait RoundPlayers {
    /// The players held.
    spec fn listed(&self) -> Set<Seq<char>>;

    /// The representation is sound.
    spec fn sound(&self) -> bool;

    /// Whether `player` is held.
    fn is_listed(&self, player: &String) -> (r: bool)
        requires
            self.sound(),
        ensures
            r == self.listed().contains(player@),
    ;

    /// Adds `player`; adding one held already changes nothing.
    fn insert(&mut self, player: &String) -> (r: Result<(), RoundError>)
        requires
            old(self).sound(),
        ensures
            final(self).sound(),
            final(self).listed() == old(self).listed().insert(player@),
            r is Ok,
    ;

    /// Takes `player` out, if held.
    fn revoke(&mut self, player: &String) -> (r: Result<(), RoundError>)
        requires
            old(self).sound(),
        ensures
            final(self).sound(),
            final(self).listed() == old(self).listed().remove(player@),
            r is Ok,
    ;

    /// The players held, each once.
    fn list_players(&self) -> (r: Vec<String>)
        requires
            self.sound(),
        ensures
            distinct(r@),
            name_set(r@) == self.listed(),
    ;
}

impl RoundPlayers for Vec<String> {
    open spec fn listed(&self) -> Set<Seq<char>> {
        name_set(self@)
    }

    open spec fn sound(&self) -> bool {
        distinct(self@)
    }

    fn is_listed(&self, player: &String) -> (r: bool) {
        match position(self, player) {
            Some(i) => {
                assert(lists(self@, player@));
                true
            },
            None => false,
        }
    }

    fn insert(&mut self, player: &String) -> (r: Result<(), RoundError>) {
        insert_name(self, player);
        Ok(())
    }

    fn revoke(&mut self, player: &String) -> (r: Result<(), RoundError>) {
        remove_name(self, player);
        Ok(())
    }

    fn list_players(&self) -> (r: Vec<String>) {
        let mut r: Vec<String> = Vec::new();
        let mut k: usize = 0;
        while k < self.len()
            invariant
                k <= self@.len(),
                r@ == self@.take(k as int),
            decreases self@.len() - k,
        {
            r.push(self[k].clone());
            assert(self@.take(k + 1) =~= self@.take(k as int).push(self@[k as int]));
            k = k + 1;
        }
        assert(self@.take(self@.len() as int) =~= self@);
        r
    }
}

} // verus!
