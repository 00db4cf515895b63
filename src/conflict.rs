//! Who wins a round: each participant's latest roll counts, players are
//! grouped by that value, and the winning extreme decides.

use vstd::prelude::*;
use crate::model::{Extreme, Roll, last_value, rolled, rollers};
use crate::names::{distinct, lemma_distinct_len, lists, name_set};

verus! {

/// What the rolls of a round show.
#[derive(Debug)]
pub struct Conflict {
    /// The lowest effective value, if anyone rolled.
    pub min_value: Option<u8>,
    /// The highest effective value, if anyone rolled.
    pub max_value: Option<u8>,
    /// Each participant once, with their effective value.
    pub players_roll: Vec<(String, u8)>,
    /// For each effective value, from the lowest up, the players who hold it.
    pub value_groups: Vec<(u8, Vec<String>)>,
    /// The winners, when no more players than `max_winners` share the
    /// winning value.
    pub winners: Vec<String>,
    /// The players sharing the winning value when too many do: they roll again.
    pub conflicted: Vec<String>,
}

/// The players of `rs` whose effective value is `v`.
pub open spec fn group(rs: Seq<Roll>, v: u8) -> Set<Seq<char>> {
    Set::new(|p: Seq<char>| rolled(rs, p) && last_value(rs, p) == v)
}

/// The players of `rs`, each once, in the order of their first roll.
pub open spec fn roll_order(rs: Seq<Roll>) -> Seq<Seq<char>>
    decreases rs.len(),
{
    if rs.len() == 0 {
        Seq::empty()
    } else if rolled(rs.drop_last(), rs.last().player@) {
        roll_order(rs.drop_last())
    } else {
        roll_order(rs.drop_last()).push(rs.last().player@)
    }
}

/// Each player of `rs` with their effective value, in the order of their
/// first roll.
pub open spec fn effective_seq(rs: Seq<Roll>) -> Seq<(Seq<char>, u8)> {
    roll_order(rs).map_values(|p: Seq<char>| (p, last_value(rs, p)))
}

/// The names of `e`, in order.
pub open spec fn pair_names(e: Seq<(String, u8)>) -> Seq<Seq<char>> {
    e.map_values(|x: (String, u8)| x.0@)
}

/// `e` read as names with values.
pub open spec fn pairs_view(e: Seq<(String, u8)>) -> Seq<(Seq<char>, u8)> {
    e.map_values(|x: (String, u8)| (x.0@, x.1))
}

/// `e` lists each player of `rs` once, with their effective value.
pub open spec fn effective_list(rs: Seq<Roll>, e: Seq<(String, u8)>) -> bool {
    &&& forall|a: int, b: int|
        0 <= a < b < e.len() ==> (#[trigger] e[a]).0@ != (#[trigger] e[b]).0@
    &&& forall|k: int|
        0 <= k < e.len() ==> rolled(rs, (#[trigger] e[k]).0@) && e[k].1 == last_value(rs, e[k].0@)
    &&& forall|p: Seq<char>|
        #[trigger] rolled(rs, p) ==> exists|k: int| 0 <= k < e.len() && (#[trigger] e[k]).0@ == p
}

/// `g` holds, from the lowest value up, each effective value of `rs` with
/// the players who hold it.
pub open spec fn grouped(rs: Seq<Roll>, g: Seq<(u8, Vec<String>)>) -> bool {
    &&& forall|a: int, b: int| 0 <= a < b < g.len() ==> (#[trigger] g[a]).0 < (#[trigger] g[b]).0
    &&& forall|a: int|
        0 <= a < g.len() ==> distinct((#[trigger] g[a]).1@) && g[a].1@.len() > 0 && name_set(
            g[a].1@,
        ) == group(rs, g[a].0)
    &&& forall|p: Seq<char>|
        #[trigger] rolled(rs, p) ==> exists|a: int|
            0 <= a < g.len() && (#[trigger] g[a]).0 == last_value(rs, p)
}

/// `m` is the lowest effective value of `rs`.
pub open spec fn is_min(rs: Seq<Roll>, m: u8) -> bool {
    &&& exists|p: Seq<char>| rolled(rs, p) && last_value(rs, p) == m
    &&& forall|p: Seq<char>| #[trigger] rolled(rs, p) ==> m <= last_value(rs, p)
}

/// `m` is the highest effective value of `rs`.
pub open spec fn is_max(rs: Seq<Roll>, m: u8) -> bool {
    &&& exists|p: Seq<char>| rolled(rs, p) && last_value(rs, p) == m
    &&& forall|p: Seq<char>| #[trigger] rolled(rs, p) ==> last_value(rs, p) <= m
}

/// `extreme` reached at `m`, when `m` is there.
pub open spec fn is_extreme(rs: Seq<Roll>, extreme: Extreme, m: Option<u8>) -> bool {
    match m {
        None => rs.len() == 0,
        Some(v) => if extreme == Extreme::Min {
            is_min(rs, v)
        } else {
            is_max(rs, v)
        },
    }
}

/// `c` is the analysis of the rolls `rs` under `extreme` and `max_winners`:
/// every list in it holds its players in the order of their first roll.
pub open spec fn analysis(rs: Seq<Roll>, extreme: Extreme, max_winners: u8, c: Conflict) -> bool {
    &&& is_extreme(rs, Extreme::Min, c.min_value)
    &&& is_extreme(rs, Extreme::Max, c.max_value)
    &&& effective_list(rs, c.players_roll@)
    &&& pairs_view(c.players_roll@) == effective_seq(rs)
    &&& grouped(rs, c.value_groups@)
    &&& groups_view(c.value_groups@) == groups_below(effective_seq(rs), 256)
    &&& distinct(c.winners@)
    &&& distinct(c.conflicted@)
    &&& match (if extreme == Extreme::Min {
        c.min_value
    } else {
        c.max_value
    }) {
        None => c.winners@.len() == 0 && c.conflicted@.len() == 0,
        Some(t) => if group(rs, t).len() <= max_winners {
            name_set(c.winners@) == group(rs, t) && names_of(c.winners@) == keyed(
                effective_seq(rs),
                t,
            ) && c.conflicted@.len() == 0
        } else {
            c.winners@.len() == 0 && name_set(c.conflicted@) == group(rs, t) && names_of(
                c.conflicted@,
            ) == keyed(effective_seq(rs), t)
        },
    }
}

/// `c` read as plain values.
pub open spec fn conflict_view(c: Conflict) -> (
    Option<u8>,
    Option<u8>,
    Seq<(Seq<char>, u8)>,
    Seq<(u8, Seq<Seq<char>>)>,
    Seq<Seq<char>>,
    Seq<Seq<char>>,
) {
    (
        c.min_value,
        c.max_value,
        pairs_view(c.players_roll@),
        groups_view(c.value_groups@),
        names_of(c.winners@),
        names_of(c.conflicted@),
    )
}

/// The analysis of a log is one: two analyses of the same rolls under the
/// same rule hold the same values, in the same order.
pub proof fn lemma_analysis_deterministic(
    rs: Seq<Roll>,
    extreme: Extreme,
    max_winners: u8,
    c1: Conflict,
    c2: Conflict,
)
    requires
        analysis(rs, extreme, max_winners, c1),
        analysis(rs, extreme, max_winners, c2),
    ensures
        conflict_view(c1) == conflict_view(c2),
{
    if let (Some(a), Some(b)) = (c1.min_value, c2.min_value) {
        let p = choose|p: Seq<char>| rolled(rs, p) && last_value(rs, p) == a;
        let q = choose|q: Seq<char>| rolled(rs, q) && last_value(rs, q) == b;
        assert(b <= last_value(rs, p));
        assert(a <= last_value(rs, q));
    }
    if let (Some(a), Some(b)) = (c1.max_value, c2.max_value) {
        let p = choose|p: Seq<char>| rolled(rs, p) && last_value(rs, p) == a;
        let q = choose|q: Seq<char>| rolled(rs, q) && last_value(rs, q) == b;
        assert(last_value(rs, p) <= b);
        assert(last_value(rs, q) <= a);
    }
    if c1.min_value is Some && c2.min_value is None {
        let p = choose|p: Seq<char>| rolled(rs, p) && last_value(rs, p) == c1.min_value->Some_0;
    }
    if c2.min_value is Some && c1.min_value is None {
        let p = choose|p: Seq<char>| rolled(rs, p) && last_value(rs, p) == c2.min_value->Some_0;
    }
    if c1.max_value is Some && c2.max_value is None {
        let p = choose|p: Seq<char>| rolled(rs, p) && last_value(rs, p) == c1.max_value->Some_0;
    }
    if c2.max_value is Some && c1.max_value is None {
        let p = choose|p: Seq<char>| rolled(rs, p) && last_value(rs, p) == c2.max_value->Some_0;
    }
    assert(names_of(c1.winners@) =~= names_of(c2.winners@));
    assert(names_of(c1.conflicted@) =~= names_of(c2.conflicted@));
}

/// Appending `r` to `rs` adds its player, whose effective value becomes `r`'s.
pub proof fn lemma_push_roll(rs: Seq<Roll>, r: Roll, p: Seq<char>)
    ensures
        rolled(rs.push(r), p) == (rolled(rs, p) || p == r.player@),
        last_value(rs.push(r), p) == if p == r.player@ {
            r.value
        } else {
            last_value(rs, p)
        },
{
    let rs2 = rs.push(r);
    assert(rs2.drop_last() =~= rs);
    if rolled(rs, p) {
        let j = choose|j: int| 0 <= j < rs.len() && (#[trigger] rs[j]).player@ == p;
        assert(rs2[j] == rs[j]);
    }
    if p == r.player@ {
        assert(rs2[rs.len() as int].player@ == p);
    }
    if rolled(rs2, p) && p != r.player@ {
        let j = choose|j: int| 0 <= j < rs2.len() && (#[trigger] rs2[j]).player@ == p;
        assert(rs[j] == rs2[j]);
    }
}

/// Where `name` stands in `e`, if it does.
fn find_player(e: &Vec<(String, u8)>, name: &String) -> (r: Option<usize>)
    ensures
        match r {
            Some(k) => k < e@.len() && e@[k as int].0@ == name@,
            None => forall|k: int| 0 <= k < e@.len() ==> (#[trigger] e@[k]).0@ != name@,
        },
{
    let mut k: usize = 0;
    while k < e.len()
        invariant
            k <= e@.len(),
            forall|j: int| 0 <= j < k ==> (#[trigger] e@[j]).0@ != name@,
        decreases e@.len() - k,
    {
        if e[k].0 == *name {
            return Some(k);
        }
        k = k + 1;
    }
    None
}

/// Each player of `rolls` once, with the value of their latest roll.
pub fn effective_values(rolls: &Vec<Roll>) -> (e: Vec<(String, u8)>)
    ensures
        effective_list(rolls@, e@),
        pairs_view(e@) == effective_seq(rolls@),
{
    let mut e: Vec<(String, u8)> = Vec::new();
    let mut i: usize = 0;
    while i < rolls.len()
        invariant
            i <= rolls@.len(),
            effective_list(rolls@.take(i as int), e@),
            pair_names(e@) == roll_order(rolls@.take(i as int)),
        decreases rolls@.len() - i,
    {
        let ghost before = rolls@.take(i as int);
        let ghost e0 = e@;
        let ghost r = rolls@[i as int];
        assert(rolls@.take(i + 1) =~= before.push(r));
        let ghost after = rolls@.take(i + 1);
        assert(after.drop_last() =~= before);
        let name = rolls[i].player.clone();
        let value = rolls[i].value;
        match find_player(&e, &name) {
            Some(k) => {
                e[k] = (name, value);
                proof {
                    assert(rolled(before, e0[k as int].0@));
                    assert(pair_names(e@) =~= pair_names(e0));
                    assert forall|k2: int| 0 <= k2 < e@.len() implies rolled(after, (#[trigger] e@[k2]).0@)
                        && e@[k2].1 == last_value(after, e@[k2].0@) by {
                        lemma_push_roll(before, r, e@[k2].0@);
                        if k2 != k {
                            assert(e@[k2] == e0[k2]);
                        }
                    }
                    assert forall|p: Seq<char>| #[trigger] rolled(after, p) implies exists|k2: int|
                        0 <= k2 < e@.len() && (#[trigger] e@[k2]).0@ == p by {
                        lemma_push_roll(before, r, p);
                        if p == r.player@ {
                            assert(e@[k as int].0@ == p);
                        } else {
                            let k2 = choose|k2: int| 0 <= k2 < e0.len() && (#[trigger] e0[k2]).0@ == p;
                            assert(e@[k2] == e0[k2]);
                        }
                    }
                    assert forall|a: int, b: int| 0 <= a < b < e@.len() implies (#[trigger] e@[a]).0@
                        != (#[trigger] e@[b]).0@ by {
                        assert(e0[a].0@ != e0[b].0@);
                    }
                }
            },
            None => {
                e.push((name, value));
                proof {
                    if rolled(before, r.player@) {
                        let k2 = choose|k2: int| 0 <= k2 < e0.len() && (#[trigger] e0[k2]).0@ == r.player@;
                    }
                    assert(pair_names(e@) =~= pair_names(e0).push(r.player@));
                    assert forall|k2: int| 0 <= k2 < e@.len() implies rolled(after, (#[trigger] e@[k2]).0@)
                        && e@[k2].1 == last_value(after, e@[k2].0@) by {
                        lemma_push_roll(before, r, e@[k2].0@);
                        if k2 < e0.len() {
                            assert(e@[k2] == e0[k2]);
                        }
                    }
                    assert forall|p: Seq<char>| #[trigger] rolled(after, p) implies exists|k2: int|
                        0 <= k2 < e@.len() && (#[trigger] e@[k2]).0@ == p by {
                        lemma_push_roll(before, r, p);
                        if p == r.player@ {
                            assert(e@[e0.len() as int].0@ == p);
                        } else {
                            let k2 = choose|k2: int| 0 <= k2 < e0.len() && (#[trigger] e0[k2]).0@ == p;
                            assert(e@[k2] == e0[k2]);
                        }
                    }
                    assert forall|a: int, b: int| 0 <= a < b < e@.len() implies (#[trigger] e@[a]).0@
                        != (#[trigger] e@[b]).0@ by {
                        if b < e0.len() {
                            assert(e0[a].0@ != e0[b].0@);
                        } else {
                            assert(e@[a] == e0[a]);
                        }
                    }
                }
            },
        }
        i = i + 1;
    }
    assert(rolls@.take(rolls@.len() as int) =~= rolls@);
    assert(pairs_view(e@) =~= effective_seq(rolls@)) by {
        assert forall|k: int| 0 <= k < e@.len() implies pairs_view(e@)[k] == effective_seq(rolls@)[k] by {
            assert(pair_names(e@)[k] == e@[k].0@);
        }
    }
    e
}

/// The players that `e` lists with value `v`.
pub open spec fn keys_with(e: Seq<(String, u8)>, v: u8) -> Set<Seq<char>> {
    Set::new(|p: Seq<char>| exists|k: int| 0 <= k < e.len() && (#[trigger] e[k]).0@ == p && e[k].1 == v)
}

/// Read through an effective list, the players with a value are its group.
proof fn lemma_keys_with_group(rs: Seq<Roll>, e: Seq<(String, u8)>, v: u8)
    requires
        effective_list(rs, e),
    ensures
        keys_with(e, v) == group(rs, v),
{
    assert forall|p: Seq<char>| keys_with(e, v).contains(p) == group(rs, v).contains(p) by {
        if rolled(rs, p) {
            let k = choose|k: int| 0 <= k < e.len() && (#[trigger] e[k]).0@ == p;
            assert(e[k].1 == last_value(rs, p));
        }
        if keys_with(e, v).contains(p) {
            let k = choose|k: int| 0 <= k < e.len() && (#[trigger] e[k]).0@ == p && e[k].1 == v;
            assert(rolled(rs, e[k].0@));
        }
    }
    assert(keys_with(e, v) =~= group(rs, v));
}

/// The names of `v`, in order.
pub open spec fn names_of(v: Seq<String>) -> Seq<Seq<char>> {
    v.map_values(|s: String| s@)
}

/// The players that `q` pairs with `v`, in the order of `q`.
pub open spec fn keyed(q: Seq<(Seq<char>, u8)>, v: u8) -> Seq<Seq<char>>
    decreases q.len(),
{
    if q.len() == 0 {
        Seq::empty()
    } else if q.last().1 == v {
        keyed(q.drop_last(), v).push(q.last().0)
    } else {
        keyed(q.drop_last(), v)
    }
}

/// The players that `e` lists with value `v`, in the order of `e`.
fn members_with(e: &Vec<(String, u8)>, v: u8) -> (m: Vec<String>)
    requires
        forall|a: int, b: int|
            0 <= a < b < e@.len() ==> (#[trigger] e@[a]).0@ != (#[trigger] e@[b]).0@,
    ensures
        distinct(m@),
        name_set(m@) == keys_with(e@, v),
        names_of(m@) == keyed(pairs_view(e@), v),
{
    let mut m: Vec<String> = Vec::new();
    let ghost mut idx: Seq<int> = Seq::empty();
    let mut k: usize = 0;
    while k < e.len()
        invariant
            k <= e@.len(),
            forall|a: int, b: int|
                0 <= a < b < e@.len() ==> (#[trigger] e@[a]).0@ != (#[trigger] e@[b]).0@,
            idx.len() == m@.len(),
            forall|a: int|
                0 <= a < m@.len() ==> 0 <= #[trigger] idx[a] < k && e@[idx[a]].0@ == m@[a]@
                    && e@[idx[a]].1 == v,
            forall|a: int, b: int| 0 <= a < b < m@.len() ==> #[trigger] idx[a] < #[trigger] idx[b],
            forall|j: int| 0 <= j < k && (#[trigger] e@[j]).1 == v ==> lists(m@, e@[j].0@),
            names_of(m@) == keyed(pairs_view(e@.take(k as int)), v),
        decreases e@.len() - k,
    {
        proof {
            assert(pairs_view(e@.take(k + 1)).drop_last() =~= pairs_view(e@.take(k as int)));
        }
        if e[k].1 == v {
            let ghost m0 = m@;
            let ghost idx0 = idx;
            m.push(e[k].0.clone());
            proof {
                assert(names_of(m@) =~= names_of(m0).push(e@[k as int].0@));
                idx = idx.push(k as int);
                assert(m@[m0.len() as int]@ == e@[k as int].0@);
                assert forall|a: int| 0 <= a < m@.len() implies 0 <= #[trigger] idx[a] < k + 1
                    && e@[idx[a]].0@ == m@[a]@ && e@[idx[a]].1 == v by {
                    if a < m0.len() {
                        assert(m@[a] == m0[a]);
                        assert(idx[a] == idx0[a]);
                    }
                }
                assert forall|j: int| 0 <= j < k + 1 && (#[trigger] e@[j]).1 == v implies lists(m@, e@[j].0@) by {
                    if j < k {
                        let a = choose|a: int| 0 <= a < m0.len() && (#[trigger] m0[a])@ == e@[j].0@;
                        assert(m@[a] == m0[a]);
                    } else {
                        assert(m@[m0.len() as int]@ == e@[j].0@);
                    }
                }
            }
        }
        k = k + 1;
    }
    assert(e@.take(e@.len() as int) =~= e@);
    assert forall|a: int, b: int| 0 <= a < b < m@.len() implies (#[trigger] m@[a])@ != (#[trigger] m@[b])@ by {
        assert(idx[a] < idx[b]);
        assert(e@[idx[a]].0@ != e@[idx[b]].0@);
    }
    assert forall|p: Seq<char>| name_set(m@).contains(p) == keys_with(e@, v).contains(p) by {
        if lists(m@, p) {
            let a = choose|a: int| 0 <= a < m@.len() && (#[trigger] m@[a])@ == p;
            let j = idx[a];
            assert(e@[j].0@ == p && e@[j].1 == v);
            assert(keys_with(e@, v).contains(p));
        }
        if keys_with(e@, v).contains(p) {
            let j = choose|j: int| 0 <= j < e@.len() && (#[trigger] e@[j]).0@ == p && e@[j].1 == v;
            assert(lists(m@, e@[j].0@));
        }
    }
    assert(name_set(m@) =~= keys_with(e@, v));
    m
}

/// The lowest and the highest value that `e` lists, if it lists any.
fn extremes(e: &Vec<(String, u8)>) -> (r: (Option<u8>, Option<u8>))
    ensures
        e@.len() == 0 ==> r.0 is None && r.1 is None,
        e@.len() > 0 ==> r.0 is Some && r.1 is Some,
        r.0 matches Some(m) ==> (exists|k: int| 0 <= k < e@.len() && (#[trigger] e@[k]).1 == m)
            && forall|k: int| 0 <= k < e@.len() ==> m <= (#[trigger] e@[k]).1,
        r.1 matches Some(m) ==> (exists|k: int| 0 <= k < e@.len() && (#[trigger] e@[k]).1 == m)
            && forall|k: int| 0 <= k < e@.len() ==> (#[trigger] e@[k]).1 <= m,
{
    if e.len() == 0 {
        return (None, None);
    }
    let mut lo: u8 = e[0].1;
    let mut hi: u8 = e[0].1;
    let ghost mut lo_at: int = 0;
    let ghost mut hi_at: int = 0;
    let mut k: usize = 1;
    while k < e.len()
        invariant
            1 <= k <= e@.len(),
            0 <= lo_at < e@.len(),
            0 <= hi_at < e@.len(),
            e@[lo_at].1 == lo,
            e@[hi_at].1 == hi,
            forall|j: int| 0 <= j < k ==> lo <= (#[trigger] e@[j]).1 <= hi,
        decreases e@.len() - k,
    {
        if e[k].1 < lo {
            lo = e[k].1;
            proof {
                lo_at = k as int;
            }
        }
        if e[k].1 > hi {
            hi = e[k].1;
            proof {
                hi_at = k as int;
            }
        }
        k = k + 1;
    }
    (Some(lo), Some(hi))
}

/// `g` read as values with the names that hold them.
pub open spec fn groups_view(g: Seq<(u8, Vec<String>)>) -> Seq<(u8, Seq<Seq<char>>)> {
    g.map_values(|x: (u8, Vec<String>)| (x.0, names_of(x.1@)))
}

/// The values below `v` that `q` holds, from the lowest up, each with the
/// players `q` pairs with it, in the order of `q`.
pub open spec fn groups_below(q: Seq<(Seq<char>, u8)>, v: nat) -> Seq<(u8, Seq<Seq<char>>)>
    decreases v,
{
    if v == 0 {
        Seq::empty()
    } else if keyed(q, (v - 1) as u8).len() > 0 {
        groups_below(q, (v - 1) as nat).push(((v - 1) as u8, keyed(q, (v - 1) as u8)))
    } else {
        groups_below(q, (v - 1) as nat)
    }
}

/// The players of `e` grouped by value, from the lowest value up.
fn group_by_value(e: &Vec<(String, u8)>, Ghost(rs): Ghost<Seq<Roll>>) -> (g: Vec<(u8, Vec<String>)>)
    requires
        effective_list(rs, e@),
    ensures
        grouped(rs, g@),
        groups_view(g@) == groups_below(pairs_view(e@), 256),
{
    let mut g: Vec<(u8, Vec<String>)> = Vec::new();
    let mut v: u16 = 0;
    while v < 256
        invariant
            v <= 256,
            effective_list(rs, e@),
            forall|a: int, b: int| 0 <= a < b < g@.len() ==> (#[trigger] g@[a]).0 < (#[trigger] g@[b]).0,
            forall|a: int| 0 <= a < g@.len() ==> (#[trigger] g@[a]).0 < v,
            forall|a: int|
                0 <= a < g@.len() ==> distinct((#[trigger] g@[a]).1@) && g@[a].1@.len() > 0
                    && name_set(g@[a].1@) == group(rs, g@[a].0),
            forall|p: Seq<char>|
                #[trigger] rolled(rs, p) && last_value(rs, p) < v ==> exists|a: int|
                    0 <= a < g@.len() && (#[trigger] g@[a]).0 == last_value(rs, p),
            groups_view(g@) == groups_below(pairs_view(e@), v as nat),
        decreases 256 - v,
    {
        let m = members_with(e, v as u8);
        proof {
            lemma_keys_with_group(rs, e@, v as u8);
        }
        let ghost g0 = g@;
        proof {
            assert(names_of(m@).len() == m@.len());
        }
        if m.len() > 0 {
            g.push((v as u8, m));
            assert(groups_view(g@) =~= groups_view(g0).push((v as u8, keyed(pairs_view(e@), v as u8))));
            assert forall|p: Seq<char>| #[trigger] rolled(rs, p) && last_value(rs, p) < v + 1
                implies exists|a: int| 0 <= a < g@.len() && (#[trigger] g@[a]).0 == last_value(rs, p) by {
                if last_value(rs, p) < v {
                    let a = choose|a: int| 0 <= a < g0.len() && (#[trigger] g0[a]).0 == last_value(rs, p);
                    assert(g@[a] == g0[a]);
                } else {
                    assert(g@[g0.len() as int].0 == last_value(rs, p));
                }
            }
            assert forall|a: int|
                0 <= a < g@.len() implies distinct((#[trigger] g@[a]).1@) && g@[a].1@.len() > 0
                    && name_set(g@[a].1@) == group(rs, g@[a].0) by {
                if a < g0.len() {
                    assert(g@[a] == g0[a]);
                }
            }
        } else {
            assert forall|p: Seq<char>| #[trigger] rolled(rs, p) && last_value(rs, p) < v + 1
                implies exists|a: int| 0 <= a < g@.len() && (#[trigger] g@[a]).0 == last_value(rs, p) by {
                if last_value(rs, p) == v {
                    assert(group(rs, v as u8).contains(p));
                    assert(name_set(m@).contains(p));
                    let i = choose|i: int| 0 <= i < m@.len() && (#[trigger] m@[i])@ == p;
                }
            }
        }
        v = v + 1;
    }
    g
}

/// The analysis of `rolls`: effective values, their groups and extremes,
/// and the winners or the players who must roll again.
pub fn analyze(rolls: &Vec<Roll>, extreme: Extreme, max_winners: u8) -> (c: Conflict)
    ensures
        analysis(rolls@, extreme, max_winners, c),
{
    let ghost rs = rolls@;
    let e = effective_values(rolls);
    let groups = group_by_value(&e, Ghost(rs));
    let (lo, hi) = extremes(&e);
    proof {
        if rs.len() > 0 {
            assert(rolled(rs, rs[0].player@));
        }
        if e@.len() > 0 {
            assert(rolled(rs, e@[0].0@));
        }
        if let Some(m) = lo {
            let k = choose|k: int| 0 <= k < e@.len() && (#[trigger] e@[k]).1 == m;
            assert(rolled(rs, e@[k].0@) && last_value(rs, e@[k].0@) == m);
            assert forall|p: Seq<char>| #[trigger] rolled(rs, p) implies m <= last_value(rs, p) by {
                let k2 = choose|k2: int| 0 <= k2 < e@.len() && (#[trigger] e@[k2]).0@ == p;
                assert(m <= e@[k2].1);
            }
        }
        if let Some(m) = hi {
            let k = choose|k: int| 0 <= k < e@.len() && (#[trigger] e@[k]).1 == m;
            assert(rolled(rs, e@[k].0@) && last_value(rs, e@[k].0@) == m);
            assert forall|p: Seq<char>| #[trigger] rolled(rs, p) implies last_value(rs, p) <= m by {
                let k2 = choose|k2: int| 0 <= k2 < e@.len() && (#[trigger] e@[k2]).1 <= m && e@[k2].0@ == p;
                assert(e@[k2].1 <= m);
            }
        }
    }
    let target = if extreme == Extreme::Min {
        lo
    } else {
        hi
    };
    let mut winners: Vec<String> = Vec::new();
    let mut conflicted: Vec<String> = Vec::new();
    if let Some(t) = target {
        let members = members_with(&e, t);
        proof {
            lemma_keys_with_group(rs, e@, t);
            lemma_distinct_len(members@);
        }
        if members.len() <= max_winners as usize {
            winners = members;
        } else {
            conflicted = members;
        }
    }
    Conflict {
        min_value: lo,
        max_value: hi,
        players_roll: e,
        value_groups: groups,
        winners,
        conflicted,
    }
}

/// Winners, and players who must roll again, are players who rolled.
pub proof fn lemma_winners_rolled(rs: Seq<Roll>, extreme: Extreme, max_winners: u8, c: Conflict)
    requires
        analysis(rs, extreme, max_winners, c),
    ensures
        name_set(c.winners@).subset_of(rollers(rs)),
        name_set(c.conflicted@).subset_of(rollers(rs)),
{
    assert forall|p: Seq<char>| name_set(c.winners@).contains(p) implies rollers(rs).contains(p) by {
        if c.winners@.len() > 0 {
            let i = choose|i: int| 0 <= i < c.winners@.len() && (#[trigger] c.winners@[i])@ == p;
        }
    }
    assert forall|p: Seq<char>| name_set(c.conflicted@).contains(p) implies rollers(rs).contains(p) by {
        if c.conflicted@.len() > 0 {
            let i = choose|i: int| 0 <= i < c.conflicted@.len() && (#[trigger] c.conflicted@[i])@ == p;
        }
    }
}

} // verus!
