//! The registries around the rounds: players by name, and rooms by id with
//! their names as a second key.

use vstd::prelude::*;
use crate::model::RoundError;
use crate::names::copy_names;

verus! {

/// Lowest dice value of a new room.
pub const DEFAULT_VALUE_FROM: u8 = 1;

/// Highest dice value of a new room.
pub const DEFAULT_VALUE_TO: u8 = 12;

/// Registered players, each name with its id.
pub struct Players {
    /// The last id handed out.
    pub id_seq: u32,
    /// Each registered name with its id.
    pub users: Vec<(String, u32)>,
}

/// The name `p` is registered in `u`.
pub open spec fn user_listed(u: Seq<(String, u32)>, p: Seq<char>) -> bool {
    exists|k: int| 0 <= k < u.len() && (#[trigger] u[k]).0@ == p
}

impl Players {
    /// Names registered once each, ids from 1 up to `id_seq`.
    pub open spec fn wf(&self) -> bool {
        &&& forall|a: int, b: int|
            0 <= a < b < self.users@.len() ==> (#[trigger] self.users@[a]).0@ != (
            #[trigger] self.users@[b]).0@
        &&& forall|a: int, b: int|
            0 <= a < b < self.users@.len() ==> (#[trigger] self.users@[a]).1 < (
            #[trigger] self.users@[b]).1
        &&& forall|k: int|
            0 <= k < self.users@.len() ==> 1 <= (#[trigger] self.users@[k]).1 <= self.id_seq
    }

    /// Registers `name` under the next id. A name registered already is refused.
    pub fn create(&mut self, name: String) -> (r: Result<u32, RoundError>)
        requires
            old(self).wf(),
            user_listed(old(self).users@, name@) || old(self).id_seq < u32::MAX,
        ensures
            final(self).wf(),
            user_listed(old(self).users@, name@) ==> r == Err::<u32, RoundError>(
                RoundError::AlreadyExists,
            ) && final(self).users@ == old(self).users@ && final(self).id_seq == old(self).id_seq,
            !user_listed(old(self).users@, name@) ==> r == Ok::<u32, RoundError>(
                (old(self).id_seq + 1) as u32,
            ) && final(self).id_seq == old(self).id_seq + 1 && final(self).users@ == old(
                self,
            ).users@.push((name, (old(self).id_seq + 1) as u32)),
    {
        let mut k: usize = 0;
        while k < self.users.len()
            invariant
                k <= self.users@.len(),
                self.wf(),
                self.users@ == old(self).users@,
                self.id_seq == old(self).id_seq,
                forall|j: int| 0 <= j < k ==> (#[trigger] self.users@[j]).0@ != name@,
            decreases self.users@.len() - k,
        {
            if self.users[k].0 == name {
                return Err(RoundError::AlreadyExists);
            }
            k = k + 1;
        }
        self.id_seq = self.id_seq + 1;
        let id = self.id_seq;
        self.users.push((name, id));
        Ok(id)
    }
}

/// A room: a named place whose rounds share one configuration.
pub struct Room {
    /// The room's name.
    pub name: String,
    /// Fewest players for a round.
    pub players_min: u8,
    /// Players in the room.
    pub players: Vec<String>,
    /// Lowest dice value.
    pub value_from: u8,
    /// Highest dice value.
    pub value_to: u8,
    /// Most winners of a round.
    pub max_winners: u8,
}

impl Room {
    /// The two rooms hold the same values.
    pub open spec fn same(&self, o: &Room) -> bool {
        &&& self.name@ == o.name@
        &&& self.players_min == o.players_min
        &&& self.players@ == o.players@
        &&& self.value_from == o.value_from
        &&& self.value_to == o.value_to
        &&& self.max_winners == o.max_winners
    }

    /// A copy of this room.
    pub fn duplicate(&self) -> (r: Room)
        ensures
            r.same(self),
    {
        Room {
            name: self.name.clone(),
            players_min: self.players_min,
            players: copy_names(&self.players),
            value_from: self.value_from,
            value_to: self.value_to,
            max_winners: self.max_winners,
        }
    }
}

/// The rooms, each under its id.
pub struct Rooms {
    /// The last id handed out.
    pub id_seq: u32,
    /// Each room with its id, in the order they were created.
    pub rooms: Vec<(u32, Room)>,
}

/// A room of `v` is named `p`.
pub open spec fn room_listed(v: Seq<(u32, Room)>, p: Seq<char>) -> bool {
    exists|k: int| 0 <= k < v.len() && (#[trigger] v[k]).1.name@ == p
}

impl Rooms {
    /// Names and ids unique, ids from 1 up to `id_seq`.
    pub open spec fn wf(&self) -> bool {
        &&& forall|a: int, b: int|
            0 <= a < b < self.rooms@.len() ==> (#[trigger] self.rooms@[a]).1.name@ != (
            #[trigger] self.rooms@[b]).1.name@
        &&& forall|a: int, b: int|
            0 <= a < b < self.rooms@.len() ==> (#[trigger] self.rooms@[a]).0 < (
            #[trigger] self.rooms@[b]).0
        &&& forall|k: int|
            0 <= k < self.rooms@.len() ==> 1 <= (#[trigger] self.rooms@[k]).0 <= self.id_seq
    }

    /// Where the room named `name` stands, if there is one.
    fn find(&self, name: &String) -> (r: Option<usize>)
        requires
            self.wf(),
        ensures
            match r {
                Some(k) => k < self.rooms@.len() && self.rooms@[k as int].1.name@ == name@,
                None => !room_listed(self.rooms@, name@),
            },
    {
        let mut k: usize = 0;
        while k < self.rooms.len()
            invariant
                k <= self.rooms@.len(),
                forall|j: int| 0 <= j < k ==> (#[trigger] self.rooms@[j]).1.name@ != name@,
            decreases self.rooms@.len() - k,
        {
            if self.rooms[k].1.name == *name {
                return Some(k);
            }
            k = k + 1;
        }
        None
    }

    /// Creates a room named `name`, with the default configuration, under
    /// the next id. A name taken already is refused.
    pub fn create(&mut self, name: &str) -> (r: Result<(Room, u32), RoundError>)
        requires
            old(self).wf(),
            room_listed(old(self).rooms@, name@) || old(self).id_seq < u32::MAX,
        ensures
            final(self).wf(),
            room_listed(old(self).rooms@, name@) ==> r == Err::<(Room, u32), RoundError>(
                RoundError::AlreadyExists,
            ) && final(self).rooms@ == old(self).rooms@ && final(self).id_seq == old(self).id_seq,
            !room_listed(old(self).rooms@, name@) ==> r is Ok && r->Ok_0.1 == old(self).id_seq + 1
                && r->Ok_0.0.name@ == name@ && r->Ok_0.0.players@.len() == 0
                && r->Ok_0.0.players_min == 0 && r->Ok_0.0.value_from == DEFAULT_VALUE_FROM
                && r->Ok_0.0.value_to == DEFAULT_VALUE_TO && r->Ok_0.0.max_winners == 1
                && final(self).id_seq == old(self).id_seq + 1
                && final(self).rooms@.len() == old(self).rooms@.len() + 1
                && final(self).rooms@.drop_last() == old(self).rooms@
                && final(self).rooms@.last().0 == r->Ok_0.1
                && final(self).rooms@.last().1.same(&r->Ok_0.0),
    {
        let key = name.to_owned();
        if self.find(&key).is_some() {
            return Err(RoundError::AlreadyExists);
        }
        self.id_seq = self.id_seq + 1;
        let id = self.id_seq;
        let room = Room {
            name: key,
            players_min: 0,
            players: Vec::new(),
            value_from: DEFAULT_VALUE_FROM,
            value_to: DEFAULT_VALUE_TO,
            max_winners: 1,
        };
        let copy = room.duplicate();
        let ghost before = self.rooms@;
        self.rooms.push((id, room));
        assert(self.rooms@.drop_last() =~= before);
        Ok((copy, id))
    }

    /// Deletes the room named `name` and answers its id.
    pub fn delete(&mut self, name: &str) -> (r: Result<u32, RoundError>)
        requires
            old(self).wf(),
        ensures
            final(self).wf(),
            final(self).id_seq == old(self).id_seq,
            !room_listed(old(self).rooms@, name@) ==> r == Err::<u32, RoundError>(
                RoundError::NotFound,
            ) && final(self).rooms@ == old(self).rooms@,
            room_listed(old(self).rooms@, name@) ==> exists|k: int|
                0 <= k < old(self).rooms@.len() && (#[trigger] old(self).rooms@[k]).1.name@ == name@
                    && r == Ok::<u32, RoundError>(old(self).rooms@[k].0) && final(self).rooms@ == old(
                    self,
                ).rooms@.remove(k),
    {
        let key = name.to_owned();
        match self.find(&key) {
            None => Err(RoundError::NotFound),
            Some(k) => {
                let ghost before = self.rooms@;
                let id = self.rooms[k].0;
                self.rooms.remove(k);
                proof {
                    assert(self.rooms@ =~= before.remove(k as int));
                    assert forall|a: int, b: int| 0 <= a < b < self.rooms@.len() implies (
                    #[trigger] self.rooms@[a]).1.name@ != (#[trigger] self.rooms@[b]).1.name@
                        && self.rooms@[a].0 < self.rooms@[b].0 by {
                        let a2 = if a < k { a } else { a + 1 };
                        let b2 = if b < k { b } else { b + 1 };
                        assert(self.rooms@[a] == before[a2]);
                        assert(self.rooms@[b] == before[b2]);
                        assert(before[a2].1.name@ != before[b2].1.name@);
                        assert(before[a2].0 < before[b2].0);
                    }
                    assert forall|j: int| 0 <= j < self.rooms@.len() implies 1 <= (
                    #[trigger] self.rooms@[j]).0 <= self.id_seq by {
                        let j2 = if j < k { j } else { j + 1 };
                        assert(self.rooms@[j] == before[j2]);
                    }
                }
                Ok(id)
            },
        }
    }

    /// Copies of all rooms, in the order they were created.
    pub fn list(&self) -> (r: Vec<Room>)
        ensures
            r@.len() == self.rooms@.len(),
            forall|k: int| 0 <= k < r@.len() ==> (#[trigger] r@[k]).same(&self.rooms@[k].1),
    {
        let mut r: Vec<Room> = Vec::new();
        let mut k: usize = 0;
        while k < self.rooms.len()
            invariant
                k <= self.rooms@.len(),
                r@.len() == k,
                forall|j: int| 0 <= j < k ==> (#[trigger] r@[j]).same(&self.rooms@[j].1),
            decreases self.rooms@.len() - k,
        {
            r.push(self.rooms[k].1.duplicate());
            k = k + 1;
        }
        r
    }

    /// Replaces the room named `name` by `room`, under the same id, and
    /// answers that id. Refused when no room has that name, or when `room`
    /// takes the name of another room.
    pub fn update(&mut self, name: &str, room: Room) -> (r: Result<u32, RoundError>)
        requires
            old(self).wf(),
        ensures
            final(self).wf(),
            final(self).id_seq == old(self).id_seq,
            !room_listed(old(self).rooms@, name@) ==> r == Err::<u32, RoundError>(
                RoundError::NotFound,
            ) && final(self).rooms@ == old(self).rooms@,
            room_listed(old(self).rooms@, name@) && room.name@ != name@ && room_listed(
                old(self).rooms@,
                room.name@,
            ) ==> r == Err::<u32, RoundError>(RoundError::AlreadyExists) && final(self).rooms@
                == old(self).rooms@,
            room_listed(old(self).rooms@, name@) && (room.name@ == name@ || !room_listed(
                old(self).rooms@,
                room.name@,
            )) ==> exists|k: int|
                0 <= k < old(self).rooms@.len() && (#[trigger] old(self).rooms@[k]).1.name@ == name@
                    && r == Ok::<u32, RoundError>(old(self).rooms@[k].0) && final(self).rooms@ == old(
                    self,
                ).rooms@.update(k, (old(self).rooms@[k].0, room)),
    {
        let key = name.to_owned();
        match self.find(&key) {
            None => Err(RoundError::NotFound),
            Some(k) => {
                if room.name != key && self.find(&room.name).is_some() {
                    return Err(RoundError::AlreadyExists);
                }
                let ghost before = self.rooms@;
                let id = self.rooms[k].0;
                self.rooms.set(k, (id, room));
                proof {
                    assert forall|a: int, b: int| 0 <= a < b < self.rooms@.len() implies (
                    #[trigger] self.rooms@[a]).1.name@ != (#[trigger] self.rooms@[b]).1.name@ by {
                        if a != k && b != k {
                            assert(before[a].1.name@ != before[b].1.name@);
                        } else if a == k {
                            assert(self.rooms@[b] == before[b]);
                        } else {
                            assert(self.rooms@[a] == before[a]);
                        }
                    }
                    assert forall|a: int, b: int| 0 <= a < b < self.rooms@.len() implies (
                    #[trigger] self.rooms@[a]).0 < (#[trigger] self.rooms@[b]).0 by {
                        assert(before[a].0 < before[b].0);
                    }
                    assert forall|j: int| 0 <= j < self.rooms@.len() implies 1 <= (
                    #[trigger] self.rooms@[j]).0 <= self.id_seq by {
                        assert(1 <= before[j].0);
                    }
                }
                Ok(id)
            },
        }
    }

    /// The room named `name`, to change in place, if there is one. Its
    /// name is best left alone: another room may hold the new one.
    pub fn get_mut(&mut self, name: &str) -> (r: Option<&mut Room>)
        requires
            old(self).wf(),
        ensures
            final(self).id_seq == old(self).id_seq,
            match r {
                None => !room_listed(old(self).rooms@, name@) && final(self).rooms@ == old(
                    self,
                ).rooms@,
                Some(room) => exists|k: int|
                    0 <= k < old(self).rooms@.len() && (#[trigger] old(self).rooms@[k]).1.name@
                        == name@ && *room == old(self).rooms@[k].1 && final(self).rooms@ == old(
                        self,
                    ).rooms@.update(k, (old(self).rooms@[k].0, *final(room))),
            },
    {
        let key = name.to_owned();
        match self.find(&key) {
            None => None,
            Some(k) => {
                let entry = &mut self.rooms[k];
                Some(&mut entry.1)
            },
        }
    }
}

/// The state a server keeps: its players and its rooms.
pub struct AppState {
    pub users: Players,
    pub rooms: Rooms,
}

impl AppState {
    /// No players and no rooms.
    pub fn new() -> (r: AppState)
        ensures
            r.users.wf(),
            r.rooms.wf(),
            r.users.id_seq == 0,
            r.users.users@.len() == 0,
            r.rooms.id_seq == 0,
            r.rooms.rooms@.len() == 0,
    {
        AppState {
            users: Players { id_seq: 0, users: Vec::new() },
            rooms: Rooms { id_seq: 0, rooms: Vec::new() },
        }
    }
}

} // verus!
