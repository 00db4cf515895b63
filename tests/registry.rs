use dice_round::model::RoundError;
use dice_round::registry::{AppState, Room, DEFAULT_VALUE_FROM, DEFAULT_VALUE_TO};

#[test]
fn players_get_increasing_ids() {
    let mut state = AppState::new();
    assert_eq!(state.users.create("ann".to_string()), Ok(1));
    assert_eq!(state.users.create("bob".to_string()), Ok(2));
    assert_eq!(state.users.create("ann".to_string()), Err(RoundError::AlreadyExists));
    assert_eq!(state.users.id_seq, 2);
    assert_eq!(state.users.users, vec![("ann".to_string(), 1), ("bob".to_string(), 2)]);
}

#[test]
fn rooms_create_and_list() {
    let mut state = AppState::new();
    let (room, id) = state.rooms.create("blue").unwrap();
    assert_eq!(id, 1);
    assert_eq!(room.name, "blue");
    assert_eq!((room.value_from, room.value_to), (DEFAULT_VALUE_FROM, DEFAULT_VALUE_TO));
    assert_eq!(state.rooms.create("red").unwrap().1, 2);
    assert_eq!(state.rooms.create("blue").err(), Some(RoundError::AlreadyExists));
    let names: Vec<String> = state.rooms.list().into_iter().map(|r| r.name).collect();
    assert_eq!(names, vec!["blue".to_string(), "red".to_string()]);
}

#[test]
fn rooms_delete() {
    let mut state = AppState::new();
    state.rooms.create("blue").unwrap();
    state.rooms.create("red").unwrap();
    assert_eq!(state.rooms.delete("blue"), Ok(1));
    assert_eq!(state.rooms.delete("blue"), Err(RoundError::NotFound));
    assert_eq!(state.rooms.list().len(), 1);
    // ids are not reused
    assert_eq!(state.rooms.create("blue").unwrap().1, 3);
}

#[test]
fn rooms_update_and_get_mut() {
    let mut state = AppState::new();
    state.rooms.create("blue").unwrap();
    state.rooms.create("red").unwrap();
    let changed = Room {
        name: "green".to_string(),
        players_min: 2,
        players: vec!["ann".to_string()],
        value_from: 1,
        value_to: 6,
        max_winners: 2,
    };
    assert_eq!(state.rooms.update("nowhere", changed.duplicate()), Err(RoundError::NotFound));
    let clash = Room { name: "red".to_string(), ..changed.duplicate() };
    assert_eq!(state.rooms.update("blue", clash), Err(RoundError::AlreadyExists));
    assert_eq!(state.rooms.update("blue", changed), Ok(1));
    assert!(state.rooms.get_mut("blue").is_none());
    let room = state.rooms.get_mut("green").unwrap();
    assert_eq!(room.value_to, 6);
    room.max_winners = 3;
    assert_eq!(state.rooms.list()[0].max_winners, 3);
}
