use simple_plan::events::TodoCreatedEvent;
use simple_plan::store::{StoreError, TodoEventStore};
use simple_plan::timestamp::Timestamp;
use uuid::Uuid;

fn id(text: &str) -> u128 {
    Uuid::parse_str(text).unwrap().as_u128()
}

fn date(hour: u32, minute: u32, second: u32) -> Option<Timestamp> {
    Some(Timestamp::from_ymd_hms_opt(2023, 9, 29, hour, minute, second).unwrap())
}

fn todo(todo_id: u128, sequence: i32, title: &str) -> TodoCreatedEvent {
    TodoCreatedEvent {
        event_id: Uuid::new_v4().as_u128(),
        todo_id,
        sequence,
        title: String::from(title),
        end_date: date(0, 0, 0),
    }
}

#[test]
fn plannable_event_store_given_todocreatedevent_when_savetorepository_then_repositoryhasoneentry() {
    let mut eventstore = TodoEventStore::clean().unwrap();
    let plannables = vec![TodoCreatedEvent {
        event_id: id("67e55044-10b1-426f-9247-bb680e5fe0c8"),
        todo_id: id("57e55044-10b1-426f-9247-bb680e5fe0c8"),
        sequence: 0,
        title: String::from("Read Rust Book"),
        end_date: date(9, 10, 11),
    }];
    let result = eventstore.save(plannables);
    assert!(result.is_ok());
}

#[test]
fn plannable_event_store_given_todoid_when_read_then_returnalleventsforthetodoid() {
    let mut eventstore = TodoEventStore::clean().unwrap();
    let plannables = vec![TodoCreatedEvent {
        event_id: id("67e55044-10b1-426f-9247-bb680e5fe0c8"),
        todo_id: id("57e55044-10b1-426f-9247-bb680e5fe0c8"),
        sequence: 0,
        title: String::from("some title"),
        end_date: date(0, 0, 0),
    }];
    eventstore.save(plannables.clone()).unwrap();
    let todo_id = id("57e55044-10b1-426f-9247-bb680e5fe0c8");
    let result = eventstore.read(todo_id).unwrap();
    assert_eq!(result, plannables);
}

#[test]
fn given_todocreatedevent_when_savetorepository_then_repositoryhasoneentry() {
    let mut eventstore = TodoEventStore::clean().unwrap();
    let plannables = vec![TodoCreatedEvent {
        event_id: Uuid::new_v4().as_u128(),
        todo_id: Uuid::new_v4().as_u128(),
        sequence: 0,
        title: String::from("Read rust book"),
        end_date: date(9, 10, 11),
    }];
    let result = eventstore.save(plannables.clone());
    assert!(result.is_ok());
    let result = eventstore.get_all().unwrap();
    assert_eq!(result, plannables);
}

#[test]
fn given_todoid_when_read_then_returnalleventsforthetodoid() {
    let mut eventstore = TodoEventStore::clean().unwrap();
    let todo_id = Uuid::new_v4().as_u128();
    let todo_created = todo(todo_id, 0, "Buy rust book");
    let todo_changed = todo(todo_id, 1, "Read rust book");
    let plannables = vec![todo_created, todo_changed];
    eventstore.save(plannables.clone()).unwrap();
    let result = eventstore.read(todo_id).unwrap();
    assert_eq!(result, plannables);
}

#[test]
fn given_todoid_when_doesnotexist_then_returnnoevents() {
    let eventstore = TodoEventStore::clean().unwrap();
    let todo_id = Uuid::new_v4().as_u128();
    let result = eventstore.read(todo_id).unwrap();
    assert_eq!(result.len(), 0);
}

#[test]
fn given_existingtodoid_when_savemultiplewithduplicate_then_rollback() {
    let mut eventstore = TodoEventStore::clean().unwrap();
    let todo_id = Uuid::new_v4().as_u128();
    let todo_created = vec![todo(todo_id, 0, "Buy rust book")];
    eventstore.save(todo_created.clone()).unwrap();
    let todo_changed = vec![todo(todo_id, 1, "Read rust book"), todo(todo_id, 0, "Sell rust book")];
    let result = eventstore.save(todo_changed);
    assert!(result.is_err());
    let read_todo_created = eventstore.read(todo_id).unwrap();
    assert_eq!(read_todo_created, todo_created);
}

#[test]
fn conflicting_batch_is_reported_as_conflict() {
    let mut eventstore = TodoEventStore::clean().unwrap();
    let todo_id = Uuid::new_v4().as_u128();
    eventstore.save(vec![todo(todo_id, 0, "first")]).unwrap();
    let result = eventstore.save(vec![todo(todo_id, 1, "new"), todo(todo_id, 0, "duplicate")]);
    assert_eq!(result, Err(StoreError::Conflict));
}

#[test]
fn single_event_without_end_date_reads_back_from_get_all() {
    let mut eventstore = TodoEventStore::clean().unwrap();
    let x = Uuid::new_v4().as_u128();
    let event = TodoCreatedEvent {
        title: String::from("Buy book"),
        todo_id: x,
        event_id: Uuid::new_v4().as_u128(),
        sequence: 0,
        end_date: None,
    };
    eventstore.save(vec![event.clone()]).unwrap();
    assert_eq!(eventstore.get_all().unwrap(), vec![event]);
}

#[test]
fn two_events_read_in_sequence_order_and_other_ids_read_empty() {
    let mut eventstore = TodoEventStore::clean().unwrap();
    let x = Uuid::new_v4().as_u128();
    let y = Uuid::new_v4().as_u128();
    let first = todo(y, 0, "Buy rust book");
    let second = todo(y, 1, "Read rust book");
    eventstore.save(vec![second.clone(), first.clone()]).unwrap();
    assert_eq!(eventstore.read(y).unwrap(), vec![first, second]);
    assert_eq!(eventstore.read(x).unwrap().len(), 0);
}

#[test]
fn saving_for_one_todo_leaves_another_unchanged() {
    let mut eventstore = TodoEventStore::clean().unwrap();
    let a = Uuid::new_v4().as_u128();
    let b = Uuid::new_v4().as_u128();
    eventstore.save(vec![todo(b, 0, "b")]).unwrap();
    let before = eventstore.read(b).unwrap();
    eventstore.save(vec![todo(a, 0, "a0"), todo(a, 1, "a1")]).unwrap();
    assert_eq!(eventstore.read(b).unwrap(), before);
}

#[test]
fn clean_store_after_saves_reads_empty() {
    let mut eventstore = TodoEventStore::clean().unwrap();
    eventstore.save(vec![todo(Uuid::new_v4().as_u128(), 0, "gone")]).unwrap();
    let eventstore = TodoEventStore::clean().unwrap();
    assert_eq!(eventstore.get_all().unwrap().len(), 0);
}

#[test]
fn next_sequence_of_a_todo() {
    let mut eventstore = TodoEventStore::new();
    let todo_id = Uuid::new_v4().as_u128();
    assert_eq!(eventstore.next_sequence(todo_id), Ok(0));
    eventstore.save(vec![todo(todo_id, 0, "a"), todo(todo_id, 1, "b")]).unwrap();
    assert_eq!(eventstore.next_sequence(todo_id), Ok(2));
    let next = todo(todo_id, eventstore.next_sequence(todo_id).unwrap(), "c");
    assert!(eventstore.save(vec![next]).is_ok());
}

#[test]
fn negative_sequence_event_is_refused() {
    let mut eventstore = TodoEventStore::clean().unwrap();
    let todo_id = Uuid::new_v4().as_u128();
    let result = eventstore.save(vec![todo(todo_id, -3, "before the start")]);
    assert_eq!(result, Err(StoreError::NegativeSequence));
    assert_eq!(eventstore.read(todo_id).unwrap().len(), 0);
}
