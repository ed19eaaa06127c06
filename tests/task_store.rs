use simple_plan::events::TaskCreatedEvent;
use simple_plan::store::{StoreError, TaskEventStore};
use simple_plan::timestamp::Timestamp;
use uuid::Uuid;

fn date(hour: u32, minute: u32, second: u32) -> Option<Timestamp> {
    Some(Timestamp::from_ymd_hms_opt(2023, 9, 29, hour, minute, second).unwrap())
}

fn task(task_id: u128, sequence: i32, title: &str) -> TaskCreatedEvent {
    TaskCreatedEvent {
        event_id: Uuid::new_v4().as_u128(),
        task_id,
        sequence,
        title: String::from(title),
        end_date: date(0, 0, 0),
    }
}

#[test]
fn given_taskcreatedevent_when_savetorepository_then_repositoryhasoneentry() {
    let mut eventstore = TaskEventStore::clean().unwrap();
    let plannables = vec![TaskCreatedEvent {
        event_id: Uuid::new_v4().as_u128(),
        task_id: Uuid::new_v4().as_u128(),
        sequence: 0,
        title: String::from("Read rust book"),
        end_date: date(9, 10, 11),
    }];
    let result = eventstore.save(plannables.clone());
    assert!(result.is_ok());
    let result = eventstore.get_all().unwrap();
    assert_eq!(result, plannables);
}

#[test]
fn given_taskid_when_read_then_returnalleventsforthetaskid() {
    let mut eventstore = TaskEventStore::clean().unwrap();
    let task_id = Uuid::new_v4().as_u128();
    let task_created = task(task_id, 0, "Buy rust book");
    let task_changed = task(task_id, 1, "Read rust book");
    let plannables = vec![task_created, task_changed];
    eventstore.save(plannables.clone()).unwrap();
    let result = eventstore.read(task_id).unwrap();
    assert_eq!(result, plannables);
}

#[test]
fn given_taskid_when_doesnotexist_then_returnnoevents() {
    let eventstore = TaskEventStore::clean().unwrap();
    let task_id = Uuid::new_v4().as_u128();
    let result = eventstore.read(task_id).unwrap();
    assert_eq!(result.len(), 0);
}

#[test]
fn given_taskidexisting_when_savemultiplewithduplicate_then_rollback() {
    let mut eventstore = TaskEventStore::clean().unwrap();
    let task_id = Uuid::new_v4().as_u128();
    let task_created = vec![task(task_id, 0, "Buy rust book")];
    eventstore.save(task_created.clone()).unwrap();
    let task_changed = vec![task(task_id, 1, "Read rust book"), task(task_id, 0, "Sell rust book")];
    let result = eventstore.save(task_changed);
    assert!(result.is_err());
    let read_task_created = eventstore.read(task_id).unwrap();
    assert_eq!(read_task_created, task_created);
}

#[test]
fn task_conflicting_batch_is_reported_as_conflict() {
    let mut eventstore = TaskEventStore::clean().unwrap();
    let task_id = Uuid::new_v4().as_u128();
    eventstore.save(vec![task(task_id, 0, "first")]).unwrap();
    let result = eventstore.save(vec![task(task_id, 1, "new"), task(task_id, 0, "duplicate")]);
    assert_eq!(result, Err(StoreError::Conflict));
}

#[test]
fn task_without_end_date_reads_back_from_get_all() {
    let mut eventstore = TaskEventStore::clean().unwrap();
    let x = Uuid::new_v4().as_u128();
    let event = TaskCreatedEvent {
        title: String::from("Buy book"),
        task_id: x,
        event_id: Uuid::new_v4().as_u128(),
        sequence: 0,
        end_date: None,
    };
    eventstore.save(vec![event.clone()]).unwrap();
    assert_eq!(eventstore.get_all().unwrap(), vec![event]);
}

#[test]
fn task_events_read_in_sequence_order_and_other_ids_read_empty() {
    let mut eventstore = TaskEventStore::clean().unwrap();
    let x = Uuid::new_v4().as_u128();
    let y = Uuid::new_v4().as_u128();
    let first = task(y, 0, "Buy rust book");
    let second = task(y, 1, "Read rust book");
    eventstore.save(vec![second.clone(), first.clone()]).unwrap();
    assert_eq!(eventstore.read(y).unwrap(), vec![first, second]);
    assert_eq!(eventstore.read(x).unwrap().len(), 0);
}

#[test]
fn saving_for_one_task_leaves_another_unchanged() {
    let mut eventstore = TaskEventStore::clean().unwrap();
    let a = Uuid::new_v4().as_u128();
    let b = Uuid::new_v4().as_u128();
    eventstore.save(vec![task(b, 0, "b")]).unwrap();
    let before = eventstore.read(b).unwrap();
    eventstore.save(vec![task(a, 0, "a0"), task(a, 1, "a1")]).unwrap();
    assert_eq!(eventstore.read(b).unwrap(), before);
}

#[test]
fn clean_task_store_after_saves_reads_empty() {
    let mut eventstore = TaskEventStore::clean().unwrap();
    eventstore.save(vec![task(Uuid::new_v4().as_u128(), 0, "gone")]).unwrap();
    let eventstore = TaskEventStore::clean().unwrap();
    assert_eq!(eventstore.get_all().unwrap().len(), 0);
}

#[test]
fn next_sequence_of_a_task() {
    let mut eventstore = TaskEventStore::new();
    let task_id = Uuid::new_v4().as_u128();
    assert_eq!(eventstore.next_sequence(task_id), Ok(0));
    eventstore.save(vec![task(task_id, 0, "a"), task(task_id, 1, "b")]).unwrap();
    assert_eq!(eventstore.next_sequence(task_id), Ok(2));
    let next = task(task_id, eventstore.next_sequence(task_id).unwrap(), "c");
    assert!(eventstore.save(vec![next]).is_ok());
}
