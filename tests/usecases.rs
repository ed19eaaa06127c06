use simple_plan::events::TodoCreatedEvent;
use simple_plan::store::TodoEventStore;
use simple_plan::timestamp::Timestamp;
use simple_plan::usecases::{todo_created_event, AddTodoUsecase, GetTodoUsecase};
use uuid::Uuid;

#[test]
fn add_todo_usecase_given_todoevent_when_stored_then_ok() {
    let mut eventstore = TodoEventStore::clean().unwrap();
    let usecase = AddTodoUsecase::new(&mut eventstore);
    let end_date = Timestamp::from_ymd_hms_opt(2023, 9, 29, 9, 10, 11);
    let title = String::from("Read rust book");
    let result = usecase.execute(title, end_date);
    assert!(result.is_ok());
    let result = eventstore.get_all();
    assert!(result.is_ok());
    let events = result.unwrap();
    assert_eq!(events.len(), 1);
    assert_eq!(events[0].title, "Read rust book");
    assert_eq!(events[0].sequence, 0);
    assert_eq!(events[0].end_date, end_date);
}

#[test]
fn get_todo_usecase_given_todoevent_when_stored_then_ok() {
    let mut eventstore = TodoEventStore::clean().unwrap();
    let todo_id = Uuid::new_v4().as_u128();
    let plannables = vec![TodoCreatedEvent {
        event_id: Uuid::new_v4().as_u128(),
        todo_id,
        sequence: 0,
        title: String::from("Read rust book"),
        end_date: Timestamp::from_ymd_hms_opt(2023, 9, 29, 9, 10, 11),
    }];
    let result = eventstore.save(plannables.clone());
    assert!(result.is_ok());
    let usecase = GetTodoUsecase::new(&mut eventstore);
    let result = usecase.execute().unwrap();
    assert_eq!(result, plannables);
}

#[test]
fn todo_created_event_opens_the_history_at_sequence_zero() {
    let event = todo_created_event(String::from("Buy book"), None, 11, 22);
    assert_eq!(
        event,
        TodoCreatedEvent { title: String::from("Buy book"), todo_id: 11, event_id: 22, sequence: 0, end_date: None }
    );
}

#[test]
fn adding_twice_creates_two_todos() {
    let mut eventstore = TodoEventStore::clean().unwrap();
    AddTodoUsecase::new(&mut eventstore).execute(String::from("a"), None).unwrap();
    AddTodoUsecase::new(&mut eventstore).execute(String::from("b"), None).unwrap();
    let events = eventstore.get_all().unwrap();
    assert_eq!(events.len(), 2);
    assert_ne!(events[0].todo_id, events[1].todo_id);
}
