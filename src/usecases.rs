//! The add-todo and get-todo use cases and the interfaces they work through.
use crate::codec::event_view;
use crate::events::{todo_views, EventView, TodoCreatedEvent};
use crate::repository::read_all_outcome;
use crate::store::{events_outcome, reads_stored, save_outcome, todo_result, StoreError, TodoEventStore};
use crate::timestamp::Timestamp;
use vstd::prelude::*;

verus! {

/// Where the add-todo use case hands the events it builds.
pub trait StoreTodoEvents {
    /// Storing `events` took the store from `self` to `after` and answered
    /// `r`. A store that says nothing of itself promises nothing.
    open spec fn stored(&self, after: &Self, events: Seq<EventView>, r: Result<(), StoreError>) -> bool {
        true
    }

    fn store(&mut self, todo_events: Vec<TodoCreatedEvent>) -> (r: Result<(), StoreError>)
        ensures
            old(self).stored(&*final(self), todo_views(todo_events@), r),
    ;
}

/// Where the get-todo use case takes every todo event from.
pub trait GetTodoEvents {
    /// Listing every event took the store from `self` to `after` and
    /// answered `r`. A store that says nothing of itself promises nothing.
    open spec fn listed(&self, after: &Self, r: Result<Seq<EventView>, StoreError>) -> bool {
        true
    }

    fn get_all(&mut self) -> (r: Result<Vec<TodoCreatedEvent>, StoreError>)
        ensures
            old(self).listed(&*final(self), todo_result(r)),
    ;
}

/// A front end's way to run the add-todo use case.
pub trait AddTodoUseCaseInvoker {
    fn invoke_add_todo_usecase(&mut self, title: String, end_date: Option<Timestamp>);
}

/// A front end's way to run the get-todo use case.
pub trait GetTodoUseCaseInvoker {
    fn invoke_get_todo_usecase(&mut self);
}

impl StoreTodoEvents for TodoEventStore {
    open spec fn stored(
        &self,
        after: &Self,
        events: Seq<EventView>,
        r: Result<(), StoreError>,
    ) -> bool {
        match save_outcome(self.table(), events) {
            Ok(log) => r is Ok && after.table() == Some(log),
            Err(e) => r == Err::<(), StoreError>(e) && after.table() == self.table(),
        }
    }

    fn store(&mut self, todo_events: Vec<TodoCreatedEvent>) -> Result<(), StoreError> {
        self.save(todo_events)
    }
}

impl GetTodoEvents for TodoEventStore {
    open spec fn listed(&self, after: &Self, r: Result<Seq<EventView>, StoreError>) -> bool {
        &&& after.table() == self.table()
        &&& r == events_outcome(read_all_outcome(self.table()))
        &&& reads_stored(read_all_outcome(self.table()), r)
    }

    fn get_all(&mut self) -> Result<Vec<TodoCreatedEvent>, StoreError> {
        TodoEventStore::get_all(&*self)
    }
}

/// Relies on uuid's `Uuid::new_v4`: a random identifier, of which nothing
/// is promised.
#[verifier::external_body]
fn random_uuid() -> (r: u128) {
    uuid::Uuid::new_v4().as_u128()
}

/// The first event of a new todo: it opens the todo's history, so its
/// sequence is 0.
pub fn todo_created_event(
    title: String,
    end_date: Option<Timestamp>,
    todo_id: u128,
    event_id: u128,
) -> (r: TodoCreatedEvent)
    ensures
        r@ == event_view(title@, todo_id, event_id, 0, end_date),
{
    TodoCreatedEvent { title, todo_id, event_id, sequence: 0, end_date }
}

/// Adds a new todo: one event under fresh random identifiers.
pub struct AddTodoUsecase<'a, S: StoreTodoEvents> {
    pub store_todo_events: &'a mut S,
}

impl<'a, S: StoreTodoEvents> AddTodoUsecase<'a, S> {
    pub fn new(store_todo_events: &'a mut S) -> (r: Self)
        ensures
            *r.store_todo_events == *old(store_todo_events),
            *final(store_todo_events) == *final(r.store_todo_events),
    {
        AddTodoUsecase { store_todo_events }
    }

    /// Hands the store the first event of a new todo with the given title
    /// and end date, under fresh random identifiers, and answers what the
    /// store answered.
    pub fn execute(self, title: String, end_date: Option<Timestamp>) -> (r: Result<(), StoreError>)
        ensures
            exists|todo_id: u128, event_id: u128|
                #[trigger] (*old(self.store_todo_events)).stored(
                    &*final(self.store_todo_events),
                    seq![event_view(title@, todo_id, event_id, 0, end_date)],
                    r,
                ),
    {
        let todo_id = random_uuid();
        let event_id = random_uuid();
        let ghost title_view = title@;
        let mut todo: Vec<TodoCreatedEvent> = Vec::new();
        todo.push(todo_created_event(title, end_date, todo_id, event_id));
        assert(todo_views(todo@) =~= seq![event_view(title_view, todo_id, event_id, 0, end_date)]);
        self.store_todo_events.store(todo)
    }
}

/// Lists every todo event, of all todos.
pub struct GetTodoUsecase<'a, G: GetTodoEvents> {
    pub get_todo_events: &'a mut G,
}

impl<'a, G: GetTodoEvents> GetTodoUsecase<'a, G> {
    pub fn new(get_todo_events: &'a mut G) -> (r: Self)
        ensures
            *r.get_todo_events == *old(get_todo_events),
            *final(get_todo_events) == *final(r.get_todo_events),
    {
        GetTodoUsecase { get_todo_events }
    }

    /// Answers what the store lists, unchanged.
    pub fn execute(self) -> (r: Result<Vec<TodoCreatedEvent>, StoreError>)
        ensures
            (*old(self.get_todo_events)).listed(&*final(self.get_todo_events), todo_result(r)),
    {
        self.get_todo_events.get_all()
    }
}

} // verus!
