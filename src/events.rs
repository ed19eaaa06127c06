//! The domain events of the two aggregate families, todos and tasks.
use crate::timestamp::Timestamp;
use vstd::prelude::*;

verus! {

/// What an event of any aggregate family holds, in mathematical form.
pub struct EventView {
    pub title: Seq<char>,
    pub aggregate_id: u128,
    pub event_id: u128,
    pub sequence: i32,
    pub end_date: Option<Timestamp>,
}

/// A todo was created or changed; `todo_id` names the todo and `sequence`
/// orders the todo's events.
#[derive(Debug, Clone, PartialEq, Eq)]
pub struct TodoCreatedEvent {
    pub title: String,
    pub todo_id: u128,
    pub event_id: u128,
    pub sequence: i32,
    pub end_date: Option<Timestamp>,
}

/// A task was created or changed; `task_id` names the task and `sequence`
/// orders the task's events.
#[derive(Debug, Clone, PartialEq, Eq)]
pub struct TaskCreatedEvent {
    pub title: String,
    pub task_id: u128,
    pub event_id: u128,
    pub sequence: i32,
    pub end_date: Option<Timestamp>,
}

impl View for TodoCreatedEvent {
    type V = EventView;

    open spec fn view(&self) -> EventView {
        EventView {
            title: self.title@,
            aggregate_id: self.todo_id,
            event_id: self.event_id,
            sequence: self.sequence,
            end_date: self.end_date,
        }
    }
}

impl View for TaskCreatedEvent {
    type V = EventView;

    open spec fn view(&self) -> EventView {
        EventView {
            title: self.title@,
            aggregate_id: self.task_id,
            event_id: self.event_id,
            sequence: self.sequence,
            end_date: self.end_date,
        }
    }
}

pub open spec fn todo_views(events: Seq<TodoCreatedEvent>) -> Seq<EventView> {
    events.map_values(|e: TodoCreatedEvent| e@)
}

pub open spec fn task_views(events: Seq<TaskCreatedEvent>) -> Seq<EventView> {
    events.map_values(|e: TaskCreatedEvent| e@)
}

} // verus!
