//! One event store per aggregate family, binding the codec to the
//! repository.
use crate::codec::{decode_spec, encode_spec, event_wf, format_uuid, uuid_text, MalformedRow};
use crate::events::{task_views, todo_views, EventView, TaskCreatedEvent, TodoCreatedEvent};
use crate::models::{row_views, PlannableEventRow, RowView};
use crate::repository::{
    append_outcome, law_append_then_read, law_conflict_rolls_back, next_sequence_outcome,
    no_collisions, read_all_outcome, read_outcome, table_wf, PlannableEventsRepository,
    RepositoryError,
};
use vstd::prelude::*;

verus! {

/// Why a store operation failed.
#[derive(Debug, Clone, Copy, PartialEq, Eq, Structural)]
pub enum StoreError {
    /// The batch collides with stored events or within itself; nothing was saved.
    Conflict,
    /// The table does not exist.
    Storage,
    /// The aggregate already holds the largest sequence number there is.
    SequenceExhausted,
    /// An event of the batch has a negative sequence number; nothing was saved.
    NegativeSequence,
    /// A stored row cannot be read back as an event.
    Malformed(MalformedRow),
}

pub open spec fn store_error(e: RepositoryError) -> StoreError {
    match e {
        RepositoryError::Conflict => StoreError::Conflict,
        RepositoryError::Storage => StoreError::Storage,
        RepositoryError::SequenceExhausted => StoreError::SequenceExhausted,
        RepositoryError::NegativeSequence => StoreError::NegativeSequence,
    }
}

fn to_store_error(e: RepositoryError) -> (r: StoreError)
    ensures
        r == store_error(e),
{
    match e {
        RepositoryError::Conflict => StoreError::Conflict,
        RepositoryError::Storage => StoreError::Storage,
        RepositoryError::SequenceExhausted => StoreError::SequenceExhausted,
        RepositoryError::NegativeSequence => StoreError::NegativeSequence,
    }
}

/// The rows that store the events, one for each, in order.
pub open spec fn encode_all(events: Seq<EventView>) -> Seq<RowView> {
    events.map_values(|e: EventView| encode_spec(e))
}

/// The events that the rows store, or the first row that stores none.
pub open spec fn decode_all(rows: Seq<RowView>) -> Result<Seq<EventView>, MalformedRow>
    decreases rows.len(),
{
    if rows.len() == 0 {
        Ok(seq![])
    } else {
        match decode_all(rows.drop_last()) {
            Err(x) => Err(x),
            Ok(events) => match decode_spec(rows.last()) {
                Ok(e) => Ok(events.push(e)),
                Err(x) => Err(x),
            },
        }
    }
}

/// What a read gives once the rows are decoded.
pub open spec fn events_outcome(rows: Result<Seq<RowView>, RepositoryError>) -> Result<
    Seq<EventView>,
    StoreError,
> {
    match rows {
        Err(e) => Err(store_error(e)),
        Ok(rs) => match decode_all(rs) {
            Ok(events) => Ok(events),
            Err(x) => Err(StoreError::Malformed(x)),
        },
    }
}

pub open spec fn save_outcome(table: Option<Seq<RowView>>, events: Seq<EventView>) -> Result<
    Seq<RowView>,
    StoreError,
> {
    match append_outcome(table, encode_all(events)) {
        Ok(log) => Ok(log),
        Err(e) => Err(store_error(e)),
    }
}

pub open spec fn sequence_outcome(table: Option<Seq<RowView>>, id: u128) -> Result<i32, StoreError> {
    match next_sequence_outcome(table, uuid_text(id)) {
        Ok(n) => Ok(n),
        Err(e) => Err(store_error(e)),
    }
}

/// The rows are the rows of exactly these events, each of which is valid.
pub open spec fn stores_events(rows: Seq<RowView>, events: Seq<EventView>) -> bool {
    &&& rows.len() == events.len()
    &&& forall|i: int|
        0 <= i < rows.len() ==> event_wf(#[trigger] events[i]) && rows[i] == encode_spec(events[i])
}

/// Whether reading the rows yields the events when they store them.
pub open spec fn reads_stored(
    rows: Result<Seq<RowView>, RepositoryError>,
    r: Result<Seq<EventView>, StoreError>,
) -> bool {
    forall|events: Seq<EventView>|
        rows matches Ok(rs) && stores_events(rs, events) ==> r == Ok::<Seq<EventView>, StoreError>(events)
}

/// Saving one valid event with a non-negative sequence, of an aggregate that has no events yet, under an
/// event id that no stored row carries, succeeds; reading that aggregate
/// afterwards gives the rows of exactly that event, which a read returns as
/// that event.
pub proof fn law_save_then_read(log: Seq<RowView>, e: EventView)
    requires
        no_collisions(log),
        event_wf(e),
        e.sequence >= 0,
        forall|i: int| 0 <= i < log.len() ==> (#[trigger] log[i]).plannable_id != uuid_text(e.aggregate_id),
        forall|i: int| 0 <= i < log.len() ==> (#[trigger] log[i]).event_id != encode_spec(e).event_id,
    ensures
        save_outcome(Some(log), seq![e]) == Ok::<Seq<RowView>, StoreError>(log.push(encode_spec(e))),
        read_outcome(Some(log.push(encode_spec(e))), uuid_text(e.aggregate_id)) matches Ok(rows)
            && stores_events(rows, seq![e]),
{
    assert(encode_all(seq![e]) =~= seq![encode_spec(e)]);
    law_append_then_read(log, encode_spec(e));
}

/// Saving a batch with an event at a sequence that its aggregate already
/// holds fails with a conflict, and a failed save leaves the table as it was.
pub proof fn law_save_conflict_rolls_back(log: Seq<RowView>, events: Seq<EventView>)
    requires
        exists|i: int, j: int|
            0 <= i < log.len() && 0 <= j < events.len() && #[trigger] log[i].plannable_id
                == uuid_text(#[trigger] events[j].aggregate_id) && log[i].sequence
                == events[j].sequence,
    ensures
        save_outcome(Some(log), events) == Err::<Seq<RowView>, StoreError>(StoreError::Conflict),
{
    let (i, j) = choose|i: int, j: int|
        0 <= i < log.len() && 0 <= j < events.len() && #[trigger] log[i].plannable_id
            == uuid_text(#[trigger] events[j].aggregate_id) && log[i].sequence
            == events[j].sequence;
    let batch = encode_all(events);
    assert(batch[j] == encode_spec(events[j]));
    assert(log[i].plannable_id == batch[j].plannable_id && log[i].sequence == batch[j].sequence);
    law_conflict_rolls_back(log, batch);
}

proof fn lemma_decode_all_err(rows: Seq<RowView>, k: int)
    requires
        0 <= k <= rows.len(),
        decode_all(rows.take(k)) is Err,
    ensures
        decode_all(rows) == decode_all(rows.take(k)),
    decreases rows.len() - k,
{
    if k < rows.len() {
        assert(rows.take(k + 1).drop_last() =~= rows.take(k));
        lemma_decode_all_err(rows, k + 1);
    } else {
        assert(rows.take(k) =~= rows);
    }
}

pub open spec fn todo_result(r: Result<Vec<TodoCreatedEvent>, StoreError>) -> Result<Seq<EventView>, StoreError> {
    match r {
        Ok(v) => Ok(todo_views(v@)),
        Err(e) => Err(e),
    }
}

fn encode_todo_events(events: &Vec<TodoCreatedEvent>) -> (r: Vec<PlannableEventRow>)
    ensures
        row_views(r@) == encode_all(todo_views(events@)),
{
    let mut rows: Vec<PlannableEventRow> = Vec::new();
    let mut i: usize = 0;
    while i < events.len()
        invariant
            0 <= i <= events.len(),
            row_views(rows@) == encode_all(todo_views(events@)).take(i as int),
        decreases events.len() - i,
    {
        let row = PlannableEventRow::from_todo_event(&events[i]);
        let ghost prev = row_views(rows@);
        let ghost all = encode_all(todo_views(events@));
        rows.push(row);
        assert(row_views(rows@) =~= prev.push(all[i as int]));
        assert(all.take(i + 1) =~= all.take(i as int).push(all[i as int]));
        i += 1;
    }
    assert(encode_all(todo_views(events@)).take(events.len() as int) =~= encode_all(
        todo_views(events@),
    ));
    rows
}

fn decode_todo_rows(rows: &Vec<PlannableEventRow>) -> (r: Result<Vec<TodoCreatedEvent>, MalformedRow>)
    ensures
        match r {
            Ok(v) => decode_all(row_views(rows@)) == Ok::<Seq<EventView>, MalformedRow>(todo_views(v@)),
            Err(x) => decode_all(row_views(rows@)) == Err::<Seq<EventView>, MalformedRow>(x),
        },
        forall|events: Seq<EventView>|
            stores_events(row_views(rows@), events) ==> (r matches Ok(v) && todo_views(v@) == events),
{
    let ghost views = row_views(rows@);
    let mut out: Vec<TodoCreatedEvent> = Vec::new();
    let mut i: usize = 0;
    assert(views.take(0) =~= Seq::<RowView>::empty());
    assert(todo_views(out@) =~= Seq::<EventView>::empty());
    while i < rows.len()
        invariant
            0 <= i <= rows.len(),
            views == row_views(rows@),
            decode_all(views.take(i as int)) == Ok::<Seq<EventView>, MalformedRow>(todo_views(out@)),
            forall|events: Seq<EventView>|
                stores_events(views, events) ==> todo_views(out@) == events.take(i as int),
        decreases rows.len() - i,
    {
        assert(views.take(i + 1).drop_last() =~= views.take(i as int));
        assert(views.take(i + 1).last() == rows@[i as int]@);
        match TodoCreatedEvent::from_row(&rows[i]) {
            Ok(e) => {
                let ghost before = todo_views(out@);
                let ghost decoded = e@;
                out.push(e);
                assert(todo_views(out@) =~= before.push(decoded));
                assert forall|events: Seq<EventView>| stores_events(views, events) implies todo_views(
                    out@,
                ) == events.take(i + 1) by {
                    assert(events.take(i + 1) =~= events.take(i as int).push(events[i as int]));
                }
            },
            Err(x) => {
                proof {
                    lemma_decode_all_err(views, i + 1);
                }
                assert forall|events: Seq<EventView>| stores_events(views, events) implies false by {
                    assert(event_wf(events[i as int]) && rows@[i as int]@ == encode_spec(events[i as int]));
                }
                return Err(x);
            },
        }
        i += 1;
    }
    assert(views.take(rows.len() as int) =~= views);
    assert forall|events: Seq<EventView>| stores_events(views, events) implies todo_views(out@)
        == events by {
        assert(events.take(rows.len() as int) =~= events);
    }
    Ok(out)
}

fn todo_events_result(rows: Result<Vec<PlannableEventRow>, RepositoryError>) -> (r: Result<
    Vec<TodoCreatedEvent>,
    StoreError,
>)
    ensures
        todo_result(r) == events_outcome(crate::repository::rows_result(rows)),
        reads_stored(crate::repository::rows_result(rows), todo_result(r)),
{
    match rows {
        Err(e) => Err(to_store_error(e)),
        Ok(rows) => match decode_todo_rows(&rows) {
            Ok(events) => Ok(events),
            Err(x) => Err(StoreError::Malformed(x)),
        },
    }
}

/// The event store of the todo family.
pub struct TodoEventStore {
    repository: PlannableEventsRepository,
}

impl TodoEventStore {
    /// The stored rows, or `None` when the table does not exist.
    pub closed spec fn table(&self) -> Option<Seq<RowView>> {
        self.repository.table()
    }

    /// A store with an empty table.
    pub fn new() -> (r: TodoEventStore)
        ensures
            r.table() == Some(Seq::<RowView>::empty()),
    {
        TodoEventStore { repository: PlannableEventsRepository::initialize() }
    }

    /// A store over the given repository.
    pub fn with_repository(repository: PlannableEventsRepository) -> (r: TodoEventStore)
        ensures
            r.table() == repository.table(),
            table_wf(r.table()),
    {
        proof {
            use_type_invariant(&repository);
        }
        TodoEventStore { repository }
    }

    /// A store whose table was dropped and created again, so that it is empty.
    pub fn clean() -> (r: Result<TodoEventStore, StoreError>)
        ensures
            r matches Ok(s) && s.table() == Some(Seq::<RowView>::empty()),
    {
        let mut instance = Self::new();
        match instance.repository.drop_table() {
            Ok(()) => {},
            Err(e) => {
                return Err(to_store_error(e));
            },
        }
        match instance.repository.create_table() {
            Ok(()) => {},
            Err(e) => {
                return Err(to_store_error(e));
            },
        }
        Ok(instance)
    }

    /// Saves all of the events or none of them; a conflict, a negative
    /// sequence number and a missing table are told apart.
    pub fn save(&mut self, todocreatedsevents: Vec<TodoCreatedEvent>) -> (r: Result<(), StoreError>)
        ensures
            table_wf(old(self).table()),
            table_wf(final(self).table()),
            match save_outcome(old(self).table(), todo_views(todocreatedsevents@)) {
                Ok(log) => r is Ok && final(self).table() == Some(log),
                Err(e) => r == Err::<(), StoreError>(e) && final(self).table() == old(self).table(),
            },
    {
        let rows = encode_todo_events(&todocreatedsevents);
        match self.repository.save(rows) {
            Ok(()) => Ok(()),
            Err(e) => Err(to_store_error(e)),
        }
    }

    /// The events of one todo, ordered by sequence; none for an unknown id.
    pub fn read(&self, todo_id: u128) -> (r: Result<Vec<TodoCreatedEvent>, StoreError>)
        ensures
            table_wf(self.table()),
            todo_result(r) == events_outcome(read_outcome(self.table(), uuid_text(todo_id))),
            reads_stored(read_outcome(self.table(), uuid_text(todo_id)), todo_result(r)),
    {
        let id = format_uuid(todo_id);
        let rows = self.repository.read(&id);
        todo_events_result(rows)
    }

    /// Every stored event, ordered by sequence.
    pub fn get_all(&self) -> (r: Result<Vec<TodoCreatedEvent>, StoreError>)
        ensures
            table_wf(self.table()),
            todo_result(r) == events_outcome(read_all_outcome(self.table())),
            reads_stored(read_all_outcome(self.table()), todo_result(r)),
    {
        let rows = self.repository.get_all();
        todo_events_result(rows)
    }

    /// The sequence number that the next event of a todo takes: one more
    /// than the highest it holds, or 0 for a new one.
    pub fn next_sequence(&self, todo_id: u128) -> (r: Result<i32, StoreError>)
        ensures
            table_wf(self.table()),
            r == sequence_outcome(self.table(), todo_id),
    {
        let id = format_uuid(todo_id);
        match self.repository.next_sequence(&id) {
            Ok(n) => Ok(n),
            Err(e) => Err(to_store_error(e)),
        }
    }
}

pub open spec fn task_result(r: Result<Vec<TaskCreatedEvent>, StoreError>) -> Result<Seq<EventView>, StoreError> {
    match r {
        Ok(v) => Ok(task_views(v@)),
        Err(e) => Err(e),
    }
}

fn encode_task_events(events: &Vec<TaskCreatedEvent>) -> (r: Vec<PlannableEventRow>)
    ensures
        row_views(r@) == encode_all(task_views(events@)),
{
    let mut rows: Vec<PlannableEventRow> = Vec::new();
    let mut i: usize = 0;
    while i < events.len()
        invariant
            0 <= i <= events.len(),
            row_views(rows@) == encode_all(task_views(events@)).take(i as int),
        decreases events.len() - i,
    {
        let row = PlannableEventRow::from_task_event(&events[i]);
        let ghost prev = row_views(rows@);
        let ghost all = encode_all(task_views(events@));
        rows.push(row);
        assert(row_views(rows@) =~= prev.push(all[i as int]));
        assert(all.take(i + 1) =~= all.take(i as int).push(all[i as int]));
        i += 1;
    }
    assert(encode_all(task_views(events@)).take(events.len() as int) =~= encode_all(
        task_views(events@),
    ));
    rows
}

fn decode_task_rows(rows: &Vec<PlannableEventRow>) -> (r: Result<Vec<TaskCreatedEvent>, MalformedRow>)
    ensures
        match r {
            Ok(v) => decode_all(row_views(rows@)) == Ok::<Seq<EventView>, MalformedRow>(task_views(v@)),
            Err(x) => decode_all(row_views(rows@)) == Err::<Seq<EventView>, MalformedRow>(x),
        },
        forall|events: Seq<EventView>|
            stores_events(row_views(rows@), events) ==> (r matches Ok(v) && task_views(v@) == events),
{
    let ghost views = row_views(rows@);
    let mut out: Vec<TaskCreatedEvent> = Vec::new();
    let mut i: usize = 0;
    assert(views.take(0) =~= Seq::<RowView>::empty());
    assert(task_views(out@) =~= Seq::<EventView>::empty());
    while i < rows.len()
        invariant
            0 <= i <= rows.len(),
            views == row_views(rows@),
            decode_all(views.take(i as int)) == Ok::<Seq<EventView>, MalformedRow>(task_views(out@)),
            forall|events: Seq<EventView>|
                stores_events(views, events) ==> task_views(out@) == events.take(i as int),
        decreases rows.len() - i,
    {
        assert(views.take(i + 1).drop_last() =~= views.take(i as int));
        assert(views.take(i + 1).last() == rows@[i as int]@);
        match TaskCreatedEvent::from_row(&rows[i]) {
            Ok(e) => {
                let ghost before = task_views(out@);
                let ghost decoded = e@;
                out.push(e);
                assert(task_views(out@) =~= before.push(decoded));
                assert forall|events: Seq<EventView>| stores_events(views, events) implies task_views(
                    out@,
                ) == events.take(i + 1) by {
                    assert(events.take(i + 1) =~= events.take(i as int).push(events[i as int]));
                }
            },
            Err(x) => {
                proof {
                    lemma_decode_all_err(views, i + 1);
                }
                assert forall|events: Seq<EventView>| stores_events(views, events) implies false by {
                    assert(event_wf(events[i as int]) && rows@[i as int]@ == encode_spec(events[i as int]));
                }
                return Err(x);
            },
        }
        i += 1;
    }
    assert(views.take(rows.len() as int) =~= views);
    assert forall|events: Seq<EventView>| stores_events(views, events) implies task_views(out@)
        == events by {
        assert(events.take(rows.len() as int) =~= events);
    }
    Ok(out)
}

fn task_events_result(rows: Result<Vec<PlannableEventRow>, RepositoryError>) -> (r: Result<
    Vec<TaskCreatedEvent>,
    StoreError,
>)
    ensures
        task_result(r) == events_outcome(crate::repository::rows_result(rows)),
        reads_stored(crate::repository::rows_result(rows), task_result(r)),
{
    match rows {
        Err(e) => Err(to_store_error(e)),
        Ok(rows) => match decode_task_rows(&rows) {
            Ok(events) => Ok(events),
            Err(x) => Err(StoreError::Malformed(x)),
        },
    }
}

/// The event store of the task family.
pub struct TaskEventStore {
    repository: PlannableEventsRepository,
}

impl TaskEventStore {
    /// The stored rows, or `None` when the table does not exist.
    pub closed spec fn table(&self) -> Option<Seq<RowView>> {
        self.repository.table()
    }

    /// A store with an empty table.
    pub fn new() -> (r: TaskEventStore)
        ensures
            r.table() == Some(Seq::<RowView>::empty()),
    {
        TaskEventStore { repository: PlannableEventsRepository::initialize() }
    }

    /// A store over the given repository.
    pub fn with_repository(repository: PlannableEventsRepository) -> (r: TaskEventStore)
        ensures
            r.table() == repository.table(),
            table_wf(r.table()),
    {
        proof {
            use_type_invariant(&repository);
        }
        TaskEventStore { repository }
    }

    /// A store whose table was dropped and created again, so that it is empty.
    pub fn clean() -> (r: Result<TaskEventStore, StoreError>)
        ensures
            r matches Ok(s) && s.table() == Some(Seq::<RowView>::empty()),
    {
        let mut instance = Self::new();
        match instance.repository.drop_table() {
            Ok(()) => {},
            Err(e) => {
                return Err(to_store_error(e));
            },
        }
        match instance.repository.create_table() {
            Ok(()) => {},
            Err(e) => {
                return Err(to_store_error(e));
            },
        }
        Ok(instance)
    }

    /// Saves all of the events or none of them; a conflict, a negative
    /// sequence number and a missing table are told apart.
    pub fn save(&mut self, taskcreatedsevents: Vec<TaskCreatedEvent>) -> (r: Result<(), StoreError>)
        ensures
            table_wf(old(self).table()),
            table_wf(final(self).table()),
            match save_outcome(old(self).table(), task_views(taskcreatedsevents@)) {
                Ok(log) => r is Ok && final(self).table() == Some(log),
                Err(e) => r == Err::<(), StoreError>(e) && final(self).table() == old(self).table(),
            },
    {
        let rows = encode_task_events(&taskcreatedsevents);
        match self.repository.save(rows) {
            Ok(()) => Ok(()),
            Err(e) => Err(to_store_error(e)),
        }
    }

    /// The events of one task, ordered by sequence; none for an unknown id.
    pub fn read(&self, task_id: u128) -> (r: Result<Vec<TaskCreatedEvent>, StoreError>)
        ensures
            table_wf(self.table()),
            task_result(r) == events_outcome(read_outcome(self.table(), uuid_text(task_id))),
            reads_stored(read_outcome(self.table(), uuid_text(task_id)), task_result(r)),
    {
        let id = format_uuid(task_id);
        let rows = self.repository.read(&id);
        task_events_result(rows)
    }

    /// Every stored event, ordered by sequence.
    pub fn get_all(&self) -> (r: Result<Vec<TaskCreatedEvent>, StoreError>)
        ensures
            table_wf(self.table()),
            task_result(r) == events_outcome(read_all_outcome(self.table())),
            reads_stored(read_all_outcome(self.table()), task_result(r)),
    {
        let rows = self.repository.get_all();
        task_events_result(rows)
    }

    /// The sequence number that the next event of a task takes: one more
    /// than the highest it holds, or 0 for a new one.
    pub fn next_sequence(&self, task_id: u128) -> (r: Result<i32, StoreError>)
        ensures
            table_wf(self.table()),
            r == sequence_outcome(self.table(), task_id),
    {
        let id = format_uuid(task_id);
        match self.repository.next_sequence(&id) {
            Ok(n) => Ok(n),
            Err(e) => Err(to_store_error(e)),
        }
    }
}

} // verus!
