//! The event log: a table of rows appended to in whole batches, with the
//! laws that appending and reading obey.
use crate::models::{row_views, PlannableEventRow, RowView};
use vstd::prelude::*;

verus! {

/// Why the repository refused an operation.
#[derive(Debug, Clone, Copy, PartialEq, Eq, Structural)]
pub enum RepositoryError {
    /// A row of the batch shares its `event_id`, or its aggregate and
    /// sequence, with a stored row or with another row of the batch.
    Conflict,
    /// The table does not exist.
    Storage,
    /// The aggregate already holds the largest sequence number there is.
    SequenceExhausted,
    /// A row of the batch has a negative sequence number.
    NegativeSequence,
}

/// Two rows that cannot both be stored: the same event, or the same
/// sequence number of the same aggregate.
pub open spec fn collides(a: RowView, b: RowView) -> bool {
    a.event_id == b.event_id || (a.plannable_id == b.plannable_id && a.sequence == b.sequence)
}

pub open spec fn no_collisions(rows: Seq<RowView>) -> bool {
    forall|i: int, j: int| 0 <= i < j < rows.len() ==> !collides(rows[i], rows[j])
}

/// Every row has a non-negative sequence number.
pub open spec fn non_negative(rows: Seq<RowView>) -> bool {
    forall|i: int| 0 <= i < rows.len() ==> (#[trigger] rows[i]).sequence >= 0
}

/// What holds of every table that a repository keeps: its rows never
/// collide, and their sequence numbers are non-negative.
pub open spec fn table_wf(table: Option<Seq<RowView>>) -> bool {
    table matches Some(log) ==> no_collisions(log) && non_negative(log)
}

/// What appending a batch does to the table: the whole batch is added, or
/// nothing is.
pub open spec fn append_outcome(table: Option<Seq<RowView>>, batch: Seq<RowView>) -> Result<
    Seq<RowView>,
    RepositoryError,
> {
    match table {
        None => Err(RepositoryError::Storage),
        Some(log) => if !no_collisions(log + batch) {
            Err(RepositoryError::Conflict)
        } else if !non_negative(batch) {
            Err(RepositoryError::NegativeSequence)
        } else {
            Ok(log + batch)
        },
    }
}

/// The rows of one aggregate, in the order in which they were stored.
pub open spec fn rows_of(log: Seq<RowView>, id: Seq<char>) -> Seq<RowView>
    decreases log.len(),
{
    if log.len() == 0 {
        seq![]
    } else if log.last().plannable_id == id {
        rows_of(log.drop_last(), id).push(log.last())
    } else {
        rows_of(log.drop_last(), id)
    }
}

/// Places `r` after every row whose sequence is not greater than its own.
pub open spec fn insert_by_sequence(sorted: Seq<RowView>, r: RowView) -> Seq<RowView>
    decreases sorted.len(),
{
    if sorted.len() == 0 {
        seq![r]
    } else if r.sequence < sorted.last().sequence {
        insert_by_sequence(sorted.drop_last(), r).push(sorted.last())
    } else {
        sorted.push(r)
    }
}

/// The rows ordered by sequence; rows with equal sequences keep their order.
pub open spec fn sort_by_sequence(rows: Seq<RowView>) -> Seq<RowView>
    decreases rows.len(),
{
    if rows.len() == 0 {
        seq![]
    } else {
        insert_by_sequence(sort_by_sequence(rows.drop_last()), rows.last())
    }
}

pub open spec fn sorted_by_sequence(rows: Seq<RowView>) -> bool {
    forall|i: int, j: int| 0 <= i < j < rows.len() ==> rows[i].sequence <= rows[j].sequence
}

pub open spec fn read_outcome(table: Option<Seq<RowView>>, id: Seq<char>) -> Result<
    Seq<RowView>,
    RepositoryError,
> {
    match table {
        None => Err(RepositoryError::Storage),
        Some(log) => Ok(sort_by_sequence(rows_of(log, id))),
    }
}

pub open spec fn read_all_outcome(table: Option<Seq<RowView>>) -> Result<
    Seq<RowView>,
    RepositoryError,
> {
    match table {
        None => Err(RepositoryError::Storage),
        Some(log) => Ok(sort_by_sequence(log)),
    }
}

/// The table after creating the schema: an existing table is kept.
pub open spec fn created(table: Option<Seq<RowView>>) -> Option<Seq<RowView>> {
    match table {
        None => Some(seq![]),
        Some(log) => Some(log),
    }
}

/// The table after dropping the schema.
pub open spec fn dropped(table: Option<Seq<RowView>>) -> Option<Seq<RowView>> {
    None
}

/// The sequence number that the next event of aggregate `id` takes.
pub open spec fn next_sequence_outcome(table: Option<Seq<RowView>>, id: Seq<char>) -> Result<
    i32,
    RepositoryError,
> {
    match table {
        None => Err(RepositoryError::Storage),
        Some(log) => {
            let highest = highest_sequence(rows_of(log, id));
            if highest + 1 > i32::MAX {
                Err(RepositoryError::SequenceExhausted)
            } else {
                Ok((highest + 1) as i32)
            }
        },
    }
}

/// The highest sequence among the rows, or -1 when none is non-negative.
pub open spec fn highest_sequence(rows: Seq<RowView>) -> int
    decreases rows.len(),
{
    if rows.len() == 0 {
        -1
    } else {
        let rest = highest_sequence(rows.drop_last());
        if rows.last().sequence > rest {
            rows.last().sequence as int
        } else {
            rest
        }
    }
}

pub open spec fn rows_result(r: Result<Vec<PlannableEventRow>, RepositoryError>) -> Result<
    Seq<RowView>,
    RepositoryError,
> {
    match r {
        Ok(v) => Ok(row_views(v@)),
        Err(e) => Err(e),
    }
}

/// The event log of one aggregate family: a table of rows, appended to
/// in whole batches, which may be dropped and created again.
pub struct PlannableEventsRepository {
    table: Option<Vec<PlannableEventRow>>,
}

fn rows_collide(a: &PlannableEventRow, b: &PlannableEventRow) -> (r: bool)
    ensures
        r == collides(a@, b@),
{
    let same_event = a.event_id == b.event_id;
    proof {
        if same_event {
            assert(a.event_id@ =~= b.event_id@);
        }
    }
    same_event || (a.plannable_id == b.plannable_id && a.sequence == b.sequence)
}

/// Whether some row of `batch` collides with a stored row or with another
/// row of `batch`.
fn batch_conflicts(log: &Vec<PlannableEventRow>, batch: &Vec<PlannableEventRow>) -> (r: bool)
    requires
        no_collisions(row_views(log@)),
    ensures
        r == !no_collisions(row_views(log@) + row_views(batch@)),
{
    let ghost all = row_views(log@) + row_views(batch@);
    let ghost n = log.len() as int;
    let mut j: usize = 0;
    while j < batch.len()
        invariant
            0 <= j <= batch.len(),
            n == log.len(),
            all == row_views(log@) + row_views(batch@),
            no_collisions(row_views(log@)),
            forall|p: int, q: int| 0 <= p < q < n + j ==> !collides(all[p], all[q]),
        decreases batch.len() - j,
    {
        let mut i: usize = 0;
        while i < log.len()
            invariant
                0 <= i <= log.len(),
                0 <= j < batch.len(),
                n == log.len(),
                all == row_views(log@) + row_views(batch@),
                forall|p: int| 0 <= p < i ==> !collides(#[trigger] all[p], all[n + j]),
            decreases log.len() - i,
        {
            if rows_collide(&log[i], &batch[j]) {
                assert(collides(all[i as int], all[n + j]));
                return true;
            }
            i += 1;
        }
        let mut k: usize = 0;
        while k < j
            invariant
                0 <= k <= j,
                0 <= j < batch.len(),
                n == log.len(),
                all == row_views(log@) + row_views(batch@),
                forall|p: int| 0 <= p < n + k ==> !collides(#[trigger] all[p], all[n + j]),
            decreases j - k,
        {
            if rows_collide(&batch[k], &batch[j]) {
                assert(collides(all[n + k], all[n + j]));
                return true;
            }
            k += 1;
        }
        j += 1;
    }
    false
}

/// Moves every row of `rows` to the end of `log`, in order.
fn append_rows(log: &mut Vec<PlannableEventRow>, rows: Vec<PlannableEventRow>)
    ensures
        row_views(final(log)@) == row_views(old(log)@) + row_views(rows@),
{
    let mut rows = rows;
    let ghost start = old(log)@;
    let ghost batch = rows@;
    let mut tail: Vec<PlannableEventRow> = Vec::new();
    while rows.len() > 0
        invariant
            batch == rows@ + tail@.reverse(),
            log@ == start,
        decreases rows.len(),
    {
        let r = rows.pop().unwrap();
        tail.push(r);
        assert(batch =~= rows@ + tail@.reverse());
    }
    while tail.len() > 0
        invariant
            start + batch == log@ + tail@.reverse(),
        decreases tail.len(),
    {
        let r = tail.pop().unwrap();
        log.push(r);
        assert(start + batch =~= log@ + tail@.reverse());
    }
    assert(log@ =~= start + batch);
    assert(row_views(log@) =~= row_views(start) + row_views(batch));
}

proof fn lemma_insert_at(sorted: Seq<RowView>, r: RowView, p: int)
    requires
        0 <= p <= sorted.len(),
        forall|k: int| p <= k < sorted.len() ==> r.sequence < #[trigger] sorted[k].sequence,
        p == 0 || sorted[p - 1].sequence <= r.sequence,
    ensures
        insert_by_sequence(sorted, r) == sorted.insert(p, r),
    decreases sorted.len(),
{
    if sorted.len() == 0 {
        assert(sorted.insert(p, r) =~= seq![r]);
    } else if r.sequence < sorted.last().sequence {
        let rest = sorted.drop_last();
        assert(p < sorted.len());
        lemma_insert_at(rest, r, p);
        assert(rest.insert(p, r).push(sorted.last()) =~= sorted.insert(p, r));
    } else {
        assert(p == sorted.len());
        assert(sorted.push(r) =~= sorted.insert(p, r));
    }
}

/// Puts `r` into the sorted rows `out` after every row whose sequence is not
/// greater than its own.
fn insert_sorted(out: &mut Vec<PlannableEventRow>, r: PlannableEventRow)
    ensures
        row_views(final(out)@) == insert_by_sequence(row_views(old(out)@), r@),
{
    let ghost views = row_views(out@);
    let mut p: usize = out.len();
    while p > 0 && r.sequence < out[p - 1].sequence
        invariant
            0 <= p <= out.len(),
            views == row_views(out@),
            forall|k: int| p <= k < out.len() ==> r.sequence < #[trigger] out@[k].sequence,
        decreases p,
    {
        p -= 1;
    }
    proof {
        lemma_insert_at(views, r@, p as int);
    }
    let ghost r_view = r@;
    out.insert(p, r);
    assert(row_views(out@) =~= views.insert(p as int, r_view));
}

pub open spec fn table_view(table: Option<Vec<PlannableEventRow>>) -> Option<Seq<RowView>> {
    match table {
        Some(v) => Some(row_views(v@)),
        None => None,
    }
}

/// Whether some row has a negative sequence number.
fn has_negative_sequence(rows: &Vec<PlannableEventRow>) -> (r: bool)
    ensures
        r == !non_negative(row_views(rows@)),
{
    let mut i: usize = 0;
    while i < rows.len()
        invariant
            0 <= i <= rows.len(),
            forall|k: int| 0 <= k < i ==> (#[trigger] row_views(rows@)[k]).sequence >= 0,
        decreases rows.len() - i,
    {
        if rows[i].sequence < 0 {
            assert(row_views(rows@)[i as int].sequence < 0);
            return true;
        }
        i += 1;
    }
    false
}

fn append_to_table(table: &mut Option<Vec<PlannableEventRow>>, rows: Vec<PlannableEventRow>) -> (r:
    Result<(), RepositoryError>)
    requires
        table_wf(table_view(*old(table))),
    ensures
        table_wf(table_view(*final(table))),
        match append_outcome(table_view(*old(table)), row_views(rows@)) {
            Ok(log) => r is Ok && table_view(*final(table)) == Some(log),
            Err(e) => r == Err::<(), RepositoryError>(e) && table_view(*final(table)) == table_view(
                *old(table),
            ),
        },
{
    match table {
        None => Err(RepositoryError::Storage),
        Some(log) => {
            if batch_conflicts(log, &rows) {
                Err(RepositoryError::Conflict)
            } else if has_negative_sequence(&rows) {
                Err(RepositoryError::NegativeSequence)
            } else {
                let ghost before = row_views(log@);
                let ghost batch = row_views(rows@);
                append_rows(log, rows);
                assert forall|i: int| 0 <= i < (before + batch).len() implies (#[trigger] (before
                    + batch)[i]).sequence >= 0 by {
                    if i >= before.len() {
                        assert((before + batch)[i] == batch[i - before.len()]);
                    }
                }
                Ok(())
            }
        },
    }
}

impl PlannableEventsRepository {
    /// The stored rows, or `None` when the table does not exist.
    pub closed spec fn table(&self) -> Option<Seq<RowView>> {
        table_view(self.table)
    }

    #[verifier::type_invariant]
    pub open spec fn inv(&self) -> bool {
        table_wf(self.table())
    }

    /// An empty repository whose table exists.
    pub fn initialize() -> (r: PlannableEventsRepository)
        ensures
            r.table() == Some(Seq::<RowView>::empty()),
    {
        let r = PlannableEventsRepository { table: Some(Vec::new()) };
        assert(row_views(Seq::<PlannableEventRow>::empty()) =~= Seq::<RowView>::empty());
        r
    }

    /// Appends all of `rows` or none of them: the batch is refused when one
    /// of its rows collides with a stored row or with another of its rows,
    /// or has a negative sequence number.
    pub fn save(&mut self, rows: Vec<PlannableEventRow>) -> (r: Result<(), RepositoryError>)
        ensures
            table_wf(old(self).table()),
            table_wf(final(self).table()),
            match append_outcome(old(self).table(), row_views(rows@)) {
                Ok(log) => r is Ok && final(self).table() == Some(log),
                Err(e) => r == Err::<(), RepositoryError>(e) && final(self).table() == old(
                    self,
                ).table(),
            },
    {
        proof {
            use_type_invariant(&*self);
        }
        let mut table = None;
        std::mem::swap(&mut table, &mut self.table);
        let r = append_to_table(&mut table, rows);
        self.table = table;
        r
    }

    /// Removes the table and its rows.
    pub fn drop_table(&mut self) -> (r: Result<(), RepositoryError>)
        ensures
            r is Ok,
            final(self).table() == dropped(old(self).table()),
    {
        self.table = None;
        Ok(())
    }

    /// Creates the table when it does not exist; an existing one is kept.
    pub fn create_table(&mut self) -> (r: Result<(), RepositoryError>)
        ensures
            r is Ok,
            final(self).table() == created(old(self).table()),
    {
        if self.table.is_none() {
            self.table = Some(Vec::new());
            assert(row_views(Seq::<PlannableEventRow>::empty()) =~= Seq::<RowView>::empty());
        }
        Ok(())
    }

    /// The rows of aggregate `id`, ordered by sequence; none when the
    /// aggregate is unknown.
    pub fn read(&self, id: &String) -> (r: Result<Vec<PlannableEventRow>, RepositoryError>)
        ensures
            table_wf(self.table()),
            rows_result(r) == read_outcome(self.table(), id@),
    {
        proof {
            use_type_invariant(self);
        }
        match &self.table {
            None => Err(RepositoryError::Storage),
            Some(log) => {
                let mut out: Vec<PlannableEventRow> = Vec::new();
                let mut i: usize = 0;
                while i < log.len()
                    invariant
                        0 <= i <= log.len(),
                        row_views(out@) == sort_by_sequence(
                            rows_of(row_views(log@).take(i as int), id@),
                        ),
                    decreases log.len() - i,
                {
                    let ghost before = row_views(log@).take(i as int);
                    assert(row_views(log@).take(i + 1).drop_last() =~= before);
                    if log[i].plannable_id == *id {
                        let row = log[i].duplicate();
                        insert_sorted(&mut out, row);
                        assert(rows_of(before, id@).push(log@[i as int]@).drop_last() =~= rows_of(
                            before,
                            id@,
                        ));
                    }
                    i += 1;
                }
                assert(row_views(log@).take(log.len() as int) =~= row_views(log@));
                Ok(out)
            },
        }
    }

    /// Every stored row, ordered by sequence.
    pub fn get_all(&self) -> (r: Result<Vec<PlannableEventRow>, RepositoryError>)
        ensures
            table_wf(self.table()),
            rows_result(r) == read_all_outcome(self.table()),
    {
        proof {
            use_type_invariant(self);
        }
        match &self.table {
            None => Err(RepositoryError::Storage),
            Some(log) => {
                let mut out: Vec<PlannableEventRow> = Vec::new();
                let mut i: usize = 0;
                while i < log.len()
                    invariant
                        0 <= i <= log.len(),
                        row_views(out@) == sort_by_sequence(row_views(log@).take(i as int)),
                    decreases log.len() - i,
                {
                    assert(row_views(log@).take(i + 1).drop_last() =~= row_views(log@).take(
                        i as int,
                    ));
                    let row = log[i].duplicate();
                    insert_sorted(&mut out, row);
                    i += 1;
                }
                assert(row_views(log@).take(log.len() as int) =~= row_views(log@));
                Ok(out)
            },
        }
    }

    /// One more than the highest sequence that aggregate `id` holds, or 0
    /// when it holds none.
    pub fn next_sequence(&self, id: &String) -> (r: Result<i32, RepositoryError>)
        ensures
            table_wf(self.table()),
            r == next_sequence_outcome(self.table(), id@),
    {
        proof {
            use_type_invariant(self);
        }
        match &self.table {
            None => Err(RepositoryError::Storage),
            Some(log) => {
                let mut highest: i32 = -1;
                let mut i: usize = 0;
                while i < log.len()
                    invariant
                        0 <= i <= log.len(),
                        highest == highest_sequence(rows_of(row_views(log@).take(i as int), id@)),
                    decreases log.len() - i,
                {
                    let ghost before = row_views(log@).take(i as int);
                    assert(row_views(log@).take(i + 1).drop_last() =~= before);
                    if log[i].plannable_id == *id {
                        assert(rows_of(before, id@).push(log@[i as int]@).drop_last() =~= rows_of(
                            before,
                            id@,
                        ));
                        if log[i].sequence > highest {
                            highest = log[i].sequence;
                        }
                    }
                    i += 1;
                }
                assert(row_views(log@).take(log.len() as int) =~= row_views(log@));
                if highest == i32::MAX {
                    Err(RepositoryError::SequenceExhausted)
                } else {
                    Ok(highest + 1)
                }
            },
        }
    }
}

proof fn lemma_rows_of_concat(log: Seq<RowView>, batch: Seq<RowView>, id: Seq<char>)
    ensures
        rows_of(log + batch, id) == rows_of(log, id) + rows_of(batch, id),
    decreases batch.len(),
{
    if batch.len() == 0 {
        assert(log + batch =~= log);
        assert(rows_of(log, id) + rows_of(batch, id) =~= rows_of(log, id));
    } else {
        lemma_rows_of_concat(log, batch.drop_last(), id);
        assert((log + batch).drop_last() =~= log + batch.drop_last());
        assert((log + batch).last() == batch.last());
        if batch.last().plannable_id == id {
            assert(rows_of(log, id) + rows_of(batch.drop_last(), id).push(batch.last()) =~= (rows_of(
                log,
                id,
            ) + rows_of(batch.drop_last(), id)).push(batch.last()));
        }
    }
}

proof fn lemma_rows_of_absent(rows: Seq<RowView>, id: Seq<char>)
    requires
        forall|i: int| 0 <= i < rows.len() ==> (#[trigger] rows[i]).plannable_id != id,
    ensures
        rows_of(rows, id) == Seq::<RowView>::empty(),
    decreases rows.len(),
{
    if rows.len() > 0 {
        lemma_rows_of_absent(rows.drop_last(), id);
    }
}

proof fn lemma_insert_sorted(sorted: Seq<RowView>, r: RowView)
    requires
        sorted_by_sequence(sorted),
    ensures
        sorted_by_sequence(insert_by_sequence(sorted, r)),
        insert_by_sequence(sorted, r).len() == sorted.len() + 1,
        forall|k: int|
            0 <= k < sorted.len() + 1 ==> #[trigger] insert_by_sequence(sorted, r)[k] == r
                || sorted.contains(insert_by_sequence(sorted, r)[k]),
    decreases sorted.len(),
{
    if sorted.len() > 0 && r.sequence < sorted.last().sequence {
        let rest = sorted.drop_last();
        lemma_insert_sorted(rest, r);
        let inserted = insert_by_sequence(rest, r);
        assert forall|k: int| 0 <= k < inserted.len() implies inserted[k].sequence
            <= sorted.last().sequence by {
            if inserted[k] != r {
                let m = choose|m: int| 0 <= m < rest.len() && rest[m] == inserted[k];
                assert(sorted[m] == rest[m]);
            }
        }
        assert forall|k: int| 0 <= k < sorted.len() + 1 implies #[trigger] insert_by_sequence(
            sorted,
            r,
        )[k] == r || sorted.contains(insert_by_sequence(sorted, r)[k]) by {
            if k < inserted.len() {
                if inserted[k] != r {
                    let m = choose|m: int| 0 <= m < rest.len() && rest[m] == inserted[k];
                    assert(sorted[m] == rest[m]);
                }
            } else {
                assert(sorted[sorted.len() - 1] == sorted.last());
            }
        }
    } else if sorted.len() > 0 {
        assert forall|k: int| 0 <= k < sorted.len() + 1 implies #[trigger] insert_by_sequence(
            sorted,
            r,
        )[k] == r || sorted.contains(insert_by_sequence(sorted, r)[k]) by {
            if k < sorted.len() {
                assert(sorted.push(r)[k] == sorted[k]);
            }
        }
    }
}

proof fn lemma_insert_multiset(sorted: Seq<RowView>, r: RowView)
    ensures
        insert_by_sequence(sorted, r).to_multiset() =~= sorted.to_multiset().insert(r),
    decreases sorted.len(),
{
    broadcast use vstd::seq_lib::group_to_multiset_ensures;

    if sorted.len() == 0 {
        assert(seq![r] =~= Seq::<RowView>::empty().push(r));
    } else if r.sequence < sorted.last().sequence {
        let rest = sorted.drop_last();
        lemma_insert_multiset(rest, r);
        assert(rest.push(sorted.last()) =~= sorted);
    }
}

/// Reading orders rows by sequence, and gives back exactly the rows it was
/// given, as many times each.
pub proof fn lemma_sort_by_sequence(rows: Seq<RowView>)
    ensures
        sorted_by_sequence(sort_by_sequence(rows)),
        sort_by_sequence(rows).len() == rows.len(),
        sort_by_sequence(rows).to_multiset() == rows.to_multiset(),
    decreases rows.len(),
{
    broadcast use vstd::seq_lib::group_to_multiset_ensures;

    if rows.len() > 0 {
        lemma_sort_by_sequence(rows.drop_last());
        lemma_insert_sorted(sort_by_sequence(rows.drop_last()), rows.last());
        lemma_insert_multiset(sort_by_sequence(rows.drop_last()), rows.last());
        assert(rows.drop_last().push(rows.last()) =~= rows);
    } else {
        assert(sort_by_sequence(rows).to_multiset() =~= rows.to_multiset());
    }
}

/// Appending one row with a non-negative sequence for an aggregate that
/// holds no rows yet, under an event id that no stored row carries, succeeds; reading that aggregate
/// afterwards gives exactly that row.
pub proof fn law_append_then_read(log: Seq<RowView>, row: RowView)
    requires
        no_collisions(log),
        row.sequence >= 0,
        forall|i: int| 0 <= i < log.len() ==> (#[trigger] log[i]).plannable_id != row.plannable_id,
        forall|i: int| 0 <= i < log.len() ==> (#[trigger] log[i]).event_id != row.event_id,
    ensures
        append_outcome(Some(log), seq![row]) == Ok::<Seq<RowView>, RepositoryError>(log.push(row)),
        read_outcome(Some(log.push(row)), row.plannable_id) == Ok::<Seq<RowView>, RepositoryError>(
            seq![row],
        ),
{
    let all = log + seq![row];
    assert(all =~= log.push(row));
    assert forall|i: int, j: int| 0 <= i < j < all.len() implies !collides(all[i], all[j]) by {
        if j == log.len() {
            assert(all[i] == log[i]);
        }
    }
    lemma_rows_of_absent(log, row.plannable_id);
    assert(log.push(row).drop_last() =~= log);
    assert(rows_of(log.push(row), row.plannable_id) =~= seq![row]);
    assert(seq![row].drop_last() =~= Seq::<RowView>::empty());
    assert(sort_by_sequence(Seq::<RowView>::empty()) =~= Seq::<RowView>::empty());
    assert(sort_by_sequence(seq![row]) == insert_by_sequence(Seq::<RowView>::empty(), row));
}

/// Appending rows of other aggregates never changes what reading aggregate
/// `id` gives.
pub proof fn law_isolation(log: Seq<RowView>, batch: Seq<RowView>, id: Seq<char>)
    requires
        forall|j: int| 0 <= j < batch.len() ==> (#[trigger] batch[j]).plannable_id != id,
    ensures
        read_outcome(Some(log + batch), id) == read_outcome(Some(log), id),
{
    lemma_rows_of_concat(log, batch, id);
    lemma_rows_of_absent(batch, id);
    assert(rows_of(log, id) + rows_of(batch, id) =~= rows_of(log, id));
}

/// Reading an aggregate that holds no rows gives no rows, and no error.
pub proof fn law_unknown_aggregate(log: Seq<RowView>, id: Seq<char>)
    requires
        forall|i: int| 0 <= i < log.len() ==> (#[trigger] log[i]).plannable_id != id,
    ensures
        read_outcome(Some(log), id) == Ok::<Seq<RowView>, RepositoryError>(Seq::<RowView>::empty()),
{
    lemma_rows_of_absent(log, id);
}

/// A batch with a row at a sequence that its aggregate already holds is
/// refused as a whole, and the table is left as it was.
pub proof fn law_conflict_rolls_back(log: Seq<RowView>, batch: Seq<RowView>)
    requires
        exists|i: int, j: int|
            0 <= i < log.len() && 0 <= j < batch.len() && #[trigger] log[i].plannable_id
                == #[trigger] batch[j].plannable_id && log[i].sequence == batch[j].sequence,
    ensures
        append_outcome(Some(log), batch) == Err::<Seq<RowView>, RepositoryError>(
            RepositoryError::Conflict,
        ),
{
    let (i, j) = choose|i: int, j: int|
        0 <= i < log.len() && 0 <= j < batch.len() && #[trigger] log[i].plannable_id
            == #[trigger] batch[j].plannable_id && log[i].sequence == batch[j].sequence;
    let all = log + batch;
    assert(all[i] == log[i]);
    assert(all[log.len() + j] == batch[j]);
    assert(collides(all[i], all[log.len() + j]));
}

/// Dropping the schema and creating it again leaves an empty table.
pub proof fn law_schema_reset(table: Option<Seq<RowView>>)
    ensures
        read_all_outcome(created(dropped(table))) == Ok::<Seq<RowView>, RepositoryError>(
            Seq::<RowView>::empty(),
        ),
{
}

} // verus!
