//! The stored form of an event.
use vstd::prelude::*;

verus! {

/// A stored row in mathematical form.
pub struct RowView {
    pub event_id: Seq<u8>,
    pub plannable_id: Seq<char>,
    pub sequence: i32,
    pub body: Seq<u8>,
}

/// The stored form of one event: its identifiers and sequence as columns,
/// everything else in `body`.
#[derive(Debug, Clone, PartialEq, Eq)]
pub struct PlannableEventRow {
    pub event_id: Vec<u8>,
    pub plannable_id: String,
    pub sequence: i32,
    pub body: Vec<u8>,
}

impl View for PlannableEventRow {
    type V = RowView;

    open spec fn view(&self) -> RowView {
        RowView {
            event_id: self.event_id@,
            plannable_id: self.plannable_id@,
            sequence: self.sequence,
            body: self.body@,
        }
    }
}

pub open spec fn row_views(rows: Seq<PlannableEventRow>) -> Seq<RowView> {
    rows.map_values(|r: PlannableEventRow| r@)
}

impl PlannableEventRow {
    /// A copy of the row with the same contents.
    pub fn duplicate(&self) -> (r: PlannableEventRow)
        ensures
            r@ == self@,
    {
        PlannableEventRow {
            event_id: vstd::slice::slice_to_vec(self.event_id.as_slice()),
            plannable_id: self.plannable_id.clone(),
            sequence: self.sequence,
            body: vstd::slice::slice_to_vec(self.body.as_slice()),
        }
    }
}

} // verus!
