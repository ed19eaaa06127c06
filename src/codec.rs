//! The codec between events and stored rows: identifiers as UUID text in
//! their own columns, title and end date as a JSON object in `body`.
use crate::events::{EventView, TaskCreatedEvent, TodoCreatedEvent};
use crate::models::{PlannableEventRow, RowView};
use crate::timestamp::{datetime_parsed, datetime_text, format_datetime, parse_datetime, Timestamp};
use serde::Serializer;
use vstd::prelude::*;
use vstd::string::StrSliceExecFns;
use vstd::utf8::{decode_utf8, encode_utf8, valid_utf8};

verus! {

broadcast use {vstd::utf8::encode_utf8_valid_utf8, vstd::utf8::encode_utf8_decode_utf8};

/// Why a stored row cannot be read back as an event.
#[derive(Debug, Clone, Copy, PartialEq, Eq, Structural)]
pub enum MalformedRow {
    /// `event_id` is not the UTF-8 text of a UUID.
    EventId,
    /// `plannable_id` is not the text of a UUID.
    PlannableId,
    /// `body` is not a JSON object with a text `title` and an optional
    /// `end_date` that is null or a date and time.
    Body,
}

/// The lower-case hexadecimal digit of a value below 16.
pub open spec fn hex_digit(n: u128) -> char {
    seq!['0', '1', '2', '3', '4', '5', '6', '7', '8', '9', 'a', 'b', 'c', 'd', 'e', 'f'][n as int]
}

/// Which of the 32 hexadecimal digits character `i` of the hyphenated text
/// shows, counted from the most significant.
pub open spec fn digit_position(i: int) -> int {
    if i < 8 {
        i
    } else if i < 13 {
        i - 1
    } else if i < 18 {
        i - 2
    } else if i < 23 {
        i - 3
    } else {
        i - 4
    }
}

/// The hyphenated lower-case text that uuid writes for an identifier: its
/// 32 hexadecimal digits, most significant first, with a hyphen after the
/// 8th, 12th, 16th and 20th.
pub open spec fn uuid_text(id: u128) -> Seq<char> {
    Seq::new(
        36,
        |i: int|
            if i == 8 || i == 13 || i == 18 || i == 23 {
                '-'
            } else {
                hex_digit((id >> ((4 * (31 - digit_position(i))) as u128)) & 15)
            },
    )
}

/// What uuid's `Uuid::parse_str` reads from a text.
pub uninterp spec fn uuid_parsed(s: Seq<char>) -> Option<u128>;

/// The bytes that serde_json writes for a JSON object whose entries are the
/// given keys, each with a text or null, in the given order.
pub uninterp spec fn json_object_text(entries: Seq<(Seq<char>, Option<Seq<char>>)>) -> Seq<u8>;

/// The entries that serde_json reads from bytes that hold a JSON object,
/// each value told apart as null, text or anything else.
pub uninterp spec fn json_object_read(bytes: Seq<u8>) -> Option<Seq<(Seq<char>, JsonFieldView)>>;

/// A value of a JSON object entry, as far as the codec tells them apart.
#[derive(Debug)]
pub enum JsonField {
    Null,
    Text(String),
    Other,
}

pub enum JsonFieldView {
    Null,
    Text(Seq<char>),
    Other,
}

impl View for JsonField {
    type V = JsonFieldView;

    open spec fn view(&self) -> JsonFieldView {
        match self {
            JsonField::Null => JsonFieldView::Null,
            JsonField::Text(s) => JsonFieldView::Text(s@),
            JsonField::Other => JsonFieldView::Other,
        }
    }
}

pub open spec fn text_or_null(v: Option<String>) -> Option<Seq<char>> {
    match v {
        Some(s) => Some(s@),
        None => None,
    }
}

pub open spec fn written_entries(v: Seq<(String, Option<String>)>) -> Seq<(Seq<char>, Option<Seq<char>>)> {
    v.map_values(|p: (String, Option<String>)| (p.0@, text_or_null(p.1)))
}

pub open spec fn read_entries(v: Seq<(String, JsonField)>) -> Seq<(Seq<char>, JsonFieldView)> {
    v.map_values(|p: (String, JsonField)| (p.0@, p.1@))
}

/// The value of the first entry with the given key.
pub open spec fn json_field(entries: Seq<(Seq<char>, JsonFieldView)>, key: Seq<char>) -> Option<
    JsonFieldView,
>
    decreases entries.len(),
{
    if entries.len() == 0 {
        None
    } else if entries[0].0 == key {
        Some(entries[0].1)
    } else {
        json_field(entries.drop_first(), key)
    }
}

pub open spec fn written_field(v: Option<Seq<char>>) -> JsonFieldView {
    match v {
        Some(s) => JsonFieldView::Text(s),
        None => JsonFieldView::Null,
    }
}

pub open spec fn distinct_keys(es: Seq<(Seq<char>, Option<Seq<char>>)>) -> bool {
    forall|i: int, j: int| 0 <= i < j < es.len() ==> es[i].0 != es[j].0
}

/// Every written key is read back with the value that was written for it.
pub open spec fn reads_back(
    read: Seq<(Seq<char>, JsonFieldView)>,
    written: Seq<(Seq<char>, Option<Seq<char>>)>,
) -> bool {
    forall|i: int|
        0 <= i < written.len() ==> json_field(read, #[trigger] written[i].0) == Some(
            written_field(written[i].1),
        )
}

pub open spec fn entries_read(r: Option<Vec<(String, JsonField)>>) -> Option<
    Seq<(Seq<char>, JsonFieldView)>,
> {
    match r {
        Some(v) => Some(read_entries(v@)),
        None => None,
    }
}

pub open spec fn object_reads_back(
    read: Option<Seq<(Seq<char>, JsonFieldView)>>,
    written: Seq<(Seq<char>, Option<Seq<char>>)>,
) -> bool {
    read matches Some(entries) && reads_back(entries, written)
}

/// Relies on uuid's `Uuid::from_u128` and its `Display`, which writes the
/// hyphenated lower-case form.
#[verifier::external_body]
pub(crate) fn format_uuid(id: u128) -> (r: String)
    ensures
        r@ == uuid_text(id),
{
    uuid::Uuid::from_u128(id).to_string()
}

/// Relies on uuid's `Uuid::parse_str`, which reads every form that uuid
/// writes, the hyphenated one among them.
#[verifier::external_body]
fn parse_uuid(s: &str) -> (r: Option<u128>)
    ensures
        r == uuid_parsed(s@),
        forall|id: u128| #[trigger] uuid_text(id) == s@ ==> r == Some(id),
{
    uuid::Uuid::parse_str(s).ok().map(|u| u.as_u128())
}

/// Relies on std's `str::from_utf8`: it accepts exactly the valid UTF-8
/// byte strings and decodes them.
#[verifier::external_body]
fn utf8_text(bytes: &[u8]) -> (r: Option<&str>)
    ensures
        r is Some <==> valid_utf8(bytes@),
        r matches Some(s) ==> s@ == decode_utf8(bytes@),
{
    std::str::from_utf8(bytes).ok()
}

/// Relies on serde_json's `Serializer::collect_map`, which writes the
/// entries as one JSON object in the order given; writing into a `Vec`
/// does not fail, and the keys are strings.
#[verifier::external_body]
fn write_json_object(entries: &Vec<(String, Option<String>)>) -> (r: Vec<u8>)
    ensures
        r@ == json_object_text(written_entries(entries@)),
{
    let mut ser = serde_json::Serializer::new(Vec::new());
    let written = (&mut ser).collect_map(entries.iter().map(|(k, v)| (k, v)));
    written.map(|()| ser.into_inner()).unwrap_or_default()
}

/// Relies on serde_json's `from_slice` into a `Map<String, Value>`: it
/// reads any JSON object, and an object that serde_json wrote with distinct
/// keys gives back each key with its value.
#[verifier::external_body]
fn read_json_object(bytes: &[u8]) -> (r: Option<Vec<(String, JsonField)>>)
    ensures
        entries_read(r) == json_object_read(bytes@),
        forall|es: Seq<(Seq<char>, Option<Seq<char>>)>|
            distinct_keys(es) && #[trigger] json_object_text(es) == bytes@ ==> object_reads_back(
                entries_read(r),
                es,
            ),
{
    let map = serde_json::from_slice::<serde_json::Map<String, serde_json::Value>>(bytes).ok();
    map.map(|m| m.into_iter().map(|(k, v)| (k, match v {
            serde_json::Value::Null => JsonField::Null,
            serde_json::Value::String(s) => JsonField::Text(s),
            _ => JsonField::Other,
        })).collect())
}

pub open spec fn event_view(
    title: Seq<char>,
    aggregate_id: u128,
    event_id: u128,
    sequence: i32,
    end_date: Option<Timestamp>,
) -> EventView {
    EventView { title, aggregate_id, event_id, sequence, end_date }
}

/// An event whose end date, if any, exists.
pub open spec fn event_wf(e: EventView) -> bool {
    e.end_date matches Some(t) ==> t.valid()
}

/// The entries of the JSON object that `body` holds.
pub open spec fn body_entries(title: Seq<char>, end_date: Option<Timestamp>) -> Seq<
    (Seq<char>, Option<Seq<char>>),
> {
    seq![
        ("title"@, Some(title)),
        ("end_date"@, match end_date {
            Some(t) => Some(datetime_text(t)),
            None => None,
        }),
    ]
}

/// The row that stores an event.
pub open spec fn encode_spec(e: EventView) -> RowView {
    RowView {
        event_id: encode_utf8(uuid_text(e.event_id)),
        plannable_id: uuid_text(e.aggregate_id),
        sequence: e.sequence,
        body: json_object_text(body_entries(e.title, e.end_date)),
    }
}

pub open spec fn decode_end_date(f: Option<JsonFieldView>) -> Result<Option<Timestamp>, MalformedRow> {
    match f {
        Some(JsonFieldView::Text(s)) => match datetime_parsed(s, "%Y-%m-%d %H:%M:%S%.f"@) {
            Some(t) => Ok(Some(t)),
            None => Err(MalformedRow::Body),
        },
        Some(JsonFieldView::Other) => Err(MalformedRow::Body),
        _ => Ok(None),
    }
}

pub open spec fn decode_body(title: Option<JsonFieldView>, end_date: Option<JsonFieldView>) -> Result<
    (Seq<char>, Option<Timestamp>),
    MalformedRow,
> {
    match (title, decode_end_date(end_date)) {
        (Some(JsonFieldView::Text(t)), Ok(d)) => Ok((t, d)),
        _ => Err(MalformedRow::Body),
    }
}

/// The event that a row stores, or why there is none.
pub open spec fn decode_spec(r: RowView) -> Result<EventView, MalformedRow> {
    if !valid_utf8(r.event_id) || uuid_parsed(decode_utf8(r.event_id)) is None {
        Err(MalformedRow::EventId)
    } else if uuid_parsed(r.plannable_id) is None {
        Err(MalformedRow::PlannableId)
    } else {
        match json_object_read(r.body) {
            None => Err(MalformedRow::Body),
            Some(fields) => match decode_body(
                json_field(fields, "title"@),
                json_field(fields, "end_date"@),
            ) {
                Ok((title, end_date)) => Ok(
                    event_view(
                        title,
                        uuid_parsed(r.plannable_id)->0,
                        uuid_parsed(decode_utf8(r.event_id))->0,
                        r.sequence,
                        end_date,
                    ),
                ),
                Err(x) => Err(x),
            },
        }
    }
}

fn find_field<'a>(fields: &'a Vec<(String, JsonField)>, key: &String) -> (r: Option<&'a JsonField>)
    ensures
        r matches Some(f) ==> json_field(read_entries(fields@), key@) == Some(f@),
        r is None ==> json_field(read_entries(fields@), key@) is None,
{
    let ghost entries = read_entries(fields@);
    let mut i: usize = 0;
    assert(entries.skip(0) =~= entries);
    while i < fields.len()
        invariant
            0 <= i <= fields.len(),
            entries == read_entries(fields@),
            json_field(entries, key@) == json_field(entries.skip(i as int), key@),
        decreases fields.len() - i,
    {
        if fields[i].0 == *key {
            assert(entries.skip(i as int)[0] == entries[i as int]);
            return Some(&fields[i].1);
        }
        assert(entries.skip(i as int).drop_first() =~= entries.skip(i + 1));
        i += 1;
    }
    assert(entries.skip(i as int).len() == 0);
    None
}

fn encode_fields(
    title: &String,
    aggregate_id: u128,
    event_id: u128,
    sequence: i32,
    end_date: Option<Timestamp>,
) -> (r: PlannableEventRow)
    ensures
        r@ == encode_spec(event_view(title@, aggregate_id, event_id, sequence, end_date)),
{
    let event_text = format_uuid(event_id);
    let event_bytes = event_text.as_str().as_bytes_vec();
    let plannable_id = format_uuid(aggregate_id);
    let end_text: Option<String> = match end_date {
        Some(t) => {
            proof {
                use_type_invariant(&t);
            }
            Some(format_datetime(&t))
        },
        None => None,
    };
    let title_key = "title".to_string();
    let end_key = "end_date".to_string();
    let mut entries: Vec<(String, Option<String>)> = Vec::new();
    entries.push((title_key, Some(title.clone())));
    entries.push((end_key, end_text));
    let body = write_json_object(&entries);
    proof {
        assert(written_entries(entries@) =~= body_entries(title@, end_date));
    }
    PlannableEventRow { event_id: event_bytes, plannable_id, sequence, body }
}

proof fn lemma_body_keys_distinct(title: Seq<char>, end_date: Option<Timestamp>)
    ensures
        distinct_keys(body_entries(title, end_date)),
        body_entries(title, end_date)[0].0 == "title"@,
        body_entries(title, end_date)[1].0 == "end_date"@,
{
    reveal_strlit("title");
    reveal_strlit("end_date");
    assert("title"@.len() != "end_date"@.len());
}

fn decode_fields(row: &PlannableEventRow) -> (r: Result<(String, u128, u128, Option<Timestamp>), MalformedRow>)
    ensures
        match r {
            Ok(p) => decode_spec(row@) == Ok::<EventView, MalformedRow>(event_view(p.0@, p.1, p.2, row.sequence, p.3)),
            Err(x) => decode_spec(row@) == Err::<EventView, MalformedRow>(x),
        },
        forall|e: EventView|
            event_wf(e) && row@ == #[trigger] encode_spec(e) ==> (r matches Ok(p) && event_view(
                p.0@,
                p.1,
                p.2,
                row.sequence,
                p.3,
            ) == e),
{
    let event_text = match utf8_text(row.event_id.as_slice()) {
        Some(s) => s,
        None => {
            return Err(MalformedRow::EventId);
        },
    };
    let event_id = match parse_uuid(event_text) {
        Some(id) => id,
        None => {
            assert forall|e: EventView| event_wf(e) && row@ == #[trigger] encode_spec(e) implies false by {
                assert(event_text@ == uuid_text(e.event_id));
            }
            return Err(MalformedRow::EventId);
        },
    };
    let aggregate_id = match parse_uuid(row.plannable_id.as_str()) {
        Some(id) => id,
        None => {
            assert forall|e: EventView| event_wf(e) && row@ == #[trigger] encode_spec(e) implies false by {
                assert(row.plannable_id@ == uuid_text(e.aggregate_id));
            }
            return Err(MalformedRow::PlannableId);
        },
    };
    let fields = match read_json_object(row.body.as_slice()) {
        Some(f) => f,
        None => {
            assert forall|e: EventView| event_wf(e) && row@ == #[trigger] encode_spec(e) implies false by {
                lemma_body_keys_distinct(e.title, e.end_date);
            }
            return Err(MalformedRow::Body);
        },
    };
    let ghost read = read_entries(fields@);
    proof {
        assert forall|e: EventView| event_wf(e) && row@ == #[trigger] encode_spec(e) implies json_field(
            read,
            "title"@,
        ) == Some(JsonFieldView::Text(e.title)) && json_field(read, "end_date"@) == Some(
            written_field(body_entries(e.title, e.end_date)[1].1),
        ) by {
            lemma_body_keys_distinct(e.title, e.end_date);
            let es = body_entries(e.title, e.end_date);
            assert(reads_back(read, es));
            assert(json_field(read, es[0].0) == Some(written_field(es[0].1)));
            assert(json_field(read, es[1].0) == Some(written_field(es[1].1)));
        }
    }
    let title_key = "title".to_string();
    let title = match find_field(&fields, &title_key) {
        Some(JsonField::Text(t)) => t.clone(),
        _ => {
            return Err(MalformedRow::Body);
        },
    };
    let end_key = "end_date".to_string();
    let end_date = match find_field(&fields, &end_key) {
        Some(JsonField::Text(s)) => match parse_datetime(s.as_str()) {
            Some(t) => Some(t),
            None => {
                assert forall|e: EventView| event_wf(e) && row@ == #[trigger] encode_spec(e) implies false by {
                    assert(s@ == datetime_text(e.end_date->0));
                }
                return Err(MalformedRow::Body);
            },
        },
        Some(JsonField::Other) => {
            return Err(MalformedRow::Body);
        },
        _ => None,
    };
    proof {
        assert forall|e: EventView| event_wf(e) && row@ == #[trigger] encode_spec(e) implies event_view(
            title@,
            aggregate_id,
            event_id,
            row.sequence,
            end_date,
        ) == e by {
            assert(event_text@ == uuid_text(e.event_id));
            assert(row.plannable_id@ == uuid_text(e.aggregate_id));
            if let Some(t) = e.end_date {
                assert(json_field(read, "end_date"@) == Some(JsonFieldView::Text(datetime_text(t))));
            }
        }
    }
    Ok((title, aggregate_id, event_id, end_date))
}

impl PlannableEventRow {
    /// The row that stores a todo event.
    pub fn from_todo_event(e: &TodoCreatedEvent) -> (r: PlannableEventRow)
        ensures
            r@ == encode_spec(e@),
    {
        encode_fields(&e.title, e.todo_id, e.event_id, e.sequence, e.end_date)
    }

    /// The row that stores a task event.
    pub fn from_task_event(e: &TaskCreatedEvent) -> (r: PlannableEventRow)
        ensures
            r@ == encode_spec(e@),
    {
        encode_fields(&e.title, e.task_id, e.event_id, e.sequence, e.end_date)
    }
}

impl TodoCreatedEvent {
    /// The todo event that a row stores. Reading back the row of an event
    /// gives that event.
    pub fn from_row(row: &PlannableEventRow) -> (r: Result<TodoCreatedEvent, MalformedRow>)
        ensures
            match r {
                Ok(e) => decode_spec(row@) == Ok::<EventView, MalformedRow>(e@),
                Err(x) => decode_spec(row@) == Err::<EventView, MalformedRow>(x),
            },
            forall|e: EventView|
                event_wf(e) && row@ == #[trigger] encode_spec(e) ==> (r matches Ok(d) && d@ == e),
    {
        match decode_fields(row) {
            Ok((title, todo_id, event_id, end_date)) => Ok(
                TodoCreatedEvent { title, todo_id, event_id, sequence: row.sequence, end_date },
            ),
            Err(x) => Err(x),
        }
    }
}

impl TaskCreatedEvent {
    /// The task event that a row stores. Reading back the row of an event
    /// gives that event.
    pub fn from_row(row: &PlannableEventRow) -> (r: Result<TaskCreatedEvent, MalformedRow>)
        ensures
            match r {
                Ok(e) => decode_spec(row@) == Ok::<EventView, MalformedRow>(e@),
                Err(x) => decode_spec(row@) == Err::<EventView, MalformedRow>(x),
            },
            forall|e: EventView|
                event_wf(e) && row@ == #[trigger] encode_spec(e) ==> (r matches Ok(d) && d@ == e),
    {
        match decode_fields(row) {
            Ok((title, task_id, event_id, end_date)) => Ok(
                TaskCreatedEvent { title, task_id, event_id, sequence: row.sequence, end_date },
            ),
            Err(x) => Err(x),
        }
    }
}

} // verus!
