use simple_plan::models::PlannableEventRow;
use simple_plan::repository::{PlannableEventsRepository, RepositoryError};

fn row(event_id: &str, plannable_id: &str, sequence: i32, body: &str) -> PlannableEventRow {
    PlannableEventRow {
        event_id: String::from(event_id).as_bytes().to_vec(),
        plannable_id: String::from(plannable_id),
        sequence,
        body: String::from(body).as_bytes().to_vec(),
    }
}

fn fresh() -> PlannableEventsRepository {
    let mut repository = PlannableEventsRepository::initialize();
    repository.drop_table().unwrap();
    repository.create_table().unwrap();
    repository
}

#[test]
fn initialize() {
    let repository = PlannableEventsRepository::initialize();
    assert!(repository.get_all().is_ok());
}

#[test]
fn save() {
    let mut repository = fresh();
    let plannables = vec![row("7fe8b15d-1a3e-461d-9057-99ef10459a0e", "1", 0, "")];
    let result = repository.save(plannables);
    assert!(result.is_ok());
}

#[test]
fn given_existingplannableid_when_savemultiplewithduplicate_then_rollback() {
    let mut repository = fresh();
    let plannables = vec![row("7fe8b15d-1a3e-461d-9057-99ef10459a0e", "1", 0, "something")];
    repository.save(plannables.clone()).unwrap();

    let plannable1 = row("a83bf643-20a7-4dcc-9151-d1a1cb4f0126", "1", 1, "");
    let plannable2 = row("7fe8b15d-1a3e-461d-9057-99ef10459a0e", "1", 0, "");
    let plannables_with_duplicates = vec![plannable1, plannable2];
    let save_result = repository.save(plannables_with_duplicates);
    assert!(save_result.is_err());
    let read_output = repository.read(&String::from("1")).unwrap();
    assert_eq!(read_output, plannables);
}

#[test]
fn read() {
    let mut repository = fresh();
    let plannables = vec![row("7fe8b15d-1a3e-461d-9057-99ef10459a0e", "1", 0, "")];
    repository.save(plannables.clone()).unwrap();
    let result = repository.read(&plannables[0].plannable_id).unwrap();
    assert_eq!(result, plannables);
}

#[test]
fn read_missing_or_incorrect_id() {
    let repository = fresh();
    let missingid = String::from("missingId_orIncorrectId");
    let result = repository.read(&missingid).unwrap();
    assert_eq!(result.len(), 0);
}

#[test]
fn conflict_with_stored_row_is_reported_as_conflict() {
    let mut repository = fresh();
    repository.save(vec![row("a", "A", 0, "first")]).unwrap();
    let result = repository.save(vec![row("b", "A", 1, "new"), row("c", "A", 0, "duplicate")]);
    assert_eq!(result, Err(RepositoryError::Conflict));
    assert_eq!(repository.read(&String::from("A")).unwrap(), vec![row("a", "A", 0, "first")]);
}

#[test]
fn conflict_within_one_batch_stores_nothing() {
    let mut repository = fresh();
    let result = repository.save(vec![row("a", "A", 0, ""), row("b", "A", 0, "")]);
    assert_eq!(result, Err(RepositoryError::Conflict));
    assert_eq!(repository.get_all().unwrap().len(), 0);
}

#[test]
fn duplicate_event_id_is_a_conflict() {
    let mut repository = fresh();
    repository.save(vec![row("a", "A", 0, "")]).unwrap();
    let result = repository.save(vec![row("a", "B", 0, "")]);
    assert_eq!(result, Err(RepositoryError::Conflict));
    assert_eq!(repository.read(&String::from("B")).unwrap().len(), 0);
}

#[test]
fn same_sequence_in_other_aggregates_is_no_conflict() {
    let mut repository = fresh();
    repository.save(vec![row("a", "A", 0, "")]).unwrap();
    assert!(repository.save(vec![row("b", "B", 0, "")]).is_ok());
    assert_eq!(repository.get_all().unwrap().len(), 2);
}

#[test]
fn read_orders_rows_by_sequence() {
    let mut repository = fresh();
    repository
        .save(vec![row("c", "A", 2, ""), row("x", "B", 0, ""), row("a", "A", 0, "")])
        .unwrap();
    repository.save(vec![row("b", "A", 1, "")]).unwrap();
    let read = repository.read(&String::from("A")).unwrap();
    let sequences: Vec<i32> = read.iter().map(|r| r.sequence).collect();
    assert_eq!(sequences, vec![0, 1, 2]);
    let all: Vec<i32> = repository.get_all().unwrap().iter().map(|r| r.sequence).collect();
    assert_eq!(all, vec![0, 0, 1, 2]);
}

#[test]
fn saving_for_one_aggregate_leaves_another_unchanged() {
    let mut repository = fresh();
    repository.save(vec![row("b0", "B", 0, "b")]).unwrap();
    let before = repository.read(&String::from("B")).unwrap();
    repository.save(vec![row("a0", "A", 0, ""), row("a1", "A", 1, "")]).unwrap();
    assert_eq!(repository.read(&String::from("B")).unwrap(), before);
}

#[test]
fn drop_then_create_leaves_an_empty_table() {
    let mut repository = fresh();
    repository.save(vec![row("a", "A", 0, "")]).unwrap();
    repository.drop_table().unwrap();
    repository.create_table().unwrap();
    assert_eq!(repository.get_all().unwrap().len(), 0);
}

#[test]
fn create_table_keeps_an_existing_table() {
    let mut repository = fresh();
    repository.save(vec![row("a", "A", 0, "")]).unwrap();
    repository.create_table().unwrap();
    assert_eq!(repository.get_all().unwrap().len(), 1);
}

#[test]
fn dropped_table_gives_storage_errors() {
    let mut repository = fresh();
    repository.drop_table().unwrap();
    assert_eq!(repository.save(vec![row("a", "A", 0, "")]), Err(RepositoryError::Storage));
    assert_eq!(repository.read(&String::from("A")), Err(RepositoryError::Storage));
    assert_eq!(repository.get_all(), Err(RepositoryError::Storage));
    assert_eq!(repository.next_sequence(&String::from("A")), Err(RepositoryError::Storage));
}

#[test]
fn next_sequence_follows_the_highest() {
    let mut repository = fresh();
    assert_eq!(repository.next_sequence(&String::from("A")), Ok(0));
    repository.save(vec![row("a", "A", 0, ""), row("c", "A", 4, ""), row("x", "B", 9, "")]).unwrap();
    assert_eq!(repository.next_sequence(&String::from("A")), Ok(5));
}

#[test]
fn next_sequence_after_the_largest_is_exhausted() {
    let mut repository = fresh();
    repository.save(vec![row("a", "A", i32::MAX, "")]).unwrap();
    assert_eq!(repository.next_sequence(&String::from("A")), Err(RepositoryError::SequenceExhausted));
}

#[test]
fn negative_sequence_is_refused_and_nothing_is_stored() {
    let mut repository = fresh();
    let result = repository.save(vec![row("a", "A", 0, ""), row("b", "A", -1, "")]);
    assert_eq!(result, Err(RepositoryError::NegativeSequence));
    assert_eq!(repository.get_all().unwrap().len(), 0);
}
