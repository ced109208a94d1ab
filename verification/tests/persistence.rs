//! Behavioural tests of the persistence layer: namespacing, the entry codec,
//! the configured defaults, failure isolation, and the end-to-end write/read
//! path against the in-memory backend.

use factotum_persistence::apply_namespace_if_absent;
use factotum_persistence::codec::{decode_entry, encode_entry};
use factotum_persistence::{
    get_entry, set_entry, ConsulPersistence, FailingPersistence, InMemoryPersistence, JobEntry,
    JobOutcome, JobRequest, JobState, Persistence, PersistenceError,
};

fn sample_request() -> JobRequest {
    JobRequest::new(String::from("{\"jobName\":\"dbload\",\"factfileArgs\":[]}"))
}

fn sample_entry() -> JobEntry {
    JobEntry::new(
        &JobState::QUEUED,
        &sample_request(),
        "factotum-server-1",
        &JobOutcome::WAITING,
    )
}

#[test]
fn namespace_is_applied_when_absent() {
    let key = apply_namespace_if_absent("factotum", "job-1");
    assert_eq!(key, "factotum/job-1");
}

#[test]
fn namespace_is_not_applied_twice() {
    let key = apply_namespace_if_absent("factotum", "factotum/job-1");
    assert_eq!(key, "factotum/job-1");
}

#[test]
fn namespace_resolution_is_idempotent() {
    let once = apply_namespace_if_absent("com.acme/ns", "job-7");
    let twice = apply_namespace_if_absent("com.acme/ns", &once);
    assert_eq!(once, twice);
    assert_eq!(once, "com.acme/ns/job-7");
}

#[test]
fn adapter_defaults_apply_when_no_overrides_are_given() {
    let adapter = ConsulPersistence::new(None, None, None, None);
    assert_eq!(adapter.id(), "factotum");
    assert_eq!(adapter.host, "127.0.0.1");
    assert_eq!(adapter.port, 8500);
    assert_eq!(adapter.namespace, "factotum");
}

#[test]
fn adapter_overrides_apply_independently() {
    let adapter = ConsulPersistence::new(
        Some(String::from("server-a")),
        None,
        Some(9500),
        None,
    );
    assert_eq!(adapter.id(), "server-a");
    assert_eq!(adapter.host, "127.0.0.1");
    assert_eq!(adapter.port, 9500);
    assert_eq!(adapter.namespace, "factotum");
}

#[test]
fn encoding_is_the_documented_json_document() {
    let encoded = encode_entry(&sample_entry());
    assert_eq!(
        encoded,
        "{\"state\":\"QUEUED\",\"jobRequest\":{\"jobName\":\"dbload\",\"factfileArgs\":[]},\
         \"lastRunFrom\":\"factotum-server-1\",\"lastOutcome\":\"WAITING\"}"
    );
}

#[test]
fn encoding_is_well_formed_json_with_the_fixed_fields() {
    let encoded = encode_entry(&sample_entry());
    let value: serde_json::Value = serde_json::from_str(&encoded).unwrap();
    assert_eq!(value.get("state").and_then(serde_json::Value::as_str), Some("QUEUED"));
    assert_eq!(
        value.get("lastRunFrom").and_then(serde_json::Value::as_str),
        Some("factotum-server-1")
    );
    assert_eq!(value.get("lastOutcome").and_then(serde_json::Value::as_str), Some("WAITING"));
    assert_eq!(
        value.get("jobRequest").and_then(|r| r.get("jobName")).and_then(serde_json::Value::as_str),
        Some("dbload")
    );
}

#[test]
fn entries_round_trip_through_the_codec() {
    let entry = sample_entry();
    let decoded = decode_entry(&encode_entry(&entry)).unwrap();
    assert_eq!(decoded, entry);
}

#[test]
fn every_state_and_outcome_round_trips() {
    let states = [JobState::QUEUED, JobState::WORKING, JobState::DONE];
    let outcomes = [
        JobOutcome::SUCCEEDED,
        JobOutcome::FAILED,
        JobOutcome::RUNNING,
        JobOutcome::WAITING,
    ];
    for state in &states {
        for outcome in &outcomes {
            let entry = JobEntry::new(state, &sample_request(), "svr", outcome);
            let decoded = decode_entry(&encode_entry(&entry)).unwrap();
            assert_eq!(decoded, entry);
        }
    }
}

#[test]
fn malformed_documents_are_rejected_by_the_decoder() {
    assert!(decode_entry("").is_none());
    assert!(decode_entry("not json at all").is_none());
    assert!(decode_entry("{\"state\":\"SLEEPING\",\"jobRequest\":{},\"lastRunFrom\":\"x\",\"lastOutcome\":\"WAITING\"}").is_none());
    assert!(decode_entry("{\"state\":\"QUEUED\",\"jobRequest\":{},\"lastRunFrom\":\"x\",\"lastOutcome\":\"NEVER\"}").is_none());
}

#[test]
fn write_failure_yields_false_and_never_raises() {
    let mut store = FailingPersistence::new(String::from("svr"), String::from("factotum"));
    let written = set_entry(
        &mut store,
        "job-13",
        &sample_request(),
        &JobState::WORKING,
        &JobOutcome::RUNNING,
    );
    assert!(!written);
}

#[test]
fn failing_store_reports_connection_failure_from_raw_calls() {
    let mut store = FailingPersistence::new(String::from("svr"), String::from("factotum"));
    assert_eq!(store.set_key("k", "v"), Err(PersistenceError::ConnectionFailure));
    assert_eq!(store.get_key("k"), Err(PersistenceError::ConnectionFailure));
}

#[test]
fn missing_key_and_store_failure_read_the_same() {
    let in_memory = InMemoryPersistence::new(String::from("svr"), String::from("factotum"));
    let failing = FailingPersistence::new(String::from("svr"), String::from("factotum"));
    let absent = get_entry(&in_memory, "job-404");
    let failed = get_entry(&failing, "job-404");
    assert_eq!(absent, Ok(None));
    assert_eq!(failed, Ok(None));
    assert_eq!(absent, failed);
}

#[test]
fn write_then_read_returns_the_recorded_entry() {
    let mut store = InMemoryPersistence::new(String::from("server-9"), String::from("factotum"));
    let request = sample_request();
    let written = set_entry(
        &mut store,
        "job-42",
        &request,
        &JobState::QUEUED,
        &JobOutcome::WAITING,
    );
    assert!(written);
    let read_back = get_entry(&store, "job-42").unwrap().unwrap();
    assert_eq!(read_back.state, JobState::QUEUED);
    assert_eq!(read_back.job_request, request);
    assert_eq!(read_back.last_run_from, "server-9");
    assert_eq!(read_back.last_outcome, JobOutcome::WAITING);
}

#[test]
fn overwriting_a_key_returns_the_latest_entry() {
    let mut store = InMemoryPersistence::new(String::from("svr"), String::from("factotum"));
    assert!(set_entry(&mut store, "job-1", &sample_request(), &JobState::QUEUED, &JobOutcome::WAITING));
    assert!(set_entry(&mut store, "job-1", &sample_request(), &JobState::DONE, &JobOutcome::SUCCEEDED));
    let read_back = get_entry(&store, "job-1").unwrap().unwrap();
    assert_eq!(read_back.state, JobState::DONE);
    assert_eq!(read_back.last_outcome, JobOutcome::SUCCEEDED);
}

#[test]
fn reads_follow_the_base64_store_convention() {
    let mut store = InMemoryPersistence::new(String::from("svr"), String::from("factotum"));
    store.set_key("k", "hi").unwrap();
    assert_eq!(store.get_key("k"), Ok(Some(String::from("aGk="))));
}

#[test]
fn corrupt_stored_values_surface_as_decode_failures() {
    let mut store = InMemoryPersistence::new(String::from("svr"), String::from("factotum"));
    store.set_key("factotum/job-9", "not an entry").unwrap();
    assert_eq!(get_entry(&store, "job-9"), Err(PersistenceError::DecodeFailure));
}

#[test]
fn already_namespaced_references_read_the_same_entry() {
    let mut store = InMemoryPersistence::new(String::from("svr"), String::from("factotum"));
    assert!(set_entry(&mut store, "job-5", &sample_request(), &JobState::WORKING, &JobOutcome::RUNNING));
    let by_bare = get_entry(&store, "job-5").unwrap().unwrap();
    let by_resolved = get_entry(&store, "factotum/job-5").unwrap().unwrap();
    assert_eq!(by_bare, by_resolved);
}

#[test]
fn documents_that_mimic_the_field_layout_still_round_trip() {
    let tricky = JobRequest::new(String::from(
        "[\"a\",\"lastRunFrom\",\"WAITING\",\"{\\\"state\\\":\\\"QUEUED\\\"\"]",
    ));
    let entry = JobEntry::new(&JobState::WORKING, &tricky, "svr-2", &JobOutcome::RUNNING);
    let decoded = decode_entry(&encode_entry(&entry)).unwrap();
    assert_eq!(decoded, entry);
}

#[test]
fn an_empty_writer_identifier_round_trips() {
    let entry = JobEntry::new(&JobState::DONE, &sample_request(), "", &JobOutcome::SUCCEEDED);
    let decoded = decode_entry(&encode_entry(&entry)).unwrap();
    assert_eq!(decoded, entry);
    assert_eq!(decoded.last_run_from, "");
}

#[test]
fn state_and_outcome_names_match_the_wire_names() {
    assert_eq!(JobState::QUEUED.name(), "QUEUED");
    assert_eq!(JobState::WORKING.name(), "WORKING");
    assert_eq!(JobState::DONE.name(), "DONE");
    assert_eq!(JobOutcome::SUCCEEDED.name(), "SUCCEEDED");
    assert_eq!(JobOutcome::FAILED.name(), "FAILED");
    assert_eq!(JobOutcome::RUNNING.name(), "RUNNING");
    assert_eq!(JobOutcome::WAITING.name(), "WAITING");
}
