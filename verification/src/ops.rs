//! The entry operations: build, encode and store a fresh entry on every
//! write; resolve, fetch and decode on every read. A write failure is soft
//! (`false`, never a fault); a read failure of the store reads as absence;
//! a value that cannot be decoded is a distinct, typed decode failure.

use vstd::prelude::*;
use crate::codec::{decode_entry, encode_entry, encode_spec, encoded_entry};
use crate::model::{id_plain, same_entry, JobEntry, JobOutcome, JobRequest, JobState};
use crate::namespace::resolved_key;
use crate::persistence::{b64_decode_str, b64_of, Persistence, PersistenceError};

verus! {

/// Record a fresh entry for `job_ref`: the given state and outcome, the
/// request, and this adapter's identifier as the writer. Returns whether the
/// store accepted the write; a failure never escalates beyond `false`.
pub fn set_entry<T: Persistence>(
    persistence: &mut T,
    job_ref: &str,
    job_request: &JobRequest,
    state: &JobState,
    outcome: &JobOutcome,
) -> (r: bool)
    requires
        id_plain(old(persistence).id_spec()),
    ensures
        final(persistence).id_spec() == old(persistence).id_spec(),
        final(persistence).namespace_spec() == old(persistence).namespace_spec(),
        final(persistence).always_fails() == old(persistence).always_fails(),
        old(persistence).always_fails() ==> r == false,
        ({
            let key = resolved_key(old(persistence).namespace_spec(), job_ref@);
            let value = encoded_entry(
                *state,
                job_request.document@,
                old(persistence).id_spec(),
                *outcome,
            );
            match old(persistence).tracked_contents() {
                Some(m) => r == true && final(persistence).tracked_contents() == Some(
                    m.insert(key, value),
                ),
                None => final(persistence).tracked_contents() is None,
            }
        }),
{
    let entry = JobEntry::new(state, job_request, persistence.id(), outcome);
    let entry_json = encode_entry(&entry);
    let job_key = persistence.prepend_namespace(job_ref);
    match persistence.set_key(job_key.as_str(), entry_json.as_str()) {
        Ok(_) => true,
        Err(_) => false,
    }
}

/// Fetch the entry recorded for `job_ref`. `Ok(None)` stands both for an
/// absent key and for a store failure on read; a present value that does not
/// decode back into an entry is a `DecodeFailure`.
pub fn get_entry<T: Persistence>(persistence: &T, job_ref: &str) -> (r: Result<
    Option<JobEntry>,
    PersistenceError,
>)
    ensures
        persistence.always_fails() ==> r matches Ok(None),
        r matches Ok(Some(d)) ==> d.wf(),
        r matches Err(err) ==> err == PersistenceError::DecodeFailure,
        ({
            let key = resolved_key(persistence.namespace_spec(), job_ref@);
            match persistence.tracked_contents() {
                Some(m) => {
                    &&& !m.contains_key(key) ==> r == Ok::<Option<JobEntry>, PersistenceError>(None)
                    &&& (forall|e: JobEntry|
                        m.contains_key(key) && e.wf() && m[key] == #[trigger] encode_spec(e)
                            ==> match r {
                            Ok(Some(d)) => same_entry(d, e),
                            _ => false,
                        })
                    &&& match r {
                        Ok(Some(d)) => m.contains_key(key) && m[key] == encode_spec(d),
                        Ok(None) => true,
                        Err(_) => m.contains_key(key),
                    }
                },
                None => true,
            }
        }),
{
    let job_key = persistence.prepend_namespace(job_ref);
    let fetched = match persistence.get_key(job_key.as_str()) {
        Ok(value) => value,
        Err(_) => None,  // a store failure on read reads as absence
    };
    match fetched {
        None => Ok(None),
        Some(encoded) => match b64_decode_str(encoded.as_str()) {
            None => Err(PersistenceError::DecodeFailure),
            Some(raw_value) => match decode_entry(raw_value.as_str()) {
                None => Err(PersistenceError::DecodeFailure),
                Some(entry) => Ok(Some(entry)),
            },
        },
    }
}

} // verus!
