//! The canonical record of a job's persisted status: its pipeline state, its
//! last known outcome, the opaque request it was started from, and the
//! identity of the server instance that last wrote it.

use vstd::prelude::*;

verus! {

/// Where a job stands in its execution pipeline. Transitions are driven by
/// the execution engine; this crate only persists whatever state it is given.
#[derive(Clone, Copy, Debug, PartialEq, Eq, Structural)]
pub enum JobState {
    QUEUED,
    WORKING,
    DONE,
}

/// The last known execution result of a job, orthogonal to `JobState`.
#[derive(Clone, Copy, Debug, PartialEq, Eq, Structural)]
pub enum JobOutcome {
    SUCCEEDED,
    FAILED,
    RUNNING,
    WAITING,
}

/// The name of a state, as it appears in the storage encoding.
pub open spec fn state_chars(state: JobState) -> Seq<char> {
    match state {
        JobState::QUEUED => "QUEUED"@,
        JobState::WORKING => "WORKING"@,
        JobState::DONE => "DONE"@,
    }
}

/// The name of an outcome, as it appears in the storage encoding.
pub open spec fn outcome_chars(outcome: JobOutcome) -> Seq<char> {
    match outcome {
        JobOutcome::SUCCEEDED => "SUCCEEDED"@,
        JobOutcome::FAILED => "FAILED"@,
        JobOutcome::RUNNING => "RUNNING"@,
        JobOutcome::WAITING => "WAITING"@,
    }
}

impl JobState {
    /// The state's name, for display and for the storage encoding.
    pub fn name(&self) -> (r: &'static str)
        ensures
            r@ == state_chars(*self),
    {
        match self {
            JobState::QUEUED => "QUEUED",
            JobState::WORKING => "WORKING",
            JobState::DONE => "DONE",
        }
    }
}

impl JobOutcome {
    /// The outcome's name, for display and for the storage encoding.
    pub fn name(&self) -> (r: &'static str)
        ensures
            r@ == outcome_chars(*self),
    {
        match self {
            JobOutcome::SUCCEEDED => "SUCCEEDED",
            JobOutcome::FAILED => "FAILED",
            JobOutcome::RUNNING => "RUNNING",
            JobOutcome::WAITING => "WAITING",
        }
    }
}

/// The opaque job-request payload: an externally defined value, carried here
/// as the text of its serialized document. This layer stores and retrieves
/// it but never interprets it.
#[derive(Debug)]
pub struct JobRequest {
    pub document: String,
}

impl JobRequest {
    pub fn new(document: String) -> (r: JobRequest)
        ensures
            r.document@ == document@,
    {
        JobRequest { document }
    }
}

impl Clone for JobRequest {
    fn clone(&self) -> (r: Self)
        ensures
            r.document@ == self.document@,
    {
        JobRequest { document: self.document.clone() }
    }
}

/// A character that may stand unescaped inside a JSON string: not a quote,
/// not a backslash, and not a control character.
pub open spec fn plain_char(c: char) -> bool {
    c != '"' && c != '\\' && c as u32 >= 32
}

/// Every character of the sequence is plain.
pub open spec fn id_plain(s: Seq<char>) -> bool {
    forall|i: int| 0 <= i < s.len() ==> plain_char(#[trigger] s[i])
}

/// The persisted record of one job. Immutable once constructed: a fresh
/// entry is built on every write, and absence of an entry is represented at
/// the storage layer as `None`, never as a sentinel state.
#[derive(Debug)]
pub struct JobEntry {
    pub state: JobState,
    pub job_request: JobRequest,
    pub last_run_from: String,
    pub last_outcome: JobOutcome,
}

/// Two entries carry the same record: equal states and outcomes, and
/// request documents and writer identifiers with the same characters.
pub open spec fn same_entry(a: JobEntry, b: JobEntry) -> bool {
    &&& a.state == b.state
    &&& a.job_request.document@ == b.job_request.document@
    &&& a.last_run_from@ == b.last_run_from@
    &&& a.last_outcome == b.last_outcome
}

impl JobEntry {
    /// A representable entry: the writer identifier can stand verbatim
    /// inside a JSON string, so encoding the entry never loses information.
    pub open spec fn wf(&self) -> bool {
        id_plain(self.last_run_from@)
    }

    pub fn new(state: &JobState, request: &JobRequest, server_id: &str, outcome: &JobOutcome) -> (r: JobEntry)
        ensures
            r.state == *state,
            r.job_request.document@ == request.document@,
            r.last_run_from@ == server_id@,
            r.last_outcome == *outcome,
    {
        JobEntry {
            state: *state,
            job_request: request.clone(),
            last_run_from: server_id.to_owned(),
            last_outcome: *outcome,
        }
    }
}

impl Clone for JobEntry {
    fn clone(&self) -> (r: Self)
        ensures
            same_entry(r, *self),
    {
        JobEntry {
            state: self.state,
            job_request: self.job_request.clone(),
            last_run_from: self.last_run_from.clone(),
            last_outcome: self.last_outcome,
        }
    }
}

impl PartialEq for JobRequest {
    fn eq(&self, other: &Self) -> (r: bool) {
        self.document == other.document
    }
}

impl vstd::std_specs::cmp::PartialEqSpecImpl for JobRequest {
    open spec fn obeys_eq_spec() -> bool {
        true
    }

    open spec fn eq_spec(&self, other: &Self) -> bool {
        self.document@ == other.document@
    }
}

impl PartialEq for JobEntry {
    fn eq(&self, other: &Self) -> (r: bool) {
        self.state == other.state && self.job_request.document == other.job_request.document
            && self.last_run_from == other.last_run_from && self.last_outcome == other.last_outcome
    }
}

impl vstd::std_specs::cmp::PartialEqSpecImpl for JobEntry {
    open spec fn obeys_eq_spec() -> bool {
        true
    }

    open spec fn eq_spec(&self, other: &Self) -> bool {
        same_entry(*self, *other)
    }
}

} // verus!
