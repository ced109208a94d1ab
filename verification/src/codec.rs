//! The storage codec for job entries: a compact JSON document with exactly
//! the fields `state`, `jobRequest`, `lastRunFrom` and `lastOutcome`, in that
//! order. The opaque request document is embedded verbatim; the writer
//! identifier stands verbatim inside its JSON string (a representable entry
//! carries only plain characters there, see `JobEntry::wf`).

use vstd::prelude::*;
use vstd::string::StringExecFns;
use vstd::string::StrSliceExecFns;
use crate::model::{JobEntry, JobOutcome, JobRequest, JobState};
use crate::model::{id_plain, outcome_chars, plain_char, same_entry, state_chars};

verus! {

/// The encoded form of an entry with the given parts.
pub open spec fn encoded_entry(
    state: JobState,
    document: Seq<char>,
    server_id: Seq<char>,
    outcome: JobOutcome,
) -> Seq<char> {
    "{\"state\":\""@ + state_chars(state) + "\",\"jobRequest\":"@ + document
        + ",\"lastRunFrom\":\""@ + server_id + "\",\"lastOutcome\":\""@ + outcome_chars(outcome)
        + "\"}"@
}

/// The canonical storage encoding of an entry.
pub open spec fn encode_spec(e: JobEntry) -> Seq<char> {
    encoded_entry(e.state, e.job_request.document@, e.last_run_from@, e.last_outcome)
}

/// Serialize an entry to its canonical storage encoding.
pub fn encode_entry(e: &JobEntry) -> (r: String)
    ensures
        r@ == encode_spec(*e),
{
    let mut s = String::from_str("{\"state\":\"");
    s.append(e.state.name());
    s.append("\",\"jobRequest\":");
    s.append(e.job_request.document.as_str());
    s.append(",\"lastRunFrom\":\"");
    s.append(e.last_run_from.as_str());
    s.append("\",\"lastOutcome\":\"");
    s.append(e.last_outcome.name());
    s.append("\"}");
    s
}

/// The lengths of the fixed pieces of the encoding.
pub(crate) proof fn lemma_literal_lens()
    ensures
        "{\"state\":\""@.len() == 10,
        "\",\"jobRequest\":"@.len() == 15,
        ",\"lastRunFrom\":\""@.len() == 16,
        "\",\"lastOutcome\":\""@.len() == 17,
        "\"}"@.len() == 2,
        forall|s: JobState| 4 <= (#[trigger] state_chars(s)).len() <= 7,
        forall|o: JobOutcome| 6 <= (#[trigger] outcome_chars(o)).len() <= 9,
{
    reveal_strlit("{\"state\":\"");
    reveal_strlit("\",\"jobRequest\":");
    reveal_strlit(",\"lastRunFrom\":\"");
    reveal_strlit("\",\"lastOutcome\":\"");
    reveal_strlit("\"}");
    reveal_strlit("QUEUED");
    reveal_strlit("WORKING");
    reveal_strlit("DONE");
    reveal_strlit("SUCCEEDED");
    reveal_strlit("FAILED");
    reveal_strlit("RUNNING");
    reveal_strlit("WAITING");
    assert forall|s: JobState| 4 <= (#[trigger] state_chars(s)).len() <= 7 by {
        match s {
            JobState::QUEUED => assert(state_chars(s).len() == 6),
            JobState::WORKING => assert(state_chars(s).len() == 7),
            JobState::DONE => assert(state_chars(s).len() == 4),
        }
    }
    assert forall|o: JobOutcome| 6 <= (#[trigger] outcome_chars(o)).len() <= 9 by {
        match o {
            JobOutcome::SUCCEEDED => assert(outcome_chars(o).len() == 9),
            JobOutcome::FAILED => assert(outcome_chars(o).len() == 6),
            JobOutcome::RUNNING => assert(outcome_chars(o).len() == 7),
            JobOutcome::WAITING => assert(outcome_chars(o).len() == 7),
        }
    }
}

/// Where each piece of an encoded entry stands: the encoding splits into the
/// five fixed literals and the four variable parts, at known offsets.
pub(crate) proof fn lemma_encode_parts(
    state: JobState,
    document: Seq<char>,
    server_id: Seq<char>,
    outcome: JobOutcome,
)
    ensures
        ({
            let s = encoded_entry(state, document, server_id, outcome);
            let a = 10 + state_chars(state).len();
            let b = a + 15;
            let c = b + document.len();
            let d = c + 16;
            let f = d + server_id.len();
            let g = f + 17;
            let h = g + outcome_chars(outcome).len();
            &&& s.len() == h as int + 2
            &&& s.subrange(0, 10) == "{\"state\":\""@
            &&& s.subrange(10, a as int) == state_chars(state)
            &&& s.subrange(a as int, b as int) == "\",\"jobRequest\":"@
            &&& s.subrange(b as int, c as int) == document
            &&& s.subrange(c as int, d as int) == ",\"lastRunFrom\":\""@
            &&& s.subrange(d as int, f as int) == server_id
            &&& s.subrange(f as int, g as int) == "\",\"lastOutcome\":\""@
            &&& s.subrange(g as int, h as int) == outcome_chars(outcome)
            &&& s.subrange(h as int, h as int + 2) == "\"}"@
        }),
{
    lemma_literal_lens();
    let s = encoded_entry(state, document, server_id, outcome);
    let a = 10 + state_chars(state).len();
    let b = a + 15;
    let c = b + document.len();
    let d = c + 16;
    let f = d + server_id.len();
    let g = f + 17;
    let h = g + outcome_chars(outcome).len();
    assert(s.subrange(0, 10) =~= "{\"state\":\""@);
    assert(s.subrange(10, a as int) =~= state_chars(state));
    assert(s.subrange(a as int, b as int) =~= "\",\"jobRequest\":"@);
    assert(s.subrange(b as int, c as int) =~= document);
    assert(s.subrange(c as int, d as int) =~= ",\"lastRunFrom\":\""@);
    assert(s.subrange(d as int, f as int) =~= server_id);
    assert(s.subrange(f as int, g as int) =~= "\",\"lastOutcome\":\""@);
    assert(s.subrange(g as int, h as int) =~= outcome_chars(outcome));
    assert(s.subrange(h as int, h as int + 2) =~= "\"}"@);
}

/// Characters of the fixed pieces that the decoding proofs compare against.
pub(crate) proof fn lemma_literal_chars()
    ensures
        "QUEUED"@.len() == 6,
        "WORKING"@.len() == 7,
        "DONE"@.len() == 4,
        "SUCCEEDED"@.len() == 9,
        "FAILED"@.len() == 6,
        "RUNNING"@.len() == 7,
        "WAITING"@.len() == 7,
        "QUEUED"@[0] == 'Q',
        "WORKING"@[0] == 'W',
        "DONE"@[0] == 'D',
        "SUCCEEDED"@[0] == 'S',
        "FAILED"@[0] == 'F',
        "RUNNING"@[0] == 'R',
        "WAITING"@[0] == 'W',
        "SUCCEEDED"@[2] == 'C',
        "SUCCEEDED"@[3] == 'C',
        "RUNNING"@[1] == 'U',
        "WAITING"@[1] == 'A',
        "\",\"lastOutcome\":\""@[14] == '"',
        "\",\"lastOutcome\":\""@[15] == ':',
        "\",\"lastOutcome\":\""@[16] == '"',
        ",\"lastRunFrom\":\""@[15] == '"',
        ",\"lastRunFrom\":"@.len() == 15,
        ",\"lastRunFrom\":\""@.subrange(0, 15) == ",\"lastRunFrom\":"@,
{
    reveal_strlit("QUEUED");
    reveal_strlit("WORKING");
    reveal_strlit("DONE");
    reveal_strlit("SUCCEEDED");
    reveal_strlit("FAILED");
    reveal_strlit("RUNNING");
    reveal_strlit("WAITING");
    reveal_strlit("\",\"lastOutcome\":\"");
    reveal_strlit(",\"lastRunFrom\":\"");
    reveal_strlit(",\"lastRunFrom\":");
    assert(",\"lastRunFrom\":\""@.subrange(0, 15) =~= ",\"lastRunFrom\":"@);
}

/// From a subrange equality, the characters of `s` in that range agree with
/// the extracted piece, position by position.
pub(crate) proof fn lemma_seq_eq_idx(s: Seq<char>, a: int, b: int, x: Seq<char>)
    requires
        0 <= a <= b <= s.len(),
        s.subrange(a, b) == x,
    ensures
        b - a == x.len(),
        forall|k: int| a <= k < b ==> s[k] == x[k - a],
{
    assert forall|k: int| a <= k < b implies s[k] == x[k - a] by {
        assert(x[k - a] == s.subrange(a, b)[k - a]);
    }
}

/// An encoded entry pins down the state: if the characters after the opening
/// literal read as the name of `st`, the encoded entry's state is `st`.
pub(crate) proof fn lemma_state_unique(s: Seq<char>, e: JobEntry, st: JobState)
    requires
        s == encode_spec(e),
        s.subrange(10, 10 + state_chars(st).len() as int) == state_chars(st),
    ensures
        e.state == st,
{
    lemma_literal_lens();
    lemma_literal_chars();
    lemma_encode_parts(e.state, e.job_request.document@, e.last_run_from@, e.last_outcome);
    let se = state_chars(e.state);
    lemma_seq_eq_idx(s, 10, 10 + se.len() as int, se);
    lemma_seq_eq_idx(s, 10, 10 + state_chars(st).len() as int, state_chars(st));
    assert(s[10] == state_chars(st)[0]);
    assert(s[10] == se[0]);
    if st != e.state {
        match st {
            JobState::QUEUED => assert(s[10] == 'Q'),
            JobState::WORKING => assert(s[10] == 'W'),
            JobState::DONE => assert(s[10] == 'D'),
        }
        match e.state {
            JobState::QUEUED => assert(s[10] == 'Q'),
            JobState::WORKING => assert(s[10] == 'W'),
            JobState::DONE => assert(s[10] == 'D'),
        }
        assert(false);
    }
}

/// An encoded entry pins down the outcome: if the characters just before the
/// closing literal read as the name of `oc`, the entry's outcome is `oc`.
pub(crate) proof fn lemma_outcome_unique(s: Seq<char>, e: JobEntry, oc: JobOutcome)
    requires
        s == encode_spec(e),
        s.subrange(
            s.len() - 2 - outcome_chars(oc).len(),
            s.len() - 2,
        ) == outcome_chars(oc),
    ensures
        e.last_outcome == oc,
{
    lemma_literal_lens();
    lemma_literal_chars();
    lemma_encode_parts(e.state, e.job_request.document@, e.last_run_from@, e.last_outcome);
    let n = s.len() as int;
    let lo = outcome_chars(oc).len() as int;
    let oce = outcome_chars(e.last_outcome);
    let loe = oce.len() as int;
    let g = n - 2 - loe;
    let f = g - 17;
    lemma_seq_eq_idx(s, n - 2 - lo, n - 2, outcome_chars(oc));
    lemma_seq_eq_idx(s, g, n - 2, oce);
    lemma_seq_eq_idx(s, f, g, "\",\"lastOutcome\":\""@);
    if oc != e.last_outcome {
        if lo == loe {
            assert(outcome_chars(oc)[0] == s[g]);
            assert(oce[0] == s[g]);
            match oc {
                JobOutcome::SUCCEEDED => assert(s[g] == 'S'),
                JobOutcome::FAILED => assert(s[g] == 'F'),
                JobOutcome::RUNNING => assert(s[g] == 'R'),
                JobOutcome::WAITING => assert(s[g] == 'W'),
            }
            match e.last_outcome {
                JobOutcome::SUCCEEDED => assert(s[g] == 'S'),
                JobOutcome::FAILED => assert(s[g] == 'F'),
                JobOutcome::RUNNING => assert(s[g] == 'R'),
                JobOutcome::WAITING => assert(s[g] == 'W'),
            }
            assert(false);
        } else if lo > loe {
            // The name of `oc` would begin inside the fixed field literal
            // that precedes the entry's own outcome name.
            let p = n - 2 - lo;
            assert(s[p] == outcome_chars(oc)[0]);
            assert(f <= p < g);
            assert(s[p] == "\",\"lastOutcome\":\""@[17 - (lo - loe)]);
            match oc {
                JobOutcome::SUCCEEDED => assert(s[p] == 'S'),
                JobOutcome::FAILED => assert(s[p] == 'F'),
                JobOutcome::RUNNING => assert(s[p] == 'R'),
                JobOutcome::WAITING => assert(s[p] == 'W'),
            }
            assert(false);
        } else {
            // The name of `oc` would begin strictly inside the entry's own
            // outcome name, and the characters there differ.
            let p = n - 2 - lo;
            assert(s[p] == outcome_chars(oc)[0]);
            assert(g < p < n - 2);
            assert(s[p] == oce[p - g]);
            assert(p - g == loe - lo);
            match e.last_outcome {
                JobOutcome::SUCCEEDED => {
                    match oc {
                        JobOutcome::SUCCEEDED => {},
                        JobOutcome::FAILED => {
                            assert(s[p] == "SUCCEEDED"@[3]);
                            assert(s[p] == 'F');
                        },
                        JobOutcome::RUNNING => {
                            assert(s[p] == "SUCCEEDED"@[2]);
                            assert(s[p] == 'R');
                        },
                        JobOutcome::WAITING => {
                            assert(s[p] == "SUCCEEDED"@[2]);
                            assert(s[p] == 'W');
                        },
                    }
                },
                JobOutcome::RUNNING => {
                    assert(oc == JobOutcome::FAILED);
                    assert(s[p] == "RUNNING"@[1]);
                    assert(s[p] == 'F');
                },
                JobOutcome::WAITING => {
                    assert(oc == JobOutcome::FAILED);
                    assert(s[p] == "WAITING"@[1]);
                    assert(s[p] == 'F');
                },
                JobOutcome::FAILED => {},
            }
            assert(false);
        }
    }
}

/// Law: the canonical encoding is injective on representable entries. Two
/// representable entries with the same encoding carry the same record.
#[verifier::spinoff_prover]
#[verifier::rlimit(100)]
pub proof fn lemma_encode_injective(e1: JobEntry, e2: JobEntry)
    requires
        e1.wf(),
        e2.wf(),
        encode_spec(e1) == encode_spec(e2),
    ensures
        same_entry(e1, e2),
{
    lemma_literal_lens();
    let s = encode_spec(e1);
    lemma_encode_parts(e1.state, e1.job_request.document@, e1.last_run_from@, e1.last_outcome);
    lemma_valid_aligned(s, e1, e1.state, e1.last_outcome);
    lemma_valid_aligned(s, e2, e1.state, e1.last_outcome);
    let ds = 25 + state_chars(e1.state).len() as int;
    let pl = s.len() - 19 - outcome_chars(e1.last_outcome).len() as int;
    // The quote closing the `lastRunFrom` field literal sits at the same
    // position in both readings: the later of the two candidate positions
    // would otherwise fall inside the other entry's quote-free identifier.
    let q1 = ds + e1.job_request.document@.len() as int + 15;
    let q2 = ds + e2.job_request.document@.len() as int + 15;
    if q1 < q2 {
        assert(plain_char(s[q2]));
        assert(s[q2] == '"');
        assert(false);
    }
    if q2 < q1 {
        assert(plain_char(s[q1]));
        assert(s[q1] == '"');
        assert(false);
    }
    assert(e1.job_request.document@ == s.subrange(ds, q1 - 15));
    assert(e2.job_request.document@ == s.subrange(ds, q2 - 15));
    assert(e1.last_run_from@ == s.subrange(q1 + 1, pl));
    assert(e2.last_run_from@ == s.subrange(q2 + 1, pl));
}

/// Whether the characters of `s` starting at `i` read as `lit`.
pub fn match_at(s: &str, i: usize, lit: &str) -> (r: bool)
    requires
        i <= s@.len(),
    ensures
        r == (i + lit@.len() <= s@.len() && s@.subrange(
            i as int,
            i as int + lit@.len() as int,
        ) == lit@),
{
    let n = s.unicode_len();
    let m = lit.unicode_len();
    if m > n - i {
        return false;
    }
    let mut j: usize = 0;
    while j < m
        invariant
            j <= m,
            m == lit@.len(),
            n == s@.len(),
            i + m <= n,
            forall|k: int| 0 <= k < j ==> s@[i + k] == lit@[k],
        decreases m - j,
    {
        if s.get_char(i + j) != lit.get_char(j) {
            proof {
                assert(s@.subrange(i as int, i as int + m as int)[j as int] != lit@[j as int]);
            }
            return false;
        }
        j = j + 1;
    }
    proof {
        assert(s@.subrange(i as int, i as int + m as int) =~= lit@);
    }
    true
}

/// For a representable entry whose encoding begins with the name of `st`:
/// the state is `st`, and the fixed pieces stand at their offsets.
pub(crate) proof fn lemma_valid_front(s: Seq<char>, e: JobEntry, st: JobState)
    requires
        e.wf(),
        s == encode_spec(e),
        s.subrange(10, 10 + state_chars(st).len() as int) == state_chars(st),
    ensures
        e.state == st,
        s.len() >= 70,
        s.len() == 60 + state_chars(st).len() + e.job_request.document@.len()
            + e.last_run_from@.len() + outcome_chars(e.last_outcome).len(),
        s.subrange(
            10 + state_chars(st).len() as int,
            25 + state_chars(st).len() as int,
        ) == "\",\"jobRequest\":"@,
        s.subrange(s.len() - 2, s.len() as int) == "\"}"@,
        s.subrange(
            s.len() - 2 - outcome_chars(e.last_outcome).len(),
            s.len() - 2,
        ) == outcome_chars(e.last_outcome),
        s.subrange(
            s.len() - 19 - outcome_chars(e.last_outcome).len(),
            s.len() - 2 - outcome_chars(e.last_outcome).len(),
        ) == "\",\"lastOutcome\":\""@,
{
    lemma_literal_lens();
    lemma_literal_chars();
    lemma_encode_parts(e.state, e.job_request.document@, e.last_run_from@, e.last_outcome);
    lemma_state_unique(s, e, st);
}

/// For a representable entry whose encoding begins with the name of `st` and
/// whose tail reads as the name of `oc`: both are the entry's own, and the
/// quote closing the `lastRunFrom` field literal stands where the writer
/// identifier begins, with only plain characters after it.
pub(crate) proof fn lemma_valid_aligned(s: Seq<char>, e: JobEntry, st: JobState, oc: JobOutcome)
    requires
        e.wf(),
        s == encode_spec(e),
        s.subrange(10, 10 + state_chars(st).len() as int) == state_chars(st),
        s.len() >= 70,
        s.subrange(
            s.len() - 2 - outcome_chars(oc).len(),
            s.len() - 2,
        ) == outcome_chars(oc),
    ensures
        e.state == st,
        e.last_outcome == oc,
        ({
            let ds = 25 + state_chars(st).len() as int;
            let pl = s.len() - 19 - outcome_chars(oc).len() as int;
            let qe = ds + e.job_request.document@.len() as int + 15;
            &&& ds + 15 <= qe
            &&& qe + 1 <= pl
            &&& s[qe] == '"'
            &&& s.subrange(qe - 15, qe) == ",\"lastRunFrom\":"@
            &&& s.subrange(qe - 15, qe + 1) == ",\"lastRunFrom\":\""@
            &&& s.subrange(ds, qe - 15) == e.job_request.document@
            &&& s.subrange(qe + 1, pl) == e.last_run_from@
            &&& s.subrange(pl, pl + 17) == "\",\"lastOutcome\":\""@
            &&& forall|k: int| qe < k < pl ==> plain_char(s[k]) && s[k] != '"'
        }),
{
    lemma_literal_lens();
    lemma_literal_chars();
    lemma_encode_parts(e.state, e.job_request.document@, e.last_run_from@, e.last_outcome);
    lemma_state_unique(s, e, st);
    lemma_outcome_unique(s, e, oc);
    let ds = 25 + state_chars(st).len() as int;
    let pl = s.len() - 19 - outcome_chars(oc).len() as int;
    let qe = ds + e.job_request.document@.len() as int + 15;
    lemma_seq_eq_idx(s, qe - 15, qe + 1, ",\"lastRunFrom\":\""@);
    lemma_seq_eq_idx(s, qe + 1, pl, e.last_run_from@);
    assert(s.subrange(qe - 15, qe) =~= ",\"lastRunFrom\":"@);
    assert forall|k: int| qe < k < pl implies plain_char(s[k]) && s[k] != '"' by {
        assert(s[k] == e.last_run_from@[k - (qe + 1)]);
        assert(plain_char(e.last_run_from@[k - (qe + 1)]));
    }
}

/// A string that carries the pieces of an encoded entry at their offsets is
/// that encoding.
pub(crate) proof fn lemma_reconstruct(
    s: Seq<char>,
    st: JobState,
    document: Seq<char>,
    server_id: Seq<char>,
    oc: JobOutcome,
)
    requires
        ({
            let a = 10 + state_chars(st).len() as int;
            let b = a + 15;
            let c = b + document.len() as int;
            let d = c + 16;
            let f = d + server_id.len() as int;
            let g = f + 17;
            let h = g + outcome_chars(oc).len() as int;
            &&& s.len() == h + 2
            &&& s.subrange(0, 10) == "{\"state\":\""@
            &&& s.subrange(10, a) == state_chars(st)
            &&& s.subrange(a, b) == "\",\"jobRequest\":"@
            &&& s.subrange(b, c) == document
            &&& s.subrange(c, d) == ",\"lastRunFrom\":\""@
            &&& s.subrange(d, f) == server_id
            &&& s.subrange(f, g) == "\",\"lastOutcome\":\""@
            &&& s.subrange(g, h) == outcome_chars(oc)
            &&& s.subrange(h, h + 2) == "\"}"@
        }),
    ensures
        s == encoded_entry(st, document, server_id, oc),
{
    lemma_literal_lens();
    let a = 10 + state_chars(st).len() as int;
    let b = a + 15;
    let c = b + document.len() as int;
    let d = c + 16;
    let f = d + server_id.len() as int;
    let g = f + 17;
    let h = g + outcome_chars(oc).len() as int;
    lemma_seq_eq_idx(s, 0, 10, "{\"state\":\""@);
    lemma_seq_eq_idx(s, 10, a, state_chars(st));
    lemma_seq_eq_idx(s, a, b, "\",\"jobRequest\":"@);
    lemma_seq_eq_idx(s, b, c, document);
    lemma_seq_eq_idx(s, c, d, ",\"lastRunFrom\":\""@);
    lemma_seq_eq_idx(s, d, f, server_id);
    lemma_seq_eq_idx(s, f, g, "\",\"lastOutcome\":\""@);
    lemma_seq_eq_idx(s, g, h, outcome_chars(oc));
    lemma_seq_eq_idx(s, h, h + 2, "\"}"@);
    assert(s =~= encoded_entry(st, document, server_id, oc));
}

/// Whether two strings carry the same characters.
pub fn str_eq(a: &str, b: &str) -> (r: bool)
    ensures
        r == (a@ == b@),
{
    let la = a.unicode_len();
    let lb = b.unicode_len();
    if la != lb {
        proof {
            if a@ == b@ {
                assert(a@.len() == b@.len());
            }
        }
        return false;
    }
    let r = match_at(a, 0, b);
    proof {
        assert(a@.subrange(0, lb as int) =~= a@);
    }
    r
}

/// Read which state name stands after the opening literal.
fn parse_state(s: &str) -> (r: Option<JobState>)
    requires
        10 <= s@.len(),
    ensures
        r matches Some(st) ==> 10 + state_chars(st).len() <= s@.len() && s@.subrange(
            10,
            10 + state_chars(st).len() as int,
        ) == state_chars(st),
        r is None ==> forall|st: JobState|
            !(10 + (#[trigger] state_chars(st)).len() <= s@.len() && s@.subrange(
                10,
                10 + state_chars(st).len() as int,
            ) == state_chars(st)),
{
    proof {
        lemma_literal_chars();
    }
    if match_at(s, 10, "QUEUED") {
        Some(JobState::QUEUED)
    } else if match_at(s, 10, "WORKING") {
        Some(JobState::WORKING)
    } else if match_at(s, 10, "DONE") {
        Some(JobState::DONE)
    } else {
        proof {
            assert forall|st: JobState|
                !(10 + (#[trigger] state_chars(st)).len() <= s@.len() && s@.subrange(
                    10,
                    10 + state_chars(st).len() as int,
                ) == state_chars(st)) by {
                match st {
                    JobState::QUEUED => assert(state_chars(st) == "QUEUED"@),
                    JobState::WORKING => assert(state_chars(st) == "WORKING"@),
                    JobState::DONE => assert(state_chars(st) == "DONE"@),
                }
            }
        }
        None
    }
}

/// Read which outcome name stands just before the closing literal.
fn parse_outcome(s: &str) -> (r: Option<JobOutcome>)
    requires
        70 <= s@.len(),
    ensures
        r matches Some(oc) ==> s@.subrange(
            s@.len() - 2 - outcome_chars(oc).len(),
            s@.len() - 2,
        ) == outcome_chars(oc),
        r is None ==> forall|oc: JobOutcome|
            s@.subrange(
                s@.len() - 2 - (#[trigger] outcome_chars(oc)).len(),
                s@.len() - 2,
            ) != outcome_chars(oc),
{
    proof {
        lemma_literal_chars();
    }
    let n = s.unicode_len();
    if match_at(s, n - 11, "SUCCEEDED") {
        Some(JobOutcome::SUCCEEDED)
    } else if match_at(s, n - 8, "FAILED") {
        Some(JobOutcome::FAILED)
    } else if match_at(s, n - 9, "RUNNING") {
        Some(JobOutcome::RUNNING)
    } else if match_at(s, n - 9, "WAITING") {
        Some(JobOutcome::WAITING)
    } else {
        proof {
            assert forall|oc: JobOutcome|
                s@.subrange(
                    s@.len() - 2 - (#[trigger] outcome_chars(oc)).len(),
                    s@.len() - 2,
                ) != outcome_chars(oc) by {
                match oc {
                    JobOutcome::SUCCEEDED => assert(outcome_chars(oc) == "SUCCEEDED"@),
                    JobOutcome::FAILED => assert(outcome_chars(oc) == "FAILED"@),
                    JobOutcome::RUNNING => assert(outcome_chars(oc) == "RUNNING"@),
                    JobOutcome::WAITING => assert(outcome_chars(oc) == "WAITING"@),
                }
            }
        }
        None
    }
}

/// Scan `[lo, hi)` backwards for a quote with only plain characters after it
/// inside the range. Returns `None` when a backslash or control character
/// stands in the way, or when there is no quote at all.
fn scan_for_quote(s: &str, lo: usize, hi: usize) -> (r: Option<usize>)
    requires
        lo <= hi <= s@.len(),
    ensures
        r matches Some(q) ==> lo <= q < hi && s@[q as int] == '"' && (forall|k: int|
            q < k < hi ==> plain_char(#[trigger] s@[k]) && s@[k] != '"'),
        r is None ==> forall|q: int|
            lo <= q < hi && #[trigger] s@[q] == '"' ==> exists|k: int|
                q < k < hi && !plain_char(#[trigger] s@[k]),
{
    let mut j: usize = hi;
    while j > lo
        invariant
            lo <= j <= hi <= s@.len(),
            forall|k: int| j <= k < hi ==> plain_char(#[trigger] s@[k]) && s@[k] != '"',
        decreases j,
    {
        j = j - 1;
        let c = s.get_char(j);
        if c == '"' {
            return Some(j);
        }
        if c == '\\' || (c as u32) < 32 {
            proof {
                assert(!plain_char(s@[j as int]));
                assert forall|q: int|
                    lo <= q < hi && #[trigger] s@[q] == '"' implies exists|k: int|
                    q < k < hi && !plain_char(#[trigger] s@[k]) by {
                    assert(q < j);
                    assert(j < hi && !plain_char(s@[j as int]));
                }
            }
            return None;
        }
    }
    None
}

/// A parse that found every piece at its place has read an encoded entry.
pub(crate) proof fn lemma_decode_final(
    s: Seq<char>,
    st: JobState,
    oc: JobOutcome,
    idq: int,
    document: Seq<char>,
    server_id: Seq<char>,
)
    requires
        ({
            let n = s.len() as int;
            let sl = state_chars(st).len() as int;
            let ol = outcome_chars(oc).len() as int;
            &&& 25 + sl + 15 <= idq
            &&& idq + 1 <= n - 19 - ol
            &&& s.subrange(0, 10) == "{\"state\":\""@
            &&& s.subrange(10, 10 + sl) == state_chars(st)
            &&& s.subrange(10 + sl, 25 + sl) == "\",\"jobRequest\":"@
            &&& document == s.subrange(25 + sl, idq - 15)
            &&& s.subrange(idq - 15, idq) == ",\"lastRunFrom\":"@
            &&& s[idq] == '"'
            &&& server_id == s.subrange(idq + 1, n - 19 - ol)
            &&& (forall|k: int| idq < k < n - 19 - ol ==> plain_char(#[trigger] s[k]))
            &&& s.subrange(n - 19 - ol, n - 2 - ol) == "\",\"lastOutcome\":\""@
            &&& s.subrange(n - 2 - ol, n - 2) == outcome_chars(oc)
            &&& s.subrange(n - 2, n) == "\"}"@
        }),
    ensures
        s == encoded_entry(st, document, server_id, oc),
        id_plain(server_id),
{
    lemma_literal_lens();
    lemma_literal_chars();
    let n = s.len() as int;
    let sl = state_chars(st).len() as int;
    let ol = outcome_chars(oc).len() as int;
    assert(s.subrange(idq - 15, idq + 1) =~= ",\"lastRunFrom\":\""@);
    lemma_reconstruct(s, st, document, server_id, oc);
    assert forall|k: int| 0 <= k < server_id.len() implies plain_char(#[trigger] server_id[k]) by {
        assert(server_id[k] == s[idq + 1 + k]);
    }
}

/// Parse the canonical storage encoding back into an entry.
///
/// Exactly the canonical encodings of representable entries are accepted:
/// the parse succeeds if and only if the input is the encoding of some
/// representable entry, and it then returns that entry.
#[verifier::rlimit(100)]
pub fn decode_entry(s: &str) -> (r: Option<JobEntry>)
    ensures
        r matches Some(d) ==> d.wf() && s@ == encode_spec(d),
        forall|e: JobEntry|
            e.wf() && s@ == #[trigger] encode_spec(e) ==> (r matches Some(d) && same_entry(d, e)),
{
    proof {
        lemma_literal_lens();
        lemma_literal_chars();
    }
    let n = s.unicode_len();
    if n < 70 || !match_at(s, 0, "{\"state\":\"") {
        proof {
            assert forall|e: JobEntry| !(e.wf() && s@ == #[trigger] encode_spec(e)) by {
                if e.wf() && s@ == encode_spec(e) {
                    lemma_encode_parts(e.state, e.job_request.document@, e.last_run_from@, e.last_outcome);
                    assert(false);
                }
            }
        }
        return None;
    }
    let st: JobState;
    match parse_state(s) {
        Some(found) => {
            st = found;
        },
        None => {
            proof {
                assert forall|e: JobEntry| !(e.wf() && s@ == #[trigger] encode_spec(e)) by {
                    if e.wf() && s@ == encode_spec(e) {
                        lemma_encode_parts(e.state, e.job_request.document@, e.last_run_from@, e.last_outcome);
                        assert(false);
                    }
                }
            }
            return None;
        },
    }
    let slen = st.name().unicode_len();
    assert(slen == state_chars(st).len());
    let pos_b = 10 + slen;
    let doc_start = pos_b + 15;
    if !match_at(s, pos_b, "\",\"jobRequest\":") || !match_at(s, n - 2, "\"}") {
        proof {
            assert forall|e: JobEntry| !(e.wf() && s@ == #[trigger] encode_spec(e)) by {
                if e.wf() && s@ == encode_spec(e) {
                    lemma_valid_front(s@, e, st);
                    assert(false);
                }
            }
        }
        return None;
    }
    let oc: JobOutcome;
    match parse_outcome(s) {
        Some(found) => {
            oc = found;
        },
        None => {
            proof {
                assert forall|e: JobEntry| !(e.wf() && s@ == #[trigger] encode_spec(e)) by {
                    if e.wf() && s@ == encode_spec(e) {
                        lemma_valid_front(s@, e, st);
                        assert(false);
                    }
                }
            }
            return None;
        },
    }
    let olen = oc.name().unicode_len();
    assert(olen == outcome_chars(oc).len());
    let pos_l4 = n - 19 - olen;
    if pos_l4 < doc_start + 16 || !match_at(s, pos_l4, "\",\"lastOutcome\":\"") {
        proof {
            assert forall|e: JobEntry| !(e.wf() && s@ == #[trigger] encode_spec(e)) by {
                if e.wf() && s@ == encode_spec(e) {
                    lemma_valid_aligned(s@, e, st, oc);
                    assert(false);
                }
            }
        }
        return None;
    }
    let idq: usize;
    match scan_for_quote(s, doc_start, pos_l4) {
        Some(found) => {
            idq = found;
        },
        None => {
            proof {
                assert forall|e: JobEntry| !(e.wf() && s@ == #[trigger] encode_spec(e)) by {
                    if e.wf() && s@ == encode_spec(e) {
                        lemma_valid_aligned(s@, e, st, oc);
                        let qe = doc_start + e.job_request.document@.len() as int + 15;
                        assert(s@[qe] == '"');
                        assert(exists|k: int|
                            qe < k < pos_l4 && !plain_char(#[trigger] s@[k]));
                        assert(false);
                    }
                }
            }
            return None;
        },
    }
    // The quote that was found is the one closing the field literal: a
    // representable entry has no other quote before the outcome field.
    proof {
        assert forall|e: JobEntry|
            e.wf() && s@ == #[trigger] encode_spec(e) implies idq == doc_start
            + e.job_request.document@.len() + 15 by {
            lemma_valid_aligned(s@, e, st, oc);
            let qe = doc_start + e.job_request.document@.len() as int + 15;
            if idq > qe {
                assert(plain_char(s@[idq as int]));
                assert(false);
            }
            if idq < qe {
                assert(s@[qe] != '"');
                assert(false);
            }
        }
    }
    if idq < doc_start + 15 || !match_at(s, idq - 15, ",\"lastRunFrom\":") {
        proof {
            assert forall|e: JobEntry| !(e.wf() && s@ == #[trigger] encode_spec(e)) by {
                if e.wf() && s@ == encode_spec(e) {
                    lemma_valid_aligned(s@, e, st, oc);
                    assert(false);
                }
            }
        }
        return None;
    }
    let doc = s.substring_char(doc_start, idq - 15);
    let id = s.substring_char(idq + 1, pos_l4);
    let entry = JobEntry {
        state: st,
        job_request: JobRequest { document: String::from_str(doc) },
        last_run_from: String::from_str(id),
        last_outcome: oc,
    };
    proof {
        lemma_decode_final(s@, st, oc, idq as int, entry.job_request.document@, entry.last_run_from@);
        assert forall|e: JobEntry|
            e.wf() && s@ == #[trigger] encode_spec(e) implies same_entry(entry, e) by {
            lemma_encode_injective(entry, e);
        }
    }
    Some(entry)
}

} // verus!
