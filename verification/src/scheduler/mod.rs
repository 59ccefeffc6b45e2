//! Execution history of scheduled tasks.
//!
//! Cron scheduling itself is done by the application; this module keeps the
//! in-memory history that it updates around each run.
pub mod jobs;
pub mod task;

use vstd::prelude::*;

use crate::sources::copy_opt_string;
use crate::text::views;
use task::TaskStatus;

verus! {

broadcast use vstd::string::group_string_axioms;

/// Execution record for tracking task history. Times are RFC 3339 text.
#[derive(Debug, Clone)]
pub struct ExecutionRecord {
    pub task_name: String,
    pub status: TaskStatus,
    pub executed_at: String,
    pub completed_at: Option<String>,
    pub duration_ms: u64,
    pub articles_count: usize,
    pub error_message: Option<String>,
    pub digest_content: Option<String>,
}

/// How many records the in-memory history keeps.
pub const HISTORY_LIMIT: usize = 100;

/// The name a status is stored and shown under.
pub open spec fn status_name(s: TaskStatus) -> Seq<char> {
    match s {
        TaskStatus::Running => "Running"@,
        TaskStatus::Success => "Success"@,
        TaskStatus::Failed => "Failed"@,
    }
}

/// The name a status is stored and shown under: `Running`, `Success`, `Failed`.
pub fn status_text(s: TaskStatus) -> (r: &'static str)
    ensures
        r@ == status_name(s),
{
    match s {
        TaskStatus::Running => "Running",
        TaskStatus::Success => "Success",
        TaskStatus::Failed => "Failed",
    }
}

/// Reads a stored status name: `Success`, `Running`, anything else is `Failed`.
pub fn parse_status(text: &str) -> (s: TaskStatus)
    ensures
        text@ == "Success"@ ==> s == TaskStatus::Success,
        text@ == "Running"@ ==> s == TaskStatus::Running,
        text@ != "Success"@ && text@ != "Running"@ ==> s == TaskStatus::Failed,
{
    proof {
        reveal_strlit("Success");
        reveal_strlit("Running");
        assert("Success"@[0] == 'S' && "Running"@[0] == 'R');
    }
    let cs = crate::text::chars_of(text);
    if crate::text::eq_str(&cs, "Success") {
        TaskStatus::Success
    } else if crate::text::eq_str(&cs, "Running") {
        TaskStatus::Running
    } else {
        TaskStatus::Failed
    }
}

/// A status survives being stored by name and read back.
pub proof fn law_status_roundtrip(s: TaskStatus, text: Seq<char>)
    requires
        text == status_name(s),
    ensures
        text == "Success"@ ==> s == TaskStatus::Success,
        text == "Running"@ ==> s == TaskStatus::Running,
        text != "Success"@ && text != "Running"@ ==> s == TaskStatus::Failed,
{
    reveal_strlit("Success");
    reveal_strlit("Running");
    reveal_strlit("Failed");
    assert("Success"@[0] == 'S' && "Running"@[0] == 'R' && "Failed"@[0] == 'F');
}

impl ExecutionRecord {
    /// A field-for-field copy.
    pub fn copy(&self) -> (r: ExecutionRecord)
        ensures
            r == *self,
    {
        ExecutionRecord {
            task_name: self.task_name.clone(),
            status: self.status,
            executed_at: self.executed_at.clone(),
            completed_at: copy_opt_string(&self.completed_at),
            duration_ms: self.duration_ms,
            articles_count: self.articles_count,
            error_message: copy_opt_string(&self.error_message),
            digest_content: copy_opt_string(&self.digest_content),
        }
    }

    /// The record written when a run starts.
    pub fn running(task_name: &str, executed_at: &str) -> (r: ExecutionRecord)
        ensures
            r.task_name@ == task_name@,
            r.status == TaskStatus::Running,
            r.executed_at@ == executed_at@,
            r.completed_at is None,
            r.duration_ms == 0,
            r.articles_count == 0,
            r.error_message is None,
            r.digest_content is None,
    {
        ExecutionRecord {
            task_name: String::from_str(task_name),
            status: TaskStatus::Running,
            executed_at: String::from_str(executed_at),
            completed_at: None,
            duration_ms: 0,
            articles_count: 0,
            error_message: None,
            digest_content: None,
        }
    }

    /// The record written when a run ends: on success with the article count
    /// and the digest, on failure with the error text.
    pub fn finished(
        task_name: &str,
        executed_at: &str,
        completed_at: &str,
        duration_ms: u64,
        outcome: Result<(usize, String), String>,
    ) -> (r: ExecutionRecord)
        ensures
            r.task_name@ == task_name@,
            r.executed_at@ == executed_at@,
            r.completed_at matches Some(c) && c@ == completed_at@,
            r.duration_ms == duration_ms,
            match outcome {
                Ok((count, digest)) => {
                    &&& r.status == TaskStatus::Success
                    &&& r.articles_count == count
                    &&& r.error_message is None
                    &&& r.digest_content == Some(digest)
                },
                Err(e) => {
                    &&& r.status == TaskStatus::Failed
                    &&& r.articles_count == 0
                    &&& r.error_message == Some(e)
                    &&& r.digest_content is None
                },
            },
    {
        let (status, articles_count, error_message, digest_content) = match outcome {
            Ok((count, digest)) => (TaskStatus::Success, count, None, Some(digest)),
            Err(e) => (TaskStatus::Failed, 0, Some(e), None),
        };
        ExecutionRecord {
            task_name: String::from_str(task_name),
            status,
            executed_at: String::from_str(executed_at),
            completed_at: Some(String::from_str(completed_at)),
            duration_ms,
            articles_count,
            error_message,
            digest_content,
        }
    }
}

/// Whether `r` is the still-running record of the same run as `rec`.
pub open spec fn running_record_of(r: ExecutionRecord, rec: ExecutionRecord) -> bool {
    r.task_name@ == rec.task_name@ && r.executed_at@ == rec.executed_at@ && r.status == TaskStatus::Running
}

/// Position of the first running record of `rec`'s run, or `hist.len()`.
pub open spec fn running_position(hist: Seq<ExecutionRecord>, rec: ExecutionRecord) -> int
    decreases hist.len(),
{
    if hist.len() == 0 {
        0
    } else if running_record_of(hist[0], rec) {
        0
    } else {
        1 + running_position(hist.drop_first(), rec)
    }
}

proof fn lemma_running_position(hist: Seq<ExecutionRecord>, rec: ExecutionRecord, p: int)
    requires
        0 <= p <= hist.len(),
        forall|j: int| 0 <= j < p ==> !running_record_of(#[trigger] hist[j], rec),
        p == hist.len() || running_record_of(hist[p], rec),
    ensures
        running_position(hist, rec) == p,
    decreases hist.len(),
{
    if hist.len() > 0 && p > 0 {
        lemma_running_position(hist.drop_first(), rec, p - 1);
    }
}

/// The most recent `HISTORY_LIMIT` records of `hist`.
pub open spec fn most_recent(hist: Seq<ExecutionRecord>) -> Seq<ExecutionRecord> {
    if hist.len() > HISTORY_LIMIT {
        hist.skip(hist.len() - HISTORY_LIMIT)
    } else {
        hist
    }
}

/// The history after a run ends: its running record is replaced by the final
/// one (appended when missing), then only the most recent records are kept.
pub open spec fn completed_history(hist: Seq<ExecutionRecord>, rec: ExecutionRecord) -> Seq<ExecutionRecord> {
    let p = running_position(hist, rec);
    let full = if p < hist.len() {
        hist.update(p, rec)
    } else {
        hist.push(rec)
    };
    most_recent(full)
}

/// Records a run's start: its running record goes last.
pub fn record_started(hist: &mut Vec<ExecutionRecord>, record: ExecutionRecord)
    ensures
        final(hist)@ == old(hist)@.push(record),
{
    hist.push(record);
}

/// Position of the first running record of `record`'s run, or `hist.len()`.
fn find_running(hist: &Vec<ExecutionRecord>, record: &ExecutionRecord) -> (p: usize)
    ensures
        p as int == running_position(hist@, *record),
{
    let mut p: usize = 0;
    while p < hist.len()
        invariant
            p <= hist.len(),
            forall|j: int| 0 <= j < p ==> !running_record_of(#[trigger] hist@[j], *record),
        decreases hist.len() - p,
    {
        if hist[p].task_name == record.task_name && hist[p].executed_at == record.executed_at
            && hist[p].status == TaskStatus::Running {
            proof {
                lemma_running_position(hist@, *record, p as int);
            }
            return p;
        }
        p += 1;
    }
    proof {
        lemma_running_position(hist@, *record, p as int);
    }
    p
}

/// Records a run's end (see `completed_history`).
pub fn record_finished(hist: &mut Vec<ExecutionRecord>, record: ExecutionRecord)
    ensures
        final(hist)@ == completed_history(old(hist)@, record),
{
    let p = find_running(hist, &record);
    if p < hist.len() {
        hist.set(p, record);
    } else {
        hist.push(record);
    }
    let len = hist.len();
    if len > HISTORY_LIMIT {
        let kept = hist.split_off(len - HISTORY_LIMIT);
        *hist = kept;
    }
}

/// After a run ends the history holds at most `HISTORY_LIMIT` records; when
/// it held at most that many before, the final record is among them.
pub proof fn law_history_bounded(hist: Seq<ExecutionRecord>, rec: ExecutionRecord)
    ensures
        completed_history(hist, rec).len() <= HISTORY_LIMIT,
        hist.len() <= HISTORY_LIMIT ==> completed_history(hist, rec).contains(rec),
{
    let p = running_position(hist, rec);
    lemma_running_position_bound(hist, rec);
    let full = if p < hist.len() {
        hist.update(p, rec)
    } else {
        hist.push(rec)
    };
    let q = if p < hist.len() { p } else { hist.len() as int };
    assert(full[q] == rec);
    let out = most_recent(full);
    if hist.len() <= HISTORY_LIMIT {
        if full.len() > HISTORY_LIMIT {
            let start = full.len() - HISTORY_LIMIT;
            assert(q >= start);
            assert(out[q - start] == rec);
        } else {
            assert(out[q] == rec);
        }
    }
}

proof fn lemma_running_position_bound(hist: Seq<ExecutionRecord>, rec: ExecutionRecord)
    ensures
        0 <= running_position(hist, rec) <= hist.len(),
        running_position(hist, rec) < hist.len() ==> running_record_of(hist[running_position(hist, rec)], rec),
    decreases hist.len(),
{
    if hist.len() > 0 && !running_record_of(hist[0], rec) {
        lemma_running_position_bound(hist.drop_first(), rec);
    }
}

/// A run's end replaces its start: when the history holds no other
/// running record of the run, recording the start and then the end leaves
/// the history as if only the end had been recorded.
pub proof fn law_end_replaces_start(hist: Seq<ExecutionRecord>, start: ExecutionRecord, end: ExecutionRecord)
    requires
        running_record_of(start, end),
        forall|j: int| 0 <= j < hist.len() ==> !running_record_of(#[trigger] hist[j], end),
    ensures
        completed_history(hist.push(start), end) == most_recent(hist.push(end)),
{
    let h = hist.push(start);
    assert forall|j: int| 0 <= j < hist.len() implies !running_record_of(#[trigger] h[j], end) by {
        assert(h[j] == hist[j]);
    }
    lemma_running_position(h, end, hist.len() as int);
    assert(h.update(hist.len() as int, end) == hist.push(end));
}

} // verus!
