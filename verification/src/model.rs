//! The job record: status enum, timestamps, and the job entity itself.

use vstd::prelude::*;
use crate::digits::{int_seq, pad2_seq, i64_string, pad2_string};

verus! {

/// Lifecycle status of a job.
///
/// The only valid transitions are `Pending -> Running -> {Success, Failed}`,
/// plus `Failed -> Pending` (an external reset) and deletion of a `Pending`
/// job (cancel).
#[derive(Copy, Clone, Debug, PartialEq, Eq, Structural)]
pub enum TaskStatus {
    Pending,
    Running,
    Success,
    Failed,
}

impl TaskStatus {
    /// A terminal status: the runner is done with the job.
    pub open spec fn is_terminal(self) -> bool {
        self == TaskStatus::Success || self == TaskStatus::Failed
    }
}

/// The status transitions the state machine allows.
pub open spec fn valid_transition(from: TaskStatus, to: TaskStatus) -> bool {
    ||| (from == TaskStatus::Pending && to == TaskStatus::Running)
    ||| (from == TaskStatus::Running && to == TaskStatus::Success)
    ||| (from == TaskStatus::Running && to == TaskStatus::Failed)
    ||| (from == TaskStatus::Failed && to == TaskStatus::Pending)
}

/// A point in UTC time: seconds since the Unix epoch, together with the
/// calendar day it falls on. The calendar fields are captured from the same
/// clock reading as the seconds, so a timestamp carries everything the log
/// bucket layout and the same-day reset rule need, as plain values.
#[derive(Copy, Clone, Debug, PartialEq, Eq, Structural)]
pub struct Timestamp {
    pub unix: i64,
    pub year: i32,
    pub month: u8,
    pub day: u8,
}

impl Timestamp {
    /// The calendar fields lie in their documented ranges.
    pub open spec fn wf(self) -> bool {
        &&& 1 <= self.month <= 12
        &&& 1 <= self.day <= 31
        &&& -9999 <= self.year <= 9999
    }
}

/// The month bucket a timestamp falls in: `YYYY-MM`, the log directory
/// partition for everything created in that calendar month.
pub open spec fn month_bucket(ts: Timestamp) -> Seq<char> {
    int_seq(ts.year as int) + seq!['-'] + pad2_seq(ts.month as int)
}

/// The log file path of a job: `logs/<month bucket>/<id>.log`, a pure
/// function of `id` and `created_at`, never stored.
pub open spec fn log_path_seq(id: int, created_at: Timestamp) -> Seq<char> {
    "logs/"@ + month_bucket(created_at) + seq!['/'] + int_seq(id) + ".log"@
}

/// One persisted unit of work: a named command, its expected artifact, its
/// lifecycle status, and the two timestamps the state machine maintains.
#[derive(Debug)]
pub struct Job {
    pub id: i32,
    pub name: String,
    pub command: String,
    pub output: Option<String>,
    pub status: TaskStatus,
    pub created_at: Timestamp,
    pub updated_at: Timestamp,
}

impl Job {
    /// Record invariant: timestamps are well formed and creation never
    /// postdates the last update.
    pub open spec fn wf(self) -> bool {
        &&& self.created_at.wf()
        &&& self.updated_at.wf()
        &&& self.created_at.unix <= self.updated_at.unix
    }

    /// The `YYYY-MM` month bucket of this job's creation time.
    pub fn month(&self) -> (r: String)
        ensures
            r@ == month_bucket(self.created_at),
    {
        let mut s = i64_string(self.created_at.year as i64);
        s.append("-");
        let mm = pad2_string(self.created_at.month);
        s.append(mm.as_str());
        proof {
            reveal_strlit("-");
            assert(s@ =~= month_bucket(self.created_at));
        }
        s
    }

    /// The derived path of this job's execution log.
    pub fn log_path(&self) -> (r: String)
        ensures
            r@ == log_path_seq(self.id as int, self.created_at),
    {
        let mut s = String::from_str("logs/");
        let bucket = self.month();
        s.append(bucket.as_str());
        s.append("/");
        let id_text = i64_string(self.id as i64);
        s.append(id_text.as_str());
        s.append(".log");
        proof {
            reveal_strlit("/");
            assert(s@ =~= log_path_seq(self.id as int, self.created_at));
        }
        s
    }
}

impl Clone for Job {
    /// A clone carries exactly the same record.
    fn clone(&self) -> (r: Self)
        ensures
            r == *self,
    {
        Job {
            id: self.id,
            name: self.name.clone(),
            command: self.command.clone(),
            output: match &self.output {
                Some(path) => Some(path.clone()),
                None => None,
            },
            status: self.status,
            created_at: self.created_at,
            updated_at: self.updated_at,
        }
    }
}

} // verus!
