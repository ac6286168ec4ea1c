//! The listing client's view of a job.
//!
//! The listing a browser renders carries each job as plain text: status as
//! a word, creation time in its RFC 3339 rendering. These helpers slice
//! and decorate that text for display.

use vstd::prelude::*;
use crate::clock::clock_now;
use crate::digits::{int_seq, pad2_seq, i64_string, pad2_string};
use crate::model::Timestamp;

verus! {

/// A job as the listing client sees it.
#[derive(Debug)]
pub struct Task {
    pub id: i32,
    pub name: String,
    pub output: Option<String>,
    pub status: String,
    pub created_at: String,
}

impl Clone for Task {
    /// A clone carries exactly the same record.
    fn clone(&self) -> (r: Self)
        ensures
            r == *self,
    {
        Task {
            id: self.id,
            name: self.name.clone(),
            output: match &self.output {
                Some(path) => Some(path.clone()),
                None => None,
            },
            status: self.status.clone(),
            created_at: self.created_at.clone(),
        }
    }
}

/// The status emoji the listing shows for each status word.
pub open spec fn emoji_of(status: Seq<char>) -> Seq<char> {
    if status == "Pending"@ {
        "\u{23f3}"@
    } else if status == "Running"@ {
        "\u{1f3d7}\u{fe0f}"@
    } else if status == "Success"@ {
        "\u{2705}"@
    } else if status == "Failed"@ {
        "\u{274c}"@
    } else {
        "\u{2753}"@
    }
}

/// Where the file name of a path starts: just past its last slash, or at
/// the start when it has none.
pub open spec fn cut_of(p: Seq<char>) -> int
    decreases p.len(),
{
    if p.len() == 0 {
        0
    } else if p.last() == '/' {
        p.len() as int
    } else {
        cut_of(p.drop_last())
    }
}

/// The file name of a path: everything after its last slash, the whole
/// path when it has none.
pub open spec fn basename_of(p: Seq<char>) -> Seq<char> {
    p.subrange(cut_of(p), p.len() as int)
}

/// A calendar day rendered as in an RFC 3339 timestamp: year, two-digit
/// month, two-digit day, dash-separated.
pub open spec fn date_seq(ts: Timestamp) -> Seq<char> {
    int_seq(ts.year as int) + seq!['-'] + pad2_seq(ts.month as int) + seq!['-'] + pad2_seq(
        ts.day as int,
    )
}

/// The slash-free window at the end of `p` that a backwards scan stopped
/// on is exactly its file name.
proof fn lemma_cut_range(p: Seq<char>, c: int)
    requires
        0 <= c <= p.len(),
        forall|k: int| c <= k < p.len() ==> #[trigger] p[k] != '/',
        c > 0 ==> p[c - 1] == '/',
    ensures
        cut_of(p) == c,
    decreases p.len(),
{
    if p.len() == 0 {
    } else if c == p.len() {
    } else {
        assert(p.last() != '/');
        let t = p.drop_last();
        assert forall|k: int| c <= k < t.len() implies #[trigger] t[k] != '/' by {
            assert(t[k] == p[k]);
        }
        if c > 0 {
            assert(t[c - 1] == p[c - 1]);
        }
        lemma_cut_range(t, c);
    }
}

/// The current UTC day, rendered as a date.
pub fn today() -> (r: String)
    ensures
        exists|now: Timestamp| (#[trigger] now.wf()) && r@ == date_seq(now),
{
    let now = clock_now();
    let mut s = i64_string(now.year as i64);
    s.append("-");
    let mm = pad2_string(now.month);
    s.append(mm.as_str());
    s.append("-");
    let dd = pad2_string(now.day);
    s.append(dd.as_str());
    proof {
        reveal_strlit("-");
        assert(s@ =~= date_seq(now));
    }
    s
}

impl Task {
    /// The `YYYY-MM` month bucket of the creation timestamp's rendering:
    /// its first seven characters.
    pub fn month(&self) -> (r: String)
        requires
            self.created_at@.len() >= 7,
        ensures
            r@ == self.created_at@.subrange(0, 7),
    {
        let w = self.created_at.as_str().substring_char(0, 7);
        String::from_str(w)
    }

    /// The calendar day of the creation timestamp's rendering: its first
    /// ten characters.
    pub fn date(&self) -> (r: String)
        requires
            self.created_at@.len() >= 10,
        ensures
            r@ == self.created_at@.subrange(0, 10),
    {
        let w = self.created_at.as_str().substring_char(0, 10);
        String::from_str(w)
    }

    /// The emoji the listing shows for this job's status.
    pub fn status_emoji(&self) -> (r: &'static str)
        ensures
            r@ == emoji_of(self.status@),
    {
        let pending = String::from_str("Pending");
        let running = String::from_str("Running");
        let success = String::from_str("Success");
        let failed = String::from_str("Failed");
        if self.status == pending {
            "\u{23f3}"
        } else if self.status == running {
            "\u{1f3d7}\u{fe0f}"
        } else if self.status == success {
            "\u{2705}"
        } else if self.status == failed {
            "\u{274c}"
        } else {
            "\u{2753}"
        }
    }

    /// The artifact's file name: what follows the last slash of the output
    /// path (the whole path when it has no slash), empty without an output.
    #[verifier::loop_isolation(false)]
    pub fn filename(&self) -> (r: &str)
        ensures
            self.output is Some ==> r@ == basename_of((self.output->0)@),
            self.output is None ==> r@ == Seq::<char>::empty(),
    {
        match &self.output {
            Some(path) => {
                let n = path.as_str().unicode_len();
                let mut cut: usize = n;
                while cut > 0 && path.as_str().get_char(cut - 1) != '/'
                    invariant
                        cut <= n,
                        forall|k: int| cut <= k < n ==> #[trigger] path@[k] != '/',
                    decreases cut,
                {
                    cut = cut - 1;
                }
                proof {
                    lemma_cut_range(path@, cut as int);
                }
                path.as_str().substring_char(cut, n)
            },
            None => {
                proof {
                    reveal_strlit("");
                    assert(""@ =~= Seq::<char>::empty());
                }
                ""
            },
        }
    }

    /// Whether the retry control applies: only a job created today may be
    /// rerun. The answer compares this job's creation date with the
    /// current UTC day's rendering.
    pub fn can_rerun(&self) -> (r: bool)
        requires
            self.created_at@.len() >= 10,
        ensures
            exists|now: Timestamp|
                (#[trigger] now.wf()) && r == (date_seq(now) == self.created_at@.subrange(
                    0,
                    10,
                )),
    {
        let t = today();
        let d = self.date();
        let r = t == d;
        proof {
            let now = choose|now: Timestamp| (#[trigger] now.wf()) && t@ == date_seq(now);
            assert((#[trigger] now.wf()) && r == (date_seq(now) == self.created_at@.subrange(
                0,
                10,
            )));
        }
        r
    }
}

/// Pair each task with its id, for keyed rendering of the listing.
#[verifier::loop_isolation(false)]
pub fn enumerate_tasks(tasks: &Vec<Task>) -> (r: Vec<(i32, Task)>)
    ensures
        r@.len() == tasks@.len(),
        forall|i: int|
            0 <= i < tasks@.len() ==> (#[trigger] r@[i]).0 == tasks@[i].id && r@[i].1
                == tasks@[i],
{
    let mut r: Vec<(i32, Task)> = Vec::new();
    let n = tasks.len();
    for i in 0..n
        invariant
            r@.len() == i,
            forall|w: int|
                0 <= w < i ==> (#[trigger] r@[w]).0 == tasks@[w].id && r@[w].1 == tasks@[w],
    {
        let t = tasks[i].clone();
        r.push((t.id, t));
    }
    r
}

} // verus!
