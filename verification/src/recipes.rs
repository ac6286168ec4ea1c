//! Reading the external command-runner's recipe listing.
//!
//! Asked for its menu, the external tool prints a header line followed by
//! one indented recipe per line. The header is discarded and the remaining
//! lines are trimmed; a tool that would not answer is an execution error.

use vstd::prelude::*;
use crate::store::JobError;
use crate::text::{lines_of, trim_seq, split_lines, trim_str};

verus! {

/// The recipe names in an introspection listing: every line after the
/// header, trimmed.
pub open spec fn recipe_list(s: Seq<char>) -> Seq<Seq<char>> {
    if lines_of(s).len() == 0 {
        Seq::empty()
    } else {
        lines_of(s).subrange(1, lines_of(s).len() as int).map_values(
            (|line: Seq<char>| trim_seq(line)),
        )
    }
}

/// The runnable recipes, read from the external tool's introspection
/// output — or an execution error when the tool itself failed.
#[verifier::loop_isolation(false)]
pub fn get_available(success: bool, introspection: &str) -> (r: Result<Vec<String>, JobError>)
    ensures
        success ==> (match r {
            Ok(v) => v.deep_view() == recipe_list(introspection@),
            Err(_) => false,
        }),
        !success ==> r == Err::<Vec<String>, JobError>(JobError::Execution),
{
    if !success {
        return Err(JobError::Execution);
    }
    let all_lines = split_lines(introspection);
    let mut out: Vec<String> = Vec::new();
    if all_lines.len() == 0 {
        proof {
            assert(out.deep_view() =~= recipe_list(introspection@));
        }
        return Ok(out);
    }
    let m = all_lines.len();
    for k in 1..m
        invariant
            m == all_lines.len(),
            out.deep_view().len() == k - 1,
            forall|w: int|
                0 <= w < k - 1 ==> out.deep_view()[w] == trim_seq(
                    #[trigger] all_lines.deep_view()[w + 1],
                ),
    {
        let trimmed = trim_str(all_lines[k].as_str());
        out.push(trimmed);
    }
    proof {
        assert(out.deep_view() =~= recipe_list(introspection@));
    }
    Ok(out)
}

} // verus!
