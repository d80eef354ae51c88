//! What the command-line front end says: the two verdicts and the usage
//! line.

use vstd::prelude::*;
use vstd::string::StringExecFns;
use crate::accepted::accepted_flag;
use crate::accepted::lemma_accepted_flag_is_unique;
use crate::validator::upside_down_ep;

verus! {

/// The verdict on the accepted candidate.
pub open spec fn success_text() -> Seq<char> {
    "Yep, congrats."@
}

/// The verdict on any other candidate.
pub open spec fn failure_text() -> Seq<char> {
    "Try again."@
}

/// The usage line for a program invoked as `program`.
pub open spec fn usage_text(program: Seq<char>) -> Seq<char> {
    "Usage: ./"@ + program + " <flag>"@
}

/// The verdict for the result of the routine.
pub fn verdict(accepted: bool) -> (text: &'static str)
    ensures
        text@ == (if accepted { success_text() } else { failure_text() }),
{
    if accepted {
        "Yep, congrats."
    } else {
        "Try again."
    }
}

/// Runs the routine on `candidate` and says what to print: the success
/// text on the accepted candidate, the failure text on everything else.
pub fn judge(candidate: &[u8]) -> (text: &'static str)
    ensures
        text@ == (if candidate@ == accepted_flag() { success_text() } else { failure_text() }),
{
    proof {
        lemma_accepted_flag_is_unique(candidate@);
    }
    verdict(upside_down_ep(candidate))
}

/// The line printed when no candidate is given.
pub fn usage_line(program: &str) -> (line: String)
    ensures
        line@ == usage_text(program@),
{
    let mut line = String::from_str("Usage: ./");
    line.append(program);
    line.append(" <flag>");
    line
}

} // verus!
