//! The decision a listing run takes once the target's existence has been
//! checked, and the fixed user-facing messages.

use vstd::prelude::*;
use vstd::string::StringExecFns;

verus! {

/// What a run does: render one of the two output modes, or stop with one of
/// the two reports.
#[derive(Clone, Copy, Debug, PartialEq, Eq, Structural)]
pub enum ListingPlan {
    Structured,
    Tabular,
    Missing,
    Unreadable,
}

/// The decision: list an existing path in the chosen mode; report a missing
/// path; report distinctly when existence could not be determined (`None`).
pub open spec fn plan_spec(exists: Option<bool>, structured: bool) -> ListingPlan {
    match exists {
        Some(true) => if structured {
            ListingPlan::Structured
        } else {
            ListingPlan::Tabular
        },
        Some(false) => ListingPlan::Missing,
        None => ListingPlan::Unreadable,
    }
}

/// Decides a run from the existence check (`None` when the check itself
/// failed) and the structured-output flag.
pub fn plan_listing(exists: Option<bool>, structured: bool) -> (r: ListingPlan)
    ensures
        r == plan_spec(exists, structured),
{
    match exists {
        Some(true) => if structured {
            ListingPlan::Structured
        } else {
            ListingPlan::Tabular
        },
        Some(false) => ListingPlan::Missing,
        None => ListingPlan::Unreadable,
    }
}

/// A path that does not exist is never listed, in either mode: the run ends
/// in the missing-path report and nothing else.
pub proof fn lemma_missing_never_lists(structured: bool)
    ensures
        plan_spec(Some(false), structured) == ListingPlan::Missing,
        plan_spec(Some(false), structured) != ListingPlan::Structured,
        plan_spec(Some(false), structured) != ListingPlan::Tabular,
{
}

/// The report for a path that does not exist.
pub fn missing_message() -> (r: String)
    ensures
        r@ == "Path does not exist.\n"@,
{
    String::from_str("Path does not exist.\n")
}

/// The report for a path whose existence could not be determined.
pub fn unreadable_message() -> (r: String)
    ensures
        r@ == "Error: Unable to read the dir.\n"@,
{
    String::from_str("Error: Unable to read the dir.\n")
}

} // verus!
