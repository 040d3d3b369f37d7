//! The one clock call the pipeline needs: the current UTC instant, used to
//! stamp an assembled record.
use vstd::prelude::*;

verus! {

/// Relies on chrono's `Utc::now` and `DateTime::to_rfc3339`: the current
/// UTC instant rendered in RFC 3339 form, which is never empty. Nothing
/// more is assumed of it — two calls may differ. Like the underlying call,
/// this aborts if the system clock reads before the Unix epoch.
#[verifier::external_body]
pub(crate) fn now_utc_rfc3339() -> (r: String)
    ensures
        r@.len() > 0,
{
    chrono::Utc::now().to_rfc3339()
}

} // verus!
