//! The one place the library reads the wall clock.

use vstd::prelude::*;
use crate::date::{spec_file_name_for_millis, file_name_for_millis};

verus! {

/// Relies on chrono's `Utc::now`, which aborts if the system clock is
/// before the Unix epoch and otherwise returns a time at or after it,
/// and on `DateTime::timestamp_millis`, the count of non-leap
/// milliseconds since the epoch — non-negative for such a time.
#[verifier::external_body]
pub(crate) fn now_millis() -> (r: i64)
    ensures
        r >= 0,
{
    chrono::Utc::now().timestamp_millis()
}

/// The name of the log file for the current UTC day.
pub fn get_current_file_name() -> (r: Vec<u8>)
    ensures
        exists|ms: int| ms >= 0 && r@ == spec_file_name_for_millis(ms),
{
    let ms = now_millis();
    let r = file_name_for_millis(ms);
    proof {
        assert(ms as int >= 0 && r@ == spec_file_name_for_millis(ms as int));
    }
    r
}

} // verus!
