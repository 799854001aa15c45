//! Human-readable timestamps for `created_at` and `updated_at`.
use vstd::prelude::*;
use crate::primitives::local_time_text;

verus! {

/// How timestamps are written: day, month name, year, hour and minute.
pub const TIME_FORMAT: &'static str = "%d %B, %Y, %I:%M %p";

/// The local time now, as a timestamp text.
pub fn now() -> String {
    local_time_text(TIME_FORMAT)
}

} // verus!
