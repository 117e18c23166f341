//! Wake-event scheduling: reading the time expressions that a user gives,
//! resolving them against the current time, and keeping the schedule of
//! wake events.
use vstd::prelude::*;

pub mod clock;
pub mod parse_time;
pub mod schedule;
pub mod text;
pub mod time;
pub mod time_laws;

verus! {

} // verus!
