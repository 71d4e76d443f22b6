//! The wall clock.
use vstd::prelude::*;

verus! {

/// Gets the current time on the system in readable format.
///
/// Relies on chrono's `Local::now` and `DateTime::format`: the local wall-clock
/// time as `%Y-%m-%d %H:%M:%S`. It depends on the clock, so nothing is stated
/// of it.
#[verifier::external_body]
pub fn get_timestamp() -> String {
    chrono::Local::now().format("%Y-%m-%d %H:%M:%S").to_string()
}

} // verus!
