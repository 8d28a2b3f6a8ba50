use vstd::prelude::*;

verus! {

/// Relies on `std::time::SystemTime::now` measured from the Unix epoch: the
/// wall-clock time in milliseconds. Nothing is promised of its value (a clock
/// may be set back), and 0 stands for a clock before the epoch.
#[verifier::external_body]
pub(crate) fn unix_millis() -> (r: u64) {
    match std::time::SystemTime::now().duration_since(std::time::UNIX_EPOCH) {
        Ok(d) => d.as_millis() as u64,
        Err(_) => 0,
    }
}

} // verus!
