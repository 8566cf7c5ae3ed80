use vstd::prelude::*;

verus! {

/// Relies on std's `SystemTime::now` and `duration_since(UNIX_EPOCH)`: nanoseconds since
/// the Unix epoch, 0 for a clock set before it. Nothing is promised of the value.
#[verifier::external_body]
fn nanos_since_epoch() -> (r: u128) {
    std::time::SystemTime::now().duration_since(std::time::UNIX_EPOCH).map(|d| d.as_nanos()).unwrap_or(0)
}

/// The current time in milliseconds since the Unix epoch.
pub fn generate_timestamp() -> (r: u64) {
    let n = nanos_since_epoch();
    (n / 1_000_000) as u64
}

/// The current time in microseconds since the Unix epoch.
pub fn generate_timestamp_micros() -> (r: u64) {
    let n = nanos_since_epoch();
    (n / 1_000) as u64
}

/// The current time in seconds since the Unix epoch.
pub fn generate_timestamp_secs() -> (r: u64) {
    let n = nanos_since_epoch();
    (n / 1_000_000_000) as u64
}

} // verus!
