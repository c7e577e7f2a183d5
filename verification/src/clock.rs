use vstd::prelude::*;

verus! {

/// Relies on std::time::SystemTime::now and duration_since: the number of
/// milliseconds since the Unix epoch. Nothing can be promised about a clock
/// reading, so every caller states what holds of each possible value.
#[verifier::external_body]
pub fn now_millis() -> u64 {
    match std::time::SystemTime::now().duration_since(std::time::SystemTime::UNIX_EPOCH) {
        Ok(d) => {
            let ms = d.as_millis();
            if ms > u64::MAX as u128 {
                u64::MAX
            } else {
                ms as u64
            }
        },
        Err(_) => 0,
    }
}

} // verus!
