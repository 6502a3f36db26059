use vstd::prelude::*;

verus! {

/// Relies on std::time::SystemTime::now for the current wall-clock
/// instant, converted here to unix microseconds. Nothing is promised
/// of the value: it depends on the machine's clock.
#[verifier::external_body]
pub(crate) fn now_unix_micros() -> i64 {
    match std::time::SystemTime::now().duration_since(std::time::UNIX_EPOCH) {
        Ok(d) => d.as_micros() as i64,
        Err(_) => 0,
    }
}

} // verus!
