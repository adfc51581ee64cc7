//! The one place the library reads the clock.
use vstd::prelude::*;

verus! {

/// Relies on chrono's `Utc::now` and the `Display` rendering of a
/// `DateTime<Utc>`. The value depends on the moment of the call, so nothing
/// is promised of it.
#[verifier::external_body]
pub fn utc_now_string() -> String {
    chrono::Utc::now().to_string()
}

} // verus!
