//! Fresh random names and the creation timestamp: the only two values of the
//! core that do not depend on its inputs.

use vstd::prelude::*;

use rand::distributions::{Alphanumeric, DistString};

verus! {

/// Relies on rand's `Alphanumeric` distribution sampled from the operating
/// system's generator: the result holds exactly `len` characters, each an
/// ASCII letter or digit. Nothing is assumed about which ones.
#[verifier::external_body]
pub fn random_alphanumeric(len: usize) -> (r: String)
    ensures
        r@.len() == len,
        crate::spec_alphanumeric(r@),
{
    Alphanumeric.sample_string(&mut rand::rngs::OsRng, len)
}

/// A fresh random filename for a placed blob: not derived from the content
/// or the metadata, so collisions are only probabilistically avoided.
pub fn fresh_blob_name() -> (r: String)
    ensures
        r@.len() == 24,
        crate::spec_alphanumeric(r@),
{
    random_alphanumeric(24)
}

/// Relies on chrono's `Utc::now`: the current time as seconds since the Unix
/// epoch. Nothing is assumed about the clock's value.
#[verifier::external_body]
fn now_seconds() -> (r: i64) {
    chrono::Utc::now().timestamp()
}

/// The current UTC time in whole seconds, clamped at the epoch.
pub fn current_timestamp() -> (r: u64) {
    let t = now_seconds();
    if t < 0 {
        0u64
    } else {
        t as u64
    }
}

} // verus!
