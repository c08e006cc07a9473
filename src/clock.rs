//! Wall-clock time, through chrono.

use vstd::prelude::*;

verus! {

/// The UTC rendering, `%Y-%m-%d %H:%M:%S UTC`, of the instant `secs`
/// seconds after the Unix epoch (the epoch itself where chrono has no such
/// instant).
pub uninterp spec fn utc_timestamp_text(secs: int) -> Seq<char>;

/// Relies on chrono's `Utc::now` and `DateTime::timestamp`: the current
/// time in whole seconds since the Unix epoch. Nothing is assumed of its
/// value.
#[verifier::external_body]
pub(crate) fn unix_now() -> (r: i64) {
    chrono::Utc::now().timestamp()
}

/// Relies on chrono's `DateTime::from_timestamp` and `DateTime::format`: the
/// instant `secs` seconds after the epoch rendered as
/// `%Y-%m-%d %H:%M:%S UTC`, a function of `secs` alone.
#[verifier::external_body]
pub(crate) fn utc_timestamp(secs: i64) -> (r: String)
    ensures
        r@ == utc_timestamp_text(secs as int),
{
    chrono::DateTime::from_timestamp(secs, 0).unwrap_or_default().format("%Y-%m-%d %H:%M:%S UTC").to_string()
}

} // verus!
