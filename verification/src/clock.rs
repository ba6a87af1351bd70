//! Wall-clock readings and timestamp rendering. Time is carried as Unix
//! timestamps in seconds; only the two functions here touch the clock
//! library.

use vstd::prelude::*;
use core::fmt::Write;

verus! {

/// Relies on chrono::Local::now: the current time as a Unix timestamp in
/// seconds. Nothing can be promised of a clock reading.
#[verifier::external_body]
pub fn current_timestamp() -> i64 {
    chrono::Local::now().timestamp()
}

/// What rendering a timestamp with a format string yields: a function of
/// the two arguments alone.
pub uninterp spec fn chrono_format(t: int, fmt: Seq<char>) -> Seq<char>;

/// Relies on chrono's strftime-style formatting of a UTC date-time built
/// with DateTime::from_timestamp. A timestamp out of chrono's range, or a
/// format string chrono rejects, yields the bare timestamp in decimal.
#[verifier::external_body]
pub fn format_timestamp(t: i64, fmt: &str) -> (r: String)
    ensures
        r@ == chrono_format(t as int, fmt@),
{
    match chrono::DateTime::from_timestamp(t, 0) {
        Some(dt) => {
            let mut out = String::new();
            if write!(out, "{}", dt.format(fmt)).is_ok() {
                out
            } else {
                format!("{}", t)
            }
        },
        None => format!("{}", t),
    }
}

} // verus!
