//! Timestamp presentation. Timestamps are carried as unix seconds; the
//! calendar rendering itself is delegated to the time crate behind one
//! trusted wrapper whose result is a function of the timestamp alone.

use vstd::prelude::*;
use time::format_description;
use time::OffsetDateTime;

verus! {

/// What the calendar formatter produces for a timestamp of unix
/// seconds, as a function of the timestamp alone.
pub uninterp spec fn formatted_date_of(secs: i64) -> Seq<char>;

/// Unix seconds whose calendar date the formatter can represent: from
/// the first second of year -9999 to the last second of year 9999.
pub open spec fn formattable_timestamp(secs: i64) -> bool {
    -377705116800 <= secs <= 253402300799
}

/// Relies on `time::OffsetDateTime::from_unix_timestamp` and
/// `OffsetDateTime::format` with the fixed description
/// `[month repr:short] [day] [year] [hour]:[minute]:[second]`: both are
/// deterministic in the timestamp (UTC, hardcoded English month names,
/// no locale), so the result is a function of the timestamp alone.
/// `from_unix_timestamp`'s only failure is its range check (years
/// -9999 to 9999 inclusive), and formatting a complete datetime with
/// this description cannot fail (every component is provided and the
/// writer is an in-memory buffer), so within that range the call
/// returns `Some`; `None` otherwise.
#[verifier::external_body]
fn format_timestamp(secs: i64) -> (r: Option<String>)
    ensures
        r matches Some(s) ==> s@ == formatted_date_of(secs),
        formattable_timestamp(secs) ==> r is Some,
{
    let desc = match format_description::parse(
        "[month repr:short] [day] [year] [hour]:[minute]:[second]",
    ) {
        Ok(d) => d,
        Err(_) => {
            return None;
        },
    };
    match OffsetDateTime::from_unix_timestamp(secs) {
        Ok(d) => d.format(&desc).ok(),
        Err(_) => None,
    }
}

/// The formatted timestamp, or `default` when the timestamp is absent
/// or out of the formatter's range.
pub fn get_date_with_default(value: &Option<i64>, default: &str) -> (r: String)
    ensures
        value is None ==> r@ == default@,
        value matches Some(s) ==> (r@ == formatted_date_of(*s) || r@ == default@),
        value matches Some(s) ==> (formattable_timestamp(*s) ==> r@ == formatted_date_of(*s)),
{
    match value {
        Some(s) => {
            match format_timestamp(*s) {
                Some(f) => f,
                None => default.to_owned(),
            }
        },
        None => default.to_owned(),
    }
}

} // verus!
