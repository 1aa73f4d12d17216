//! Dates in header fields.
use crate::headers::visible;
use std::time::{Duration, UNIX_EPOCH};
use vstd::prelude::*;

verus! {

/// The first second of the year 10000, which has no date in a header field.
pub const END_OF_DATES: u64 = 253_402_300_800;

/// The seconds since the Unix epoch that a date in a header field stands for, as
/// `httpdate` reads it.
pub uninterp spec fn date_value(s: Seq<char>) -> Option<u64>;

/// The date in a header field that `httpdate` writes for a number of seconds
/// since the Unix epoch.
pub uninterp spec fn date_text(secs: u64) -> Seq<char>;

/// `httpdate::parse_http_date` reads a date, which is never before the Unix epoch
/// and has whole seconds. What it reads is named [`date_value`].
#[verifier::external_body]
pub(crate) fn read_date(s: &str) -> (r: Option<u64>)
    ensures
        r == date_value(s@),
{
    let time = httpdate::parse_http_date(s).ok()?;
    Some(time.duration_since(UNIX_EPOCH).unwrap().as_secs())
}

/// `httpdate::fmt_http_date` writes a date, named [`date_text`]. It panics from
/// the year 10000 on. The text is visible, and reads as the seconds it was
/// written for.
#[verifier::external_body]
pub(crate) fn write_date(secs: u64) -> (r: String)
    requires
        secs < END_OF_DATES,
    ensures
        r@ == date_text(secs),
        visible(r@),
        date_value(r@) == Some(secs),
{
    httpdate::fmt_http_date(UNIX_EPOCH + Duration::from_secs(secs))
}

}
