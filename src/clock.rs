//! Calendar text for file modification times, and case folding of
//! extensions, as the outside libraries compute them.

use vstd::prelude::*;

verus! {

/// The UTC calendar text `YYYY-MM-DD HH:MM:SS` of a count of seconds since
/// the Unix epoch; none where the calendar cannot represent it.
pub uninterp spec fn utc_text(secs: int) -> Option<Seq<char>>;

/// The lower-case form of a text.
pub uninterp spec fn lower_of(s: Seq<char>) -> Seq<char>;

/// Relies on chrono's `DateTime::from_timestamp` and `DateTime::format`:
/// whether the instant is representable, and its text, depend on `secs` alone.
#[verifier::external_body]
pub(crate) fn timestamp_text(secs: i64) -> (r: Option<String>)
    ensures
        match r {
            Some(t) => utc_text(secs as int) == Some(t@),
            None => utc_text(secs as int) is None,
        },
{
    chrono::DateTime::from_timestamp(secs, 0).map(|dt| dt.format("%Y-%m-%d %H:%M:%S").to_string())
}

/// Relies on `str::to_lowercase`: the result depends on the characters alone.
#[verifier::external_body]
pub(crate) fn lowercase(s: &str) -> (r: String)
    ensures
        r@ == lower_of(s@),
{
    s.to_lowercase()
}

/// The calendar text of a modification time, where there is one and the
/// calendar can represent it.
pub fn modification_text(secs: Option<i64>) -> (r: Option<String>)
    ensures
        match secs {
            Some(t) => match r {
                Some(x) => utc_text(t as int) == Some(x@),
                None => utc_text(t as int) is None,
            },
            None => r is None,
        },
{
    match secs {
        Some(t) => timestamp_text(t),
        None => None,
    }
}

} // verus!
