use vstd::prelude::*;

verus! {

/// First second (UTC) of year 0, the first year that RFC 2822 dates cover.
pub const FIRST_DATE_SECOND: i64 = -62167219200;

/// Last second (UTC) of year 9999, the last year that RFC 2822 dates cover.
pub const LAST_DATE_SECOND: i64 = 253402300799;

/// A second that an RFC 2822 date can express.
pub open spec fn date_second(t: i64) -> bool {
    FIRST_DATE_SECOND <= t <= LAST_DATE_SECOND
}

/// The RFC 2822 text (UTC) of a second since the Unix epoch.
pub uninterp spec fn rfc2822_text(t: i64) -> Seq<char>;

/// The second since the Unix epoch that an RFC 2822 text denotes, if it is
/// one.
pub uninterp spec fn rfc2822_seconds(s: Seq<char>) -> Option<i64>;

/// Relies on chrono's `DateTime::<Utc>::from_timestamp` and `to_rfc2822`:
/// the text depends on the second alone, writes the year with four digits
/// and the offset `+0000`, so `parse_from_rfc2822` reads it back as the same
/// second. Years 0 to 9999 only: `to_rfc2822` panics outside them.
#[verifier::external_body]
pub(crate) fn format_rfc2822(t: i64) -> (r: String)
    requires
        date_second(t),
    ensures
        r@ == rfc2822_text(t),
        rfc2822_seconds(r@) == Some(t),
{
    chrono::DateTime::<chrono::Utc>::from_timestamp(t, 0).unwrap().to_rfc2822()
}

/// Relies on chrono's `DateTime::parse_from_rfc2822` and `timestamp`: the
/// result depends on the text alone.
#[verifier::external_body]
pub(crate) fn parse_rfc2822(s: &str) -> (r: Option<i64>)
    ensures
        r == rfc2822_seconds(s@),
{
    chrono::DateTime::parse_from_rfc2822(s).ok().map(|d| d.timestamp())
}

} // verus!
