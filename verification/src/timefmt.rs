//! Rendering Unix timestamps as local-time display strings for the target
//! timezone (Asia/Tokyo).

use vstd::prelude::*;
use vstd::string::*;

verus! {

/// Seconds since the epoch that name a representable calendar instant: the
/// bounds of chrono's `DateTime::from_timestamp`.
pub open spec fn timestamp_representable(secs: i64) -> bool {
    -8334601228800 <= secs <= 8210266876799
}

/// The `YYYY/MM/DD HH:MM` rendering of a representable instant in Asia/Tokyo.
pub uninterp spec fn tokyo_format(secs: i64) -> Seq<char>;

/// Relies on chrono's DateTime::from_timestamp, which returns Some exactly on
/// the representable range, DateTime::with_timezone with chrono-tz's
/// Asia::Tokyo, and the `%Y/%m/%d %H:%M` formatter: the rendering is a
/// function of the seconds alone.
#[verifier::external_body]
fn render_tokyo(secs: i64) -> (r: Option<String>)
    ensures
        r is Some <==> timestamp_representable(secs),
        r matches Some(s) ==> s@ == tokyo_format(secs),
{
    chrono::DateTime::from_timestamp(secs, 0).map(
        |dt| dt.with_timezone(&chrono_tz::Asia::Tokyo).format("%Y/%m/%d %H:%M").to_string(),
    )
}

/// The placeholder shown when a timestamp names no representable instant.
pub open spec fn unavailable_marker() -> Seq<char> {
    "日付不明"@
}

pub open spec fn spec_format_timestamp(secs: i64) -> Seq<char> {
    if timestamp_representable(secs) {
        tokyo_format(secs)
    } else {
        unavailable_marker()
    }
}

/// Interprets `secs` as whole seconds since the Unix epoch in UTC and renders
/// the instant as `YYYY/MM/DD HH:MM` in Asia/Tokyo; a timestamp outside the
/// representable calendar range yields a fixed placeholder instead.
pub fn format_timestamp(secs: i64) -> (r: String)
    ensures
        r@ == spec_format_timestamp(secs),
{
    match render_tokyo(secs) {
        Some(s) => s,
        None => String::from_str("日付不明"),
    }
}

} // verus!
