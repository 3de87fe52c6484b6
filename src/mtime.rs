//! Modification times: recent ones show the time of day, older ones the year.

use vstd::prelude::*;
use chrono::TimeZone;
use crate::text::opt_view;

verus! {

/// What chrono writes for the instant `secs` (seconds since the Unix epoch) in
/// the time zone named `zone`, following the strftime `pattern`; `None` where
/// the zone is not known or the instant cannot be represented.
pub uninterp spec fn zoned_time_text(zone: Seq<char>, secs: int, pattern: Seq<char>) -> Option<
    Seq<char>,
>;

/// The pattern of a recent time: month, day, hours and minutes (`Mon D HH:MM`).
pub open spec fn recent_pattern() -> Seq<char> {
    seq!['%', 'b', ' ', '%', 'e', ' ', '%', 'H', ':', '%', 'M']
}

/// The pattern of an older time: month, day and year (`Mon D  YYYY`).
pub open spec fn dated_pattern() -> Seq<char> {
    seq!['%', 'b', ' ', '%', 'e', ' ', ' ', '%', 'Y']
}

/// The name of the zone used where the given one is not known.
pub open spec fn utc_zone() -> Seq<char> {
    seq!['U', 'T', 'C']
}

/// Six months of thirty days, in seconds.
pub const RECENT_SPAN: i128 = 180 * 86400;

/// Whether a time is recent: not in the future, and less than six months of
/// thirty days before now.
pub open spec fn is_recent(modified: int, now: int) -> bool {
    0 <= now - modified < RECENT_SPAN
}

/// Relies on chrono-tz's `FromStr for Tz` to resolve the zone name, chrono's
/// `Utc.timestamp_opt` and `DateTime::with_timezone` to place the instant in
/// that zone, and `DateTime::format` to write it; `None` for a zone name that
/// chrono-tz does not know or an instant chrono cannot represent. Both patterns
/// allowed are ones chrono formats without error.
#[verifier::external_body]
fn format_in_zone(zone: &str, secs: i64, pattern: &str) -> (r: Option<String>)
    requires
        pattern@ == recent_pattern() || pattern@ == dated_pattern(),
    ensures
        opt_view(r) == zoned_time_text(zone@, secs as int, pattern@),
{
    let tz: chrono_tz::Tz = zone.parse().ok()?;
    let at = chrono::Utc.timestamp_opt(secs, 0).single()?;
    Some(at.with_timezone(&tz).format(pattern).to_string())
}

/// The text of the modification time `modified` at `now` in the zone named
/// `zone` (in UTC where that zone is not known): `Mon D HH:MM` when it is
/// recent, `Mon D  YYYY` otherwise; `None` when the time cannot be represented.
pub open spec fn time_text(zone: Seq<char>, modified: int, now: int) -> Option<Seq<char>> {
    let pattern = if is_recent(modified, now) {
        recent_pattern()
    } else {
        dated_pattern()
    };
    match zoned_time_text(zone, modified, pattern) {
        Some(t) => Some(t),
        None => zoned_time_text(utc_zone(), modified, pattern),
    }
}

/// The text of a modification time.
pub fn format_time(zone: &str, modified: i64, now: i64) -> (r: Option<String>)
    ensures
        opt_view(r) == time_text(zone@, modified as int, now as int),
{
    proof {
        reveal_strlit("%b %e %H:%M");
        reveal_strlit("%b %e  %Y");
        reveal_strlit("UTC");
        assert("%b %e %H:%M"@ =~= recent_pattern());
        assert("%b %e  %Y"@ =~= dated_pattern());
        assert("UTC"@ =~= utc_zone());
    }
    let age: i128 = now as i128 - modified as i128;
    let pattern = if 0 <= age && age < RECENT_SPAN {
        "%b %e %H:%M"
    } else {
        "%b %e  %Y"
    };
    assert(pattern@ == recent_pattern() || pattern@ == dated_pattern());
    match format_in_zone(zone, modified, pattern) {
        Some(t) => Some(t),
        None => format_in_zone("UTC", modified, pattern),
    }
}

} // verus!
