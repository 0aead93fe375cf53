//! Points of the UTC time line, counted in nanoseconds from the Unix epoch.
use crate::text::decimal;
use vstd::prelude::*;

verus! {

/// Nanoseconds in a second.
pub const NANOS_PER_SECOND: i128 = 1_000_000_000;

/// Nanoseconds in a day.
pub const NANOS_PER_DAY: i128 = 86_400_000_000_000;

/// The text of the moment that lies some seconds and nanoseconds after the Unix epoch.
pub uninterp spec fn utc_text_of(secs: i64, nanos: u32) -> Option<Seq<char>>;

/// `chrono::Utc::now` as seconds from the Unix epoch (`timestamp`) and nanoseconds from the last
/// second boundary (`timestamp_subsec_nanos`). Nothing is claimed of what the clock reads.
#[verifier::external_body]
fn clock() -> (r: (i64, u32)) {
    let now = chrono::Utc::now();
    (now.timestamp(), now.timestamp_subsec_nanos())
}

/// `to_string` of `chrono::DateTime::from_timestamp`; none where that function gives none. The
/// text depends on the two numbers alone.
#[verifier::external_body]
fn utc_text(secs: i64, nanos: u32) -> (r: Option<String>)
    ensures
        match r {
            Some(s) => utc_text_of(secs, nanos) == Some(s@),
            None => utc_text_of(secs, nanos) is None,
        },
{
    chrono::DateTime::from_timestamp(secs, nanos).map(|t| t.to_string())
}

/// Whether a number of nanoseconds can be a moment: every moment of the calendar is, with room on
/// either side.
pub open spec fn is_moment(t: i128) -> bool {
    -10_000_000_000_000_000_000_000_000_000 < t < 10_000_000_000_000_000_000_000_000_000
}

/// Whether the clock can read so many seconds and nanoseconds from the Unix epoch.
pub closed spec fn clock_reads(secs: i64, nanos: u32) -> bool {
    call_ensures(clock, (), (secs, nanos))
}

/// The moment that lies some seconds and nanoseconds after the Unix epoch.
pub open spec fn moment_at(secs: i64, nanos: u32) -> int {
    secs * 1_000_000_000 + nanos
}

/// Whether the clock can read a moment.
pub open spec fn is_now(t: i128) -> bool {
    exists|secs: i64, nanos: u32| #[trigger] clock_reads(secs, nanos) && t == moment_at(secs, nanos)
}

/// The present moment: what the clock reads, in nanoseconds.
pub fn utc_now() -> (now: i128)
    ensures
        is_moment(now),
        is_now(now),
{
    let (secs, nanos) = clock();
    assert(clock_reads(secs, nanos));
    secs as i128 * 1_000_000_000 + nanos as i128
}

/// The text of a moment: as the calendar has it, or the plain number where the calendar ends.
pub open spec fn moment_text(t: i128) -> Seq<char> {
    let secs = t as int / 1_000_000_000;
    let nanos = t as int % 1_000_000_000;
    if i64::MIN <= secs <= i64::MAX && utc_text_of(secs as i64, nanos as u32) is Some {
        utc_text_of(secs as i64, nanos as u32)->Some_0
    } else if t < 0 {
        "-"@ + crate::text::decimal_text((-t) as nat)
    } else {
        crate::text::decimal_text(t as nat)
    }
}

/// The text of a moment.
pub fn show_moment(t: i128) -> (r: String)
    requires
        t > i128::MIN,
    ensures
        r@ == moment_text(t),
{
    let mut secs: i128 = t / 1_000_000_000;
    let mut nanos: i128 = t % 1_000_000_000;
    if nanos < 0 {
        secs = secs - 1;
        nanos = nanos + 1_000_000_000;
    }
    assert(secs == t as int / 1_000_000_000 && nanos == t as int % 1_000_000_000);
    if i64::MIN as i128 <= secs && secs <= i64::MAX as i128 {
        match utc_text(secs as i64, nanos as u32) {
            Some(s) => {
                return s;
            },
            None => {},
        }
    }
    if t < 0 {
        "-".to_owned().concat(decimal((-t) as u128).as_str())
    } else {
        decimal(t as u128)
    }
}

} // verus!
