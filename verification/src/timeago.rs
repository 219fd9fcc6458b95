use vstd::prelude::*;
use crate::decimal::{parse_u64, parse_u64_str};

verus! {

/// What `timeago::Formatter` (English, at most `num_items` units, seconds
/// being the smallest) writes for a duration of `secs` seconds and `nanos`
/// nanoseconds.
pub uninterp spec fn timeago_text(secs: u64, nanos: u32, num_items: usize) -> Seq<char>;

/// `timeago::Formatter::new()`, `num_items(num_items)`, then `convert` of
/// the duration `secs` s + `nanos` ns.
#[verifier::external_body]
fn format_duration(secs: u64, nanos: u32, num_items: usize) -> (r: String)
    requires
        nanos < 1_000_000_000,
        num_items > 0,
    ensures
        r@ == timeago_text(secs, nanos, num_items),
{
    let mut formatter = timeago::Formatter::new();
    formatter.num_items(num_items);
    formatter.convert(std::time::Duration::new(secs, nanos))
}

/// How many units ("1 hour 1 minute 3 seconds") an elapsed time shows.
pub const TIMEAGO_ITEMS: usize = 3;

/// Renders a unix timestamp as the time elapsed since then ("... ago").
pub struct TimeAgo;

/// The latest instant, in seconds since the epoch, that a date can stand
/// for: December 31 of year 262142, 23:59:59 UTC. The timestamps rendered
/// here are turned into such dates, which holds none beyond it.
pub const MAX_TIMESTAMP: u64 = 8210266876799;

/// Time elapsed from the instant `timestamp` (whole seconds since the epoch)
/// to `now` (`now_secs` seconds and `now_nanos` nanoseconds since the epoch),
/// as seconds and nanoseconds; zero when `timestamp` lies in the future.
pub open spec fn elapsed(timestamp: u64, now_secs: u64, now_nanos: u32) -> (u64, u32) {
    if timestamp <= now_secs {
        ((now_secs - timestamp) as u64, now_nanos)
    } else {
        (0, 0)
    }
}

/// What a job page shows for `timestamp` at `now`.
pub open spec fn time_ago(timestamp: u64, now_secs: u64, now_nanos: u32) -> Seq<char> {
    let (s, n) = elapsed(timestamp, now_secs, now_nanos);
    timeago_text(s, n, TIMEAGO_ITEMS)
}

/// A signed timestamp as seconds since the epoch; a negative one counts as 0.
pub open spec fn timestamp_of_i64(t: i64) -> u64 {
    if t < 0 {
        0
    } else {
        t as u64
    }
}

/// A timestamp in the future reads as no time elapsed at all.
pub proof fn law_future_reads_as_no_time(timestamp: u64, now_secs: u64, now_nanos: u32)
    requires
        timestamp > now_secs,
    ensures
        time_ago(timestamp, now_secs, now_nanos) == timeago_text(0, 0, TIMEAGO_ITEMS),
{
}

impl TimeAgo {
    /// Time elapsed from `timestamp` to now; zero for a future timestamp.
    pub fn elapsed(timestamp: u64, now_secs: u64, now_nanos: u32) -> (r: (u64, u32))
        ensures
            r == elapsed(timestamp, now_secs, now_nanos),
    {
        if timestamp <= now_secs {
            (now_secs - timestamp, now_nanos)
        } else {
            (0, 0)
        }
    }

    /// Reads the timestamp handed to the filter, as `str::parse::<u64>` does.
    pub fn parse_timestamp(input: &str) -> (r: Option<u64>)
        ensures
            r == parse_u64(input@),
    {
        parse_u64_str(input)
    }

    /// Time elapsed from `timestamp` to now, in words.
    pub fn render(timestamp: u64, now_secs: u64, now_nanos: u32) -> (r: String)
        requires
            timestamp <= MAX_TIMESTAMP,
            now_nanos < 1_000_000_000,
        ensures
            r@ == time_ago(timestamp, now_secs, now_nanos),
    {
        let (secs, nanos) = TimeAgo::elapsed(timestamp, now_secs, now_nanos);
        format_duration(secs, nanos, TIMEAGO_ITEMS)
    }

    /// The filter: the numeric text `input` read as a timestamp, rendered
    /// as the time elapsed since then.
    pub fn evaluate(input: &str, now_secs: u64, now_nanos: u32) -> (r: String)
        requires
            parse_u64(input@) is Some,
            parse_u64(input@)->0 <= MAX_TIMESTAMP,
            now_nanos < 1_000_000_000,
        ensures
            r@ == time_ago(parse_u64(input@)->0, now_secs, now_nanos),
    {
        match TimeAgo::parse_timestamp(input) {
            Some(timestamp) => TimeAgo::render(timestamp, now_secs, now_nanos),
            None => vstd::pervasive::unreached(),
        }
    }

    /// Time elapsed since the signed timestamp `timestamp` (a negative one
    /// counts as the epoch), in words.
    pub fn since(timestamp: i64, now_secs: u64, now_nanos: u32) -> (r: String)
        requires
            timestamp <= MAX_TIMESTAMP,
            now_nanos < 1_000_000_000,
        ensures
            r@ == time_ago(timestamp_of_i64(timestamp), now_secs, now_nanos),
    {
        let t: u64 = if timestamp < 0 { 0 } else { timestamp as u64 };
        TimeAgo::render(t, now_secs, now_nanos)
    }
}

} // verus!
