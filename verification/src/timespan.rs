use vstd::prelude::*;

use jiff::fmt::friendly::Designator;
use jiff::fmt::friendly::Direction;
use jiff::fmt::friendly::Spacing;
use jiff::fmt::friendly::SpanPrinter;
use jiff::tz::Offset;
use jiff::tz::TimeZone;
use jiff::SpanRound;
use jiff::Timestamp;
use jiff::Unit;

verus! {

/// The verbose rendering of the span between two fixed-offset instants,
/// rounded from years down to hours relative to the first, or nothing when
/// some step of that computation refuses its input (an out-of-range second
/// or offset, an overflowing difference or rounding). Both instants are
/// given as seconds since the epoch with an offset in seconds, and every
/// step is deterministic, so the outcome — failure included — depends on
/// the four numbers alone.
pub uninterp spec fn span_ago_of(
    ts_seconds: i64,
    ts_offset: i32,
    now_seconds: i64,
    now_offset: i32,
) -> Option<Seq<char>>;

/// Relies on jiff: `Timestamp::from_second` and `TimeZone::fixed` build the
/// two instants, `Zoned::since` takes their difference, `Span::round` rounds
/// it with years as the largest and hours as the smallest unit relative to
/// the first instant, and the friendly `SpanPrinter` (suffix direction,
/// verbose designators, a comma after each) renders it. Any step may refuse
/// out-of-range input, and then nothing is returned. The printer writes only
/// digits, signs, spaces, commas and unit words, never a newline.
#[verifier::external_body]
pub(crate) fn span_ago(
    ts_seconds: i64,
    ts_offset: i32,
    now_seconds: i64,
    now_offset: i32,
) -> (r: Option<String>)
    ensures
        match r {
            Some(t) => span_ago_of(ts_seconds, ts_offset, now_seconds, now_offset) == Some(t@)
                && !t@.contains('\n'),
            None => span_ago_of(ts_seconds, ts_offset, now_seconds, now_offset) is None,
        },
{
    let ts = Timestamp::from_second(ts_seconds)
        .ok()?
        .to_zoned(TimeZone::fixed(Offset::from_seconds(ts_offset).ok()?));
    let now = Timestamp::from_second(now_seconds)
        .ok()?
        .to_zoned(TimeZone::fixed(Offset::from_seconds(now_offset).ok()?));
    let round = SpanRound::new().largest(Unit::Year).smallest(Unit::Hour).relative(&ts);
    let span = now.since(&ts).ok()?.round(round).ok()?;
    let printer = SpanPrinter::new()
        .direction(Direction::Suffix)
        .spacing(Spacing::BetweenUnitsAndDesignators)
        .comma_after_designator(true)
        .designator(Designator::Verbose);
    Some(printer.span_to_string(&span))
}

} // verus!
