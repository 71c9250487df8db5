//! Date ranges of the history downloads: `%Y-%m-%d` dates turned into the
//! first and last instant they cover, and the paging of the Binance and
//! Polymarket history endpoints over such a range.
use vstd::prelude::*;

verus! {

/// The midnight (UTC) that starts the day written `s` in the `%Y-%m-%d`
/// format, in milliseconds since the Unix epoch; none when `s` is no such
/// date. It is what chrono's `NaiveDate::parse_from_str` reads.
pub uninterp spec fn day_start_ms(s: Seq<char>) -> Option<i64>;

/// The error chrono reports for a text that is not a date,
/// `chrono::format::ParseError`; opaque here.
#[verifier::external_type_specification]
#[verifier::external_body]
pub struct ExParseError(chrono::format::ParseError);

/// chrono's `NaiveDate::parse_from_str(s, "%Y-%m-%d")`, taken at midnight
/// UTC (`and_time(NaiveTime::MIN)`, `and_utc`, `timestamp_millis`). Claimed:
/// the result is `day_start_ms` of the text; a date chrono accepts lies
/// between its `NaiveDate::MIN` and `MAX` (years -262143 to 262142), so its
/// milliseconds lie within 9 * 10^15 of the epoch, and a midnight is a whole
/// number of days after it. Which texts chrono accepts is not stated.
#[verifier::external_body]
fn parse_day_start_ms(s: &str) -> (r: Result<i64, chrono::format::ParseError>)
    ensures
        match r {
            Ok(t) => day_start_ms(s@) == Some(t) && -9_000_000_000_000_000 < t < 9_000_000_000_000_000
                && t % 86_400_000 == 0,
            Err(_) => day_start_ms(s@) is None,
        },
{
    chrono::NaiveDate::parse_from_str(s, "%Y-%m-%d").map(
        |d| d.and_time(chrono::NaiveTime::MIN).and_utc().timestamp_millis(),
    )
}

/// The milliseconds from the start of a day to its last whole second,
/// 23:59:59.
pub const DAY_LAST_SECOND_MS: i64 = 86_399_000;

/// Which end of a date range is not a date, with chrono's report.
pub enum DateRangeError {
    BadFrom(chrono::format::ParseError),
    BadTo(chrono::format::ParseError),
}

/// The range of the dates `from_date` to `to_date` in milliseconds: from the
/// midnight that starts the first to 23:59:59 of the last. The first date is
/// read first: when both are bad, the first is reported.
pub fn date_range_ms(from_date: &str, to_date: &str) -> (r: Result<(i64, i64), DateRangeError>)
    ensures
        match r {
            Ok((a, b)) => day_start_ms(from_date@) == Some(a) && day_start_ms(to_date@) is Some && b
                == day_start_ms(to_date@)->0 + DAY_LAST_SECOND_MS,
            Err(DateRangeError::BadFrom(_)) => day_start_ms(from_date@) is None,
            Err(DateRangeError::BadTo(_)) => day_start_ms(from_date@) is Some && day_start_ms(to_date@) is None,
        },
{
    let a = match parse_day_start_ms(from_date) {
        Ok(a) => a,
        Err(e) => return Err(DateRangeError::BadFrom(e)),
    };
    match parse_day_start_ms(to_date) {
        Ok(t) => Ok((a, t + DAY_LAST_SECOND_MS)),
        Err(e) => Err(DateRangeError::BadTo(e)),
    }
}

/// The range of the dates `from_date` to `to_date` in seconds (see
/// `date_range_ms`).
pub fn date_range_secs(from_date: &str, to_date: &str) -> (r: Result<(i64, i64), DateRangeError>)
    ensures
        match r {
            Ok((a, b)) => day_start_ms(from_date@) is Some && day_start_ms(from_date@)->0 == a * 1000 && day_start_ms(
                to_date@,
            ) is Some && b * 1000 == day_start_ms(to_date@)->0 + DAY_LAST_SECOND_MS,
            Err(DateRangeError::BadFrom(_)) => day_start_ms(from_date@) is None,
            Err(DateRangeError::BadTo(_)) => day_start_ms(from_date@) is Some && day_start_ms(to_date@) is None,
        },
{
    let a = match parse_day_start_ms(from_date) {
        Ok(a) => a,
        Err(e) => return Err(DateRangeError::BadFrom(e)),
    };
    match parse_day_start_ms(to_date) {
        Ok(t) => {
            assert(a / 1000 * 1000 == a) by (nonlinear_arith)
                requires a % 86_400_000 == 0;
            assert(t / 1000 * 1000 == t) by (nonlinear_arith)
                requires t % 86_400_000 == 0;
            Ok((a / 1000, t / 1000 + 86_399))
        },
        Err(e) => Err(DateRangeError::BadTo(e)),
    }
}

/// The most candles or funding records one page of the Binance history
/// endpoints holds.
pub const PAGE_LIMIT: usize = 1000;

/// The most pages the candle downloads ask for.
pub const MAX_PAGE_REQUESTS: u32 = 500;

/// The first page of a candle download over `from_ms` to `to_ms` starts at
/// `from_ms`; none is asked for when the range is empty.
pub fn paging_start(from_ms: i64, to_ms: i64) -> (r: Option<i64>)
    ensures
        r == (if from_ms < to_ms { Some(from_ms) } else { None::<i64> }),
{
    if from_ms < to_ms {
        Some(from_ms)
    } else {
        None
    }
}

/// What ends a candle download early when under the page limit: the page
/// just fetched (the backtest fetch) or all candles fetched so far (the
/// download into the store).
#[derive(Clone, Copy, Debug, PartialEq, Eq, Structural)]
pub enum ShortPageRule {
    Page,
    Total,
}

/// The start of the next candle page, or none when the download stops, after
/// a page of `page_len` candles (the last opening at `last_open_ms`) fetched
/// with `requests` pages before it, `total_len` candles fetched in all, up to
/// `to_ms`: it stops on an empty page, on a short page (by `rule`), and once
/// the next start (a millisecond after the last candle) reaches `to_ms` or
/// `MAX_PAGE_REQUESTS` pages were asked for.
pub open spec fn kline_next_start_of(
    to_ms: int,
    requests: int,
    page_len: int,
    last_open_ms: int,
    total_len: int,
    rule: ShortPageRule,
) -> Option<int> {
    let short = match rule {
        ShortPageRule::Page => page_len < PAGE_LIMIT,
        ShortPageRule::Total => total_len < PAGE_LIMIT,
    };
    if page_len == 0 || short || !(last_open_ms + 1 < to_ms && requests + 1 < MAX_PAGE_REQUESTS) {
        None
    } else {
        Some(last_open_ms + 1)
    }
}

/// The paging step of the candle downloads (see `kline_next_start_of`).
pub fn kline_next_start(
    to_ms: i64,
    requests: u32,
    page_len: usize,
    last_open_ms: i64,
    total_len: usize,
    rule: ShortPageRule,
) -> (r: Option<i64>)
    requires
        requests < MAX_PAGE_REQUESTS,
        page_len > 0 ==> last_open_ms < i64::MAX,
    ensures
        match kline_next_start_of(to_ms as int, requests as int, page_len as int, last_open_ms as int, total_len as int, rule) {
            Some(t) => r == Some(t as i64),
            None => r is None,
        },
{
    if page_len == 0 {
        return None;
    }
    let short = match rule {
        ShortPageRule::Page => page_len < PAGE_LIMIT,
        ShortPageRule::Total => total_len < PAGE_LIMIT,
    };
    let next = last_open_ms + 1;
    if short || !(next < to_ms && requests + 1 < MAX_PAGE_REQUESTS) {
        None
    } else {
        Some(next)
    }
}

/// The latest of `start` and the positive funding times of `times`.
pub open spec fn latest_funding_of(start: int, times: Seq<i64>) -> int
    decreases times.len(),
{
    if times.len() == 0 {
        start
    } else {
        let before = latest_funding_of(start, times.drop_last());
        if times.last() > 0 && times.last() > before {
            times.last() as int
        } else {
            before
        }
    }
}

/// The latest of `start` and the positive funding times of a page.
pub fn latest_funding_time(start: i64, times: &Vec<i64>) -> (r: i64)
    ensures
        r == latest_funding_of(start as int, times@),
{
    let mut latest = start;
    let mut i: usize = 0;
    while i < times.len()
        invariant
            i <= times@.len(),
            latest == latest_funding_of(start as int, times@.take(i as int)),
        decreases times@.len() - i,
    {
        proof {
            assert(times@.take(i as int + 1).drop_last() =~= times@.take(i as int));
        }
        let t = times[i];
        if t > 0 && t > latest {
            latest = t;
        }
        i = i + 1;
    }
    assert(times@.take(i as int) =~= times@);
    latest
}

/// The start of the next funding page, or none when the download stops: on
/// an empty or a short page; otherwise a millisecond after `latest`, the
/// latest of the page's start and its funding times.
pub fn funding_next_start(page_len: usize, latest: i64) -> (r: Option<i64>)
    requires
        page_len >= PAGE_LIMIT ==> latest < i64::MAX,
    ensures
        r == (if page_len < PAGE_LIMIT { None::<i64> } else { Some((latest + 1) as i64) }),
{
    if page_len < PAGE_LIMIT {
        None
    } else {
        Some(latest + 1)
    }
}

/// The most price points one Polymarket history request covers.
pub const POINTS_PER_CHUNK: i64 = 3000;

/// The next Polymarket history chunk from `start`, up to `to_ts` (seconds),
/// at `fidelity` minutes a point: none once `start` reaches `to_ts`;
/// otherwise its end, `POINTS_PER_CHUNK` points on or `to_ts` if that is
/// sooner, and the start of the chunk after it, a second later.
pub fn poly_next_chunk(start: i64, to_ts: i64, fidelity: i64) -> (r: Option<(i64, i64)>)
    requires
        1 <= fidelity <= 1440,
        to_ts <= i64::MAX - 259_200_000,
    ensures
        start >= to_ts ==> r is None,
        start < to_ts ==> (r matches Some((end, next)) && end == (if start + fidelity * 60 * POINTS_PER_CHUNK
            < to_ts { start + fidelity * 60 * POINTS_PER_CHUNK } else { to_ts as int }) && next == end + 1),
{
    if start >= to_ts {
        return None;
    }
    assert(fidelity * 60 * POINTS_PER_CHUNK <= 259_200_000) by (nonlinear_arith)
        requires 1 <= fidelity <= 1440;
    assert(fidelity * 60 * POINTS_PER_CHUNK >= 0) by (nonlinear_arith)
        requires 1 <= fidelity <= 1440;
    let span = fidelity * 60 * POINTS_PER_CHUNK;
    let reach = start + span;
    let end = if reach < to_ts { reach } else { to_ts };
    Some((end, end + 1))
}

} // verus!
