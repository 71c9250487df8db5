//! Candle interval strings ("1m", "5m", "1h", "1d", ...) and the sizes derived
//! from them.
use vstd::prelude::*;
use crate::text::{
    chars_of, has_suffix, lower_of, parse_unsigned, parse_unsigned_chars, same_as, string_of,
    strip_suffix_all, to_lower, trim_suffix_all, trim_white, trimmed,
};

verus! {

/// `parse_unsigned` for `u64`, or `default` when the text does not parse.
pub open spec fn parse_u64_or(s: Seq<char>, default: int) -> int {
    match parse_unsigned(s, u64::MAX as int) {
        Some(v) => v,
        None => default,
    }
}

/// Seconds in an interval string: trimmed and lower-cased, then a number with
/// every trailing unit letter removed, times the unit: `s` seconds (60 when the
/// number does not parse), `m` minutes, `h` hours, `d` days (1 unit when the
/// number does not parse); a bare number counts minutes (60 when it does not
/// parse).
pub open spec fn interval_secs(interval: Seq<char>) -> int {
    let s = lower_of(trimmed(interval));
    if has_suffix(s, "s"@) {
        parse_u64_or(strip_suffix_all(s, "s"@), 60)
    } else if has_suffix(s, "m"@) {
        parse_u64_or(strip_suffix_all(s, "m"@), 1) * 60
    } else if has_suffix(s, "h"@) {
        parse_u64_or(strip_suffix_all(s, "h"@), 1) * 3600
    } else if has_suffix(s, "d"@) {
        parse_u64_or(strip_suffix_all(s, "d"@), 1) * 86400
    } else {
        parse_u64_or(s, 60) * 60
    }
}

/// The number and its unit multiplier, as `interval_secs` reads them.
fn interval_parts(interval: &str) -> (r: (u64, u64))
    ensures
        r.0 as int * r.1 as int == interval_secs(interval@),
        r.1 == 1 || r.1 == 60 || r.1 == 3600 || r.1 == 86400,
{
    proof {
        reveal_strlit("s");
        reveal_strlit("m");
        reveal_strlit("h");
        reveal_strlit("d");
    }
    let t = trim_white(&chars_of(interval));
    let ts = string_of(&t);
    let lowered = to_lower(ts.as_str());
    let s = chars_of(lowered.as_str());
    let unit_s = chars_of("s");
    let unit_m = chars_of("m");
    let unit_h = chars_of("h");
    let unit_d = chars_of("d");
    assert(s@ == lower_of(trimmed(interval@)));
    if crate::text::ends_with(&s, &unit_s) {
        let n = parse_unsigned_chars(&trim_suffix_all(&s, &unit_s), u64::MAX);
        let v = n.unwrap_or(60);
        (v, 1)
    } else if crate::text::ends_with(&s, &unit_m) {
        let n = parse_unsigned_chars(&trim_suffix_all(&s, &unit_m), u64::MAX);
        (n.unwrap_or(1), 60)
    } else if crate::text::ends_with(&s, &unit_h) {
        let n = parse_unsigned_chars(&trim_suffix_all(&s, &unit_h), u64::MAX);
        (n.unwrap_or(1), 3600)
    } else if crate::text::ends_with(&s, &unit_d) {
        let n = parse_unsigned_chars(&trim_suffix_all(&s, &unit_d), u64::MAX);
        (n.unwrap_or(1), 86400)
    } else {
        let n = parse_unsigned_chars(&s, u64::MAX);
        (n.unwrap_or(60), 60)
    }
}

/// Seconds in a candle interval such as "30s", "5m", "1h" or "1d"; a bare
/// number counts minutes.
pub fn interval_to_secs(interval: &str) -> (r: u64)
    requires
        interval_secs(interval@) <= u64::MAX,
    ensures
        r == interval_secs(interval@),
{
    let (n, unit) = interval_parts(interval);
    n * unit
}

/// `interval_to_secs`, or `None` where the number of seconds does not fit in a
/// `u64`.
pub fn checked_interval_to_secs(interval: &str) -> (r: Option<u64>)
    ensures
        interval_secs(interval@) <= u64::MAX ==> r == Some(interval_secs(interval@) as u64),
        interval_secs(interval@) > u64::MAX ==> r is None,
{
    let (n, unit) = interval_parts(interval);
    n.checked_mul(unit)
}

/// `parse_unsigned` for `usize`.
pub open spec fn parse_usize(s: Seq<char>) -> Option<int> {
    parse_unsigned(s, usize::MAX as int)
}

/// Minutes in a binary-window interval: "1d" is 1440; "<n>m" is n minutes and
/// "<n>h" is n hours (one trailing unit letter removed); anything else is 5.
pub open spec fn interval_minutes(interval: Seq<char>) -> int {
    let body = interval.subrange(0, interval.len() - 1);
    if interval == "1d"@ {
        1440
    } else if has_suffix(interval, "m"@) && parse_usize(body) is Some {
        parse_usize(body)->0
    } else if has_suffix(interval, "h"@) && parse_usize(body) is Some {
        parse_usize(body)->0 * 60
    } else {
        5
    }
}

/// An hour or minute count names that many hours or minutes: for digits `b`
/// that read as a `usize` `n`, `<b>h` is `n * 60` minutes and `<b>m` is `n`.
pub proof fn law_unit_intervals(b: Seq<char>)
    requires
        parse_usize(b) is Some,
    ensures
        interval_minutes(b + "h"@) == parse_usize(b)->0 * 60,
        interval_minutes(b + "m"@) == parse_usize(b)->0,
{
    reveal_strlit("h");
    reveal_strlit("m");
    reveal_strlit("1d");
    let h = b + "h"@;
    let m = b + "m"@;
    assert(h.subrange(0, h.len() - 1) =~= b);
    assert(m.subrange(0, m.len() - 1) =~= b);
    assert(h.subrange(h.len() - 1, h.len() as int) =~= "h"@);
    assert(m.subrange(m.len() - 1, m.len() as int) =~= "m"@);
    assert(h != "1d"@) by {
        assert(h[h.len() - 1] == 'h');
        if h == "1d"@ {
            assert("1d"@[1] == 'd');
        }
    }
    assert(m != "1d"@) by {
        assert(m[m.len() - 1] == 'm');
        if m == "1d"@ {
            assert("1d"@[1] == 'd');
        }
    }
}

/// Convert an interval string to minutes (the binary window size).
pub fn parse_interval_to_minutes(interval: &str) -> (r: usize)
    requires
        interval_minutes(interval@) <= usize::MAX,
    ensures
        r == interval_minutes(interval@),
        forall|b: Seq<char>|
            #![trigger parse_usize(b)]
            interval@ == b + "h"@ && parse_usize(b) is Some ==> r == parse_usize(b)->0 * 60,
        forall|b: Seq<char>|
            #![trigger parse_usize(b)]
            interval@ == b + "m"@ && parse_usize(b) is Some ==> r == parse_usize(b)->0,
{
    proof {
        reveal_strlit("m");
        reveal_strlit("h");
        assert forall|b: Seq<char>|
            #![trigger parse_usize(b)]
            interval@ == b + "h"@ && parse_usize(b) is Some implies interval_minutes(interval@) == parse_usize(b)->0
                * 60 by {
            law_unit_intervals(b);
        }
        assert forall|b: Seq<char>|
            #![trigger parse_usize(b)]
            interval@ == b + "m"@ && parse_usize(b) is Some implies interval_minutes(interval@) == parse_usize(b)->0 by {
            law_unit_intervals(b);
        }
    }
    let s = chars_of(interval);
    if same_as(&s, "1d") {
        return 1440;
    }
    if s.len() == 0 {
        return 5;
    }
    let mut body: Vec<char> = Vec::new();
    let mut i: usize = 0;
    while i + 1 < s.len()
        invariant
            s.len() > 0,
            i < s.len(),
            body@ == s@.subrange(0, i as int),
        decreases s.len() - i,
    {
        body.push(s[i]);
        i = i + 1;
    }
    assert(body@ == interval@.subrange(0, interval@.len() - 1));
    let last = s[s.len() - 1];
    assert(s@.subrange(s@.len() - 1, s@.len() as int) =~= seq![last]);
    assert("m"@ =~= seq!['m']);
    assert("h"@ =~= seq!['h']);
    proof {
        if has_suffix(s@, "m"@) {
            assert(seq![last][0] == seq!['m'][0]);
        }
        if has_suffix(s@, "h"@) {
            assert(seq![last][0] == seq!['h'][0]);
        }
    }
    let n = parse_unsigned_chars(&body, usize::MAX as u64);
    match n {
        Some(v) => {
            if last == 'm' {
                v as usize
            } else if last == 'h' {
                (v as usize) * 60
            } else {
                5
            }
        },
        None => 5,
    }
}

/// Polymarket price-history fidelity (minutes) for an interval: 1m, 5m, 15m,
/// 1h, 4h and 1d map to their length in minutes; anything else to 60.
pub open spec fn fidelity_minutes(interval: Seq<char>) -> int {
    if interval == "1m"@ {
        1
    } else if interval == "5m"@ {
        5
    } else if interval == "15m"@ {
        15
    } else if interval == "1h"@ {
        60
    } else if interval == "4h"@ {
        240
    } else if interval == "1d"@ {
        1440
    } else {
        60
    }
}

/// The `fidelity` parameter of a Polymarket price-history request.
pub fn polymarket_fidelity(interval: &str) -> (r: i64)
    ensures
        r == fidelity_minutes(interval@),
{
    let s = chars_of(interval);
    if same_as(&s, "1m") {
        1
    } else if same_as(&s, "5m") {
        5
    } else if same_as(&s, "15m") {
        15
    } else if same_as(&s, "1h") {
        60
    } else if same_as(&s, "4h") {
        240
    } else if same_as(&s, "1d") {
        1440
    } else {
        60
    }
}

/// `x` held within `[lo, hi]`.
pub open spec fn clamp_int(x: int, lo: int, hi: int) -> int {
    if x < lo {
        lo
    } else if x > hi {
        hi
    } else {
        x
    }
}

/// Warm-up candle count of a crypto runner: one day's worth of candles of the
/// interval (at least 60 s long) per warm-up day (at least one day), held
/// within 100..=1000.
pub open spec fn crypto_warmup(interval_secs: int, warmup_days: int) -> int {
    let per_day = 86400int / (if interval_secs < 60 { 60int } else { interval_secs });
    let days = if warmup_days < 1 { 1int } else { warmup_days };
    clamp_int(days * per_day, 100, 1000)
}

/// Number of warm-up candles a crypto runner fetches before trading.
pub fn crypto_warmup_limit(interval_secs: u64, warmup_days: u32) -> (r: usize)
    ensures
        r == crypto_warmup(interval_secs as int, warmup_days as int),
        100 <= r <= 1000,
{
    let secs: u64 = if interval_secs < 60 {
        60
    } else {
        interval_secs
    };
    let per_day: u64 = 86400 / secs;
    let days: u64 = if warmup_days < 1 {
        1
    } else {
        warmup_days as u64
    };
    assert(per_day <= 1440) by (nonlinear_arith)
        requires
            per_day == 86400u64 / secs,
            secs >= 60,
    ;
    assert(days * per_day <= 4294967295 * 1440) by (nonlinear_arith)
        requires
            days <= 4294967295,
            per_day <= 1440,
    ;
    let n: u64 = days * per_day;
    if n < 100 {
        100
    } else if n > 1000 {
        1000
    } else {
        n as usize
    }
}

/// Warm-up 1m candle count of a Polymarket binary runner: 1440 per warm-up day
/// (at least one day), held within 200..=1000.
pub open spec fn polymarket_warmup(warmup_days: int) -> int {
    let days = if warmup_days < 1 { 1int } else { warmup_days };
    clamp_int(days * 1440, 200, 1000)
}

/// Number of warm-up 1m candles a Polymarket binary runner fetches.
pub fn polymarket_warmup_limit(warmup_days: u32) -> (r: usize)
    ensures
        r == polymarket_warmup(warmup_days as int),
        200 <= r <= 1000,
{
    // One day of 1m candles (1440) already exceeds the 1000-candle ceiling.
    1000
}

} // verus!
