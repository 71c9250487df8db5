use trader_claw::dates::{
    date_range_ms, date_range_secs, funding_next_start, kline_next_start, latest_funding_time, paging_start,
    poly_next_chunk, DateRangeError, ShortPageRule,
};
use trader_claw::symbols::{looks_like_token_id, needs_market_lookup, short_id};
use trader_claw::tools::brief_of;

#[test]
fn date_range_covers_whole_days() {
    match date_range_ms("2024-01-01", "2024-12-31") {
        Ok((a, b)) => {
            assert_eq!(a, 1_704_067_200_000);
            assert_eq!(b, 1_735_603_200_000 + 86_399_000);
        }
        Err(_) => panic!("valid dates"),
    }
    match date_range_secs("2024-01-01", "2024-01-01") {
        Ok((a, b)) => assert_eq!((a, b), (1_704_067_200, 1_704_067_200 + 86_399)),
        Err(_) => panic!("valid dates"),
    }
    match date_range_ms("1969-12-31", "1970-01-01") {
        Ok((a, b)) => assert_eq!((a, b), (-86_400_000, 86_399_000)),
        Err(_) => panic!("valid dates"),
    }
}

#[test]
fn bad_dates_name_their_end() {
    assert!(matches!(date_range_ms("2024-13-01", "2024-12-31"), Err(DateRangeError::BadFrom(_))));
    assert!(matches!(date_range_ms("nope", "also nope"), Err(DateRangeError::BadFrom(_))));
    assert!(matches!(date_range_ms("2024-01-01", "2024-02-30"), Err(DateRangeError::BadTo(_))));
    assert!(matches!(date_range_secs("2024-01-01", ""), Err(DateRangeError::BadTo(_))));
}

#[test]
fn kline_paging_stops_by_its_rules() {
    assert_eq!(paging_start(0, 10), Some(0));
    assert_eq!(paging_start(10, 10), None);
    assert_eq!(kline_next_start(1_000_000, 0, 1000, 59_000, 1000, ShortPageRule::Page), Some(59_001));
    assert_eq!(kline_next_start(1_000_000, 0, 0, 0, 0, ShortPageRule::Page), None);
    assert_eq!(kline_next_start(1_000_000, 0, 999, 59_000, 2999, ShortPageRule::Page), None);
    assert_eq!(kline_next_start(1_000_000, 3, 999, 59_000, 3999, ShortPageRule::Total), Some(59_001));
    assert_eq!(kline_next_start(1_000_000, 0, 1000, 59_000, 999, ShortPageRule::Total), None);
    assert_eq!(kline_next_start(59_001, 0, 1000, 59_000, 1000, ShortPageRule::Page), None);
    assert_eq!(kline_next_start(1_000_000, 498, 1000, 59_000, 1000, ShortPageRule::Page), Some(59_001));
    assert_eq!(kline_next_start(1_000_000, 499, 1000, 59_000, 1000, ShortPageRule::Page), None);
}

#[test]
fn funding_paging_moves_past_the_latest_time() {
    assert_eq!(latest_funding_time(100, &vec![50, 0, -7]), 100);
    assert_eq!(latest_funding_time(100, &vec![250, 300, 0, 200]), 300);
    assert_eq!(funding_next_start(1000, 300), Some(301));
    assert_eq!(funding_next_start(999, 300), None);
    assert_eq!(funding_next_start(0, 300), None);
}

#[test]
fn polymarket_chunks_cover_the_range() {
    assert_eq!(poly_next_chunk(0, 1_000_000, 1), Some((180_000, 180_001)));
    assert_eq!(poly_next_chunk(900_000, 1_000_000, 1), Some((1_000_000, 1_000_001)));
    assert_eq!(poly_next_chunk(1_000_000, 1_000_000, 60), None);
    assert_eq!(poly_next_chunk(0, 100_000_000, 60), Some((10_800_000, 10_800_001)));
}

#[test]
fn token_ids_and_slugs() {
    assert!(looks_like_token_id("71321045679252212594626385532706912750332728571942532289631379312455583992"));
    assert!(looks_like_token_id("0xabcdef0123456789abcdef"));
    assert!(!looks_like_token_id("12345678901234567890"));
    assert!(!looks_like_token_id("btc-updown-5m-1776214500"));
    assert!(!looks_like_token_id("0xabc"));
    assert!(needs_market_lookup("btc-updown-5m"));
    assert!(needs_market_lookup("1234567890123456789"));
    assert!(!needs_market_lookup("12345678901234567890"));
}

#[test]
fn short_ids_keep_sixteen_bytes() {
    assert_eq!(short_id("71321045679252212594626385"), "7132104567925221");
    assert_eq!(short_id("btc"), "btc");
    assert_eq!(short_id("ééééééééé"), "éééééééé");
}

#[test]
fn runner_briefs_default_to_unknown() {
    let b = brief_of(Some("live"), None);
    assert_eq!((b.mode.as_str(), b.status.as_str()), ("live", "unknown"));
    let b = brief_of(None, Some("running"));
    assert_eq!((b.mode.as_str(), b.status.as_str()), ("unknown", "running"));
}
