use trader_claw::binance::{
    account_query, closing_side, find_open_position, order_query, position_query, sign_query, signed_url,
    timestamp_from_clock, timestamp_ms,
};
use trader_claw::symbols::{binance_symbol_for_polymarket, binance_symbol_to_hl_coin, is_binary_side};
use trader_claw::text::decimal_string;

#[test]
fn test_sign_query() {
    let sig = sign_query("symbol=BTCUSDT&side=BUY&type=MARKET&quantity=0.001&timestamp=123456789", "secret");
    assert!(!sig.is_empty());
    assert_eq!(sig.len(), 64);
}

#[test]
fn sign_query_is_the_hmac_sha256_hex_digest() {
    let sig = sign_query("symbol=BTCUSDT&side=BUY&type=MARKET&quantity=0.001&timestamp=123456789", "secret");
    assert_eq!(sig, "fad32640f4542ba530a3edd8091d54ad30dce8e1467db4ef9675234464f6bf33");
    let other = sign_query("The quick brown fox jumps over the lazy dog", "key");
    assert_eq!(other, "f7bc83f430538424b13298e6aa6fb143ef4d59a14946175997479dbc2d1a3cd8");
}

#[test]
fn order_query_lists_the_order_fields() {
    assert_eq!(
        order_query("btcusdt", "BUY", "0.001000", 123456789, false),
        "symbol=BTCUSDT&side=BUY&type=MARKET&quantity=0.001000&timestamp=123456789&recvWindow=5000"
    );
    assert_eq!(
        order_query("ETHUSDT", "SELL", "1.500000", 7, true),
        "symbol=ETHUSDT&side=SELL&type=MARKET&quantity=1.500000&timestamp=7&recvWindow=5000&reduceOnly=true"
    );
}

#[test]
fn position_and_account_queries() {
    assert_eq!(
        position_query("solusdt", 1700000000000),
        "symbol=SOLUSDT&timestamp=1700000000000&recvWindow=5000"
    );
    assert_eq!(account_query(0), "timestamp=0&recvWindow=5000");
}

#[test]
fn signed_url_appends_the_signature() {
    let url = signed_url("/fapi/v2/account", "timestamp=1700000000000&recvWindow=5000", "secret");
    assert_eq!(
        url,
        "https://fapi.binance.com/fapi/v2/account?timestamp=1700000000000&recvWindow=5000&signature=52713c242e41357b33f1eeba15ca7207838d2487182ac9873a8d305ae59b0d8b"
    );
}

#[test]
fn closing_side_reverses_the_position() {
    assert_eq!(closing_side(true), "SELL");
    assert_eq!(closing_side(false), "BUY");
}

#[test]
fn find_open_position_skips_flat_and_other_symbols() {
    let positions = vec![
        ("ETHUSDT".to_string(), true),
        ("BTCUSDT".to_string(), false),
        ("BTCUSDT".to_string(), true),
    ];
    assert_eq!(find_open_position(&positions, "btcusdt"), Some(2));
    assert_eq!(find_open_position(&positions, "solusdt"), None);
}

#[test]
fn timestamp_is_after_2020() {
    assert!(timestamp_ms() > 1_577_836_800_000);
}

#[test]
fn timestamp_from_clock_truncates_or_zeroes() {
    assert_eq!(timestamp_from_clock(Some(1_700_000_000_123)), 1_700_000_000_123);
    assert_eq!(timestamp_from_clock(None), 0);
    assert_eq!(timestamp_from_clock(Some((1u128 << 64) + 7)), 7);
}

#[test]
fn decimal_numerals() {
    assert_eq!(decimal_string(0), "0");
    assert_eq!(decimal_string(9), "9");
    assert_eq!(decimal_string(10), "10");
    assert_eq!(decimal_string(18446744073709551615), "18446744073709551615");
}

#[test]
fn hyperliquid_coin_of_binance_pairs() {
    assert_eq!(binance_symbol_to_hl_coin("BTCUSDT"), "BTC");
    assert_eq!(binance_symbol_to_hl_coin("ETHUSDC"), "ETH");
    assert_eq!(binance_symbol_to_hl_coin("SOLUSD"), "SOL");
    assert_eq!(binance_symbol_to_hl_coin("HYPE"), "HYPE");
}

#[test]
fn binance_pair_of_polymarket_symbols() {
    assert_eq!(binance_symbol_for_polymarket("btcusdt"), "BTCUSDT");
    assert_eq!(binance_symbol_for_polymarket("btc-updown-5m-1748000000"), "BTCUSDT");
    assert_eq!(binance_symbol_for_polymarket("will-eth-go-up"), "ETHUSDT");
    assert_eq!(binance_symbol_for_polymarket("sol-updown-15m"), "SOLUSDT");
    assert_eq!(binance_symbol_for_polymarket("doge"), "DOGEUSDT");
    assert_eq!(binance_symbol_for_polymarket("pepe"), "PEPE");
    assert_eq!(binance_symbol_for_polymarket("ethbtc"), "ETHBTC");
}

#[test]
fn binary_side_labels() {
    assert!(is_binary_side("bet_yes"));
    assert!(is_binary_side("no"));
    assert!(is_binary_side("yes_win"));
    assert!(is_binary_side("no_loss"));
    assert!(!is_binary_side("buy"));
    assert!(!is_binary_side("sell"));
    assert!(!is_binary_side("yesterday"));
}
