use trader_claw::windows::{settled_outcome, streak_limit_setting, window_turn, OutcomeSource, WindowTurn};
use trader_claw::intervals::{
    checked_interval_to_secs, crypto_warmup_limit, interval_to_secs, parse_interval_to_minutes, polymarket_fidelity,
    polymarket_warmup_limit,
};
use trader_claw::timeline::{
    build_timeline, sort_by_time, synthetic_funding_plan, synthetic_funding_timeline, MarketEvent, TimedEvent,
};
use trader_claw::windows::{
    consecutive_losses, loss_streak_tripped, next_restart, tick_window, watchdog_step, window_candle_bounds,
    window_hour_allowed, window_minutes_for, window_position, window_secs_for, window_start, DecisionClock,
    WatchdogAction,
};

#[derive(Debug, Clone, PartialEq)]
enum Ev {
    Candle(f64),
    Funding(&'static str, f64),
}

fn ts_of(e: &TimedEvent<Ev>) -> i64 {
    e.ts_ms
}

#[test]
fn build_timeline_merges_and_sorts() {
    let candles = vec![
        TimedEvent { ts_ms: 1_000_000, event: Ev::Candle(100.5) },
        TimedEvent { ts_ms: 1_060_000, event: Ev::Candle(101.5) },
    ];
    let funding = vec![vec![TimedEvent { ts_ms: 1_030_000, event: Ev::Funding("binance", 0.0001) }]];
    let timeline = build_timeline(candles, funding);
    assert_eq!(timeline.len(), 3);
    assert_eq!(ts_of(&timeline[0]), 1_000_000);
    assert_eq!(ts_of(&timeline[1]), 1_030_000);
    assert_eq!(ts_of(&timeline[2]), 1_060_000);
}

#[test]
fn sort_by_time_is_stable() {
    let events = vec![
        TimedEvent { ts_ms: 5, event: Ev::Candle(1.0) },
        TimedEvent { ts_ms: 1, event: Ev::Candle(2.0) },
        TimedEvent { ts_ms: 5, event: Ev::Funding("a", 3.0) },
        TimedEvent { ts_ms: 1, event: Ev::Funding("b", 4.0) },
    ];
    let sorted = sort_by_time(events);
    let got: Vec<(i64, Ev)> = sorted.into_iter().map(|e| (e.ts_ms, e.event)).collect();
    assert_eq!(
        got,
        vec![
            (1, Ev::Candle(2.0)),
            (1, Ev::Funding("b", 4.0)),
            (5, Ev::Candle(1.0)),
            (5, Ev::Funding("a", 3.0)),
        ]
    );
}

#[test]
fn timeline_puts_candles_before_funding_at_equal_times() {
    let candles = vec![TimedEvent { ts_ms: 60, event: Ev::Candle(1.0) }];
    let funding = vec![
        vec![TimedEvent { ts_ms: 60, event: Ev::Funding("binance", 0.1) }],
        vec![TimedEvent { ts_ms: 0, event: Ev::Funding("hyperliquid", 0.2) }],
    ];
    let t = build_timeline(candles, funding);
    let got: Vec<Ev> = t.into_iter().map(|e| e.event).collect();
    assert_eq!(got, vec![Ev::Funding("hyperliquid", 0.2), Ev::Candle(1.0), Ev::Funding("binance", 0.1)]);
}

#[test]
fn synthetic_funding_schedule() {
    let closes: Vec<i64> = (0..30).map(|i| i * 60_000).collect();
    let plan = synthetic_funding_plan(&closes, 0, 1_200_000, 300_000);
    let got: Vec<(i64, usize, usize)> = plan.iter().map(|p| (p.ts_ms, p.anchor, p.lookback)).collect();
    assert_eq!(got, vec![(0, 0, 0), (300_000, 5, 0), (600_000, 10, 0), (900_000, 15, 3), (1_200_000, 20, 8)]);
    let between = synthetic_funding_plan(&closes, 30_000, 30_000, 1);
    assert_eq!((between[0].anchor, between[0].lookback), (0, 0));
    let before = synthetic_funding_plan(&vec![1_000, 2_000], 0, 0, 10);
    assert_eq!((before[0].anchor, before[0].lookback), (0, 0));
    assert!(synthetic_funding_plan(&vec![5], 0, 100, 10).is_empty());
    assert!(synthetic_funding_plan(&closes, 10, 5, 1).is_empty());
}

fn describe(e: &TimedEvent<MarketEvent<u32, &'static str, i32>>) -> String {
    match &e.event {
        MarketEvent::Candle(c) => format!("{}:candle{}", e.ts_ms, c),
        MarketEvent::Funding { venue, symbol, rate } => format!("{}:{}:{}:{}", e.ts_ms, venue, symbol, rate),
    }
}

#[test]
fn synthetic_funding_merges_one_snapshot_per_venue() {
    let closes: Vec<i64> = vec![0, 60_000, 120_000];
    let plan = synthetic_funding_plan(&closes, 0, 120_000, 60_000);
    let base = vec![
        TimedEvent { ts_ms: 0, event: MarketEvent::Candle(1) },
        TimedEvent { ts_ms: 60_000, event: MarketEvent::Candle(2) },
        TimedEvent { ts_ms: 120_000, event: MarketEvent::Candle(3) },
    ];
    let rates = vec![0, 5, -3];
    let venues = vec!["binance", "hyperliquid"];
    let out = synthetic_funding_timeline(base, &plan, &rates, &venues, "BTCUSDT");
    let got: Vec<String> = out.iter().map(describe).collect();
    assert_eq!(
        got,
        vec![
            "0:candle1", "0:binance:BTCUSDT:0", "0:hyperliquid:BTCUSDT:0",
            "60000:candle2", "60000:binance:BTCUSDT:5", "60000:hyperliquid:BTCUSDT:5",
            "120000:candle3", "120000:binance:BTCUSDT:-3", "120000:hyperliquid:BTCUSDT:-3",
        ]
    );
    let alone = synthetic_funding_timeline(
        vec![TimedEvent { ts_ms: 7, event: MarketEvent::Candle(9) }],
        &vec![],
        &vec![],
        &venues,
        "BTCUSDT",
    );
    assert_eq!(alone.iter().map(describe).collect::<Vec<_>>(), vec!["7:candle9"]);
}

#[test]
fn interval_lengths() {
    assert_eq!(interval_to_secs("5m"), 300);
    assert_eq!(interval_to_secs("30s"), 30);
    assert_eq!(interval_to_secs(" 1H "), 3600);
    assert_eq!(interval_to_secs("1d"), 86400);
    assert_eq!(interval_to_secs("15"), 900);
    assert_eq!(interval_to_secs("xm"), 60);
    assert_eq!(checked_interval_to_secs("4h"), Some(14400));
    assert_eq!(checked_interval_to_secs("18446744073709551615d"), None);
    assert_eq!(parse_interval_to_minutes("15m"), 15);
    assert_eq!(parse_interval_to_minutes("1h"), 60);
    assert_eq!(parse_interval_to_minutes("1d"), 1440);
    assert_eq!(parse_interval_to_minutes("weird"), 5);
    assert_eq!(polymarket_fidelity("4h"), 240);
    assert_eq!(polymarket_fidelity("2m"), 60);
    assert_eq!(crypto_warmup_limit(60, 1), 1000);
    assert_eq!(crypto_warmup_limit(3600, 1), 100);
    assert_eq!(crypto_warmup_limit(900, 3), 288);
    assert_eq!(crypto_warmup_limit(10, 0), 1000);
    assert_eq!(polymarket_warmup_limit(0), 1000);
}

#[test]
fn window_arithmetic() {
    assert_eq!(window_secs_for(30), 60);
    assert_eq!(window_secs_for(300), 300);
    assert_eq!(window_minutes_for(300), 5);
    assert_eq!(window_minutes_for(60), 1);
    assert_eq!(window_start(1_700_000_123, 300), 1_700_000_100);
    assert_eq!(window_position(1_700_000_223, 300), (1_700_000_100, 1_700_000_400, 2));
    assert_eq!(window_start(-7, 5), -5);
}

#[test]
fn tick_window_boundary_closes_the_previous_window() {
    assert_eq!(tick_window(1_700_000_100, 300), (1_699_999_800, 0));
    assert_eq!(tick_window(1_700_000_101, 300), (1_700_000_100, 299));
    assert_eq!(tick_window(1_700_000_399, 300), (1_700_000_100, 1));
}

#[test]
fn hour_gate() {
    assert!(window_hour_allowed(&vec![], 1_700_000_100));
    assert!(window_hour_allowed(&vec![3, 22], 1_700_000_100));
    assert!(!window_hour_allowed(&vec![1, 2], 1_700_000_100));
    assert!(window_hour_allowed(&vec![0], 0));
    assert!(window_hour_allowed(&vec![255], -3600));
}

#[test]
fn loss_streak() {
    assert_eq!(consecutive_losses(&vec![Some(false), Some(true), None, Some(true)]), 2);
    assert_eq!(consecutive_losses(&vec![Some(true), Some(false)]), 0);
    assert_eq!(consecutive_losses(&vec![Some(true), Some(true), Some(true)]), 3);
    assert_eq!(consecutive_losses(&vec![]), 0);
    assert!(loss_streak_tripped(3, Some(3)));
    assert!(!loss_streak_tripped(2, Some(3)));
    assert!(!loss_streak_tripped(10, Some(0)));
    assert!(!loss_streak_tripped(10, None));
}

#[test]
fn decision_clock_fires_once_per_window() {
    let mut c = DecisionClock::new(300, Some(10));
    assert_eq!(c.decision_minute, 3);
    let win: i64 = 1_700_000_100;
    let a = c.on_candle((win + 120) * 1000);
    assert_eq!(a.arm_early_fire_at, Some(win + 230));
    assert_eq!(a.capture_drift_for, Some(win));
    c.drift_captured(win);
    let again = c.on_candle((win + 120) * 1000);
    assert_eq!(again.arm_early_fire_at, None);
    assert_eq!(again.capture_drift_for, None);
    assert!(c.early_fire_due());
    let other = c.on_candle((win + 60) * 1000);
    assert_eq!(other.arm_early_fire_at, None);
    assert!(!c.decide(2, win));
    assert!(c.decide(3, win));
    assert!(!c.decide(3, win));
    assert!(!c.early_fire_due());
    assert_eq!(c.signal_minute_offset(true), 1);
    assert_eq!(c.signal_minute_offset(false), 0);
    let quiet = DecisionClock::new(300, None);
    assert!(!quiet.early_fire_due());
}

#[test]
fn clock_without_early_fire_still_captures_drift() {
    let mut c = DecisionClock::new(900, None);
    assert_eq!(c.decision_minute, 13);
    let win: i64 = 1_700_000_100 - (1_700_000_100 % 900);
    let a = c.on_candle((win + 12 * 60) * 1000);
    assert_eq!(a.arm_early_fire_at, None);
    assert_eq!(a.capture_drift_for, Some(win));
    assert_eq!(c.on_candle(0).capture_drift_for, None);
}

#[test]
fn watchdog_decisions() {
    assert_eq!(watchdog_step(30, false), (WatchdogAction::Nothing, false));
    assert_eq!(watchdog_step(300, false), (WatchdogAction::Warn, true));
    assert_eq!(watchdog_step(400, true), (WatchdogAction::Nothing, true));
    assert_eq!(watchdog_step(600, true), (WatchdogAction::Respawn, false));
}

#[test]
fn auto_restart_attempts() {
    assert_eq!(next_restart(true, 0), Some(1));
    assert_eq!(next_restart(true, 4), Some(5));
    assert_eq!(next_restart(true, 5), None);
    assert_eq!(next_restart(false, 0), None);
}

#[test]
fn settling_candles_of_a_window() {
    let opens: Vec<i64> = vec![0, 60_000, 120_000, 180_000, 240_000, 300_000];
    assert_eq!(window_candle_bounds(&opens, 60, 120), Some((1, 2)));
    assert_eq!(window_candle_bounds(&opens, 400, 60), None);
    assert_eq!(window_candle_bounds(&opens, -1000, 10), None);
}

#[test]
fn window_turn_waits_for_tokens() {
    assert_eq!(window_turn(600, 600, Some("btc-5m"), false), (WindowTurn::Same, 600));
    assert_eq!(window_turn(600, 900, Some("btc-5m"), true), (WindowTurn::Advance, 900));
    assert_eq!(window_turn(600, 900, Some("btc-5m"), false), (WindowTurn::Retry, 600));
    assert_eq!(window_turn(-1, 900, None, false), (WindowTurn::Advance, 900));
}

#[test]
fn outcome_prefers_the_official_resolution() {
    assert_eq!(settled_outcome(Some("btc-5m"), Some(false), Some(true)), (OutcomeSource::Polymarket, Some(false)));
    assert_eq!(settled_outcome(Some("btc-5m"), None, Some(true)), (OutcomeSource::BinanceProvisional, Some(true)));
    assert_eq!(settled_outcome(Some(""), Some(false), Some(true)), (OutcomeSource::Binance, Some(true)));
    assert_eq!(settled_outcome(None, None, None), (OutcomeSource::Binance, None));
    assert_eq!(OutcomeSource::Polymarket.word(), "polymarket");
    assert_eq!(OutcomeSource::BinanceProvisional.word(), "binance_provisional");
    assert_eq!(OutcomeSource::Binance.word(), "binance");
}

#[test]
fn zero_streak_limit_turns_the_guard_off() {
    assert_eq!(streak_limit_setting(0), None);
    assert_eq!(streak_limit_setting(3), Some(3));
}

#[test]
fn unicode_white_space_is_trimmed() {
    assert_eq!(interval_to_secs("\u{3000}5m\u{2028}"), 300);
    assert_eq!(interval_to_secs("\u{85}2h\u{a0}"), 7200);
}
