use trader_claw::runner::{
    default_auto_restart, default_chainlink_interval, default_funding_poll_secs, default_funding_watchlist, default_max_open_pairs,
    backfill_series_id, LiveSizingMode, RunnerConfig, RunnerStatus, SeriesInfo, StoredRunner, StrategyRunnerStore,
};

fn config(id: &str, mode: &str, auto_restart: bool) -> RunnerConfig<u32> {
    RunnerConfig {
        id: id.to_string(),
        name: format!("runner {id}"),
        script: "strategy.rhai".to_string(),
        market_type: "polymarket_binary".to_string(),
        symbol: "BTCUSDT".to_string(),
        interval: "5m".to_string(),
        mode: mode.to_string(),
        auto_restart,
        series_id: None,
        kind: None,
        poly_token_id: None,
        poly_no_token_id: None,
        poly_condition_id: None,
        wallet_address: None,
        settings: 0,
    }
}

fn runner(id: &str, mode: &str, status: &str, auto_restart: bool, started_at: &str) -> StoredRunner<u32, i64> {
    StoredRunner {
        config: config(id, mode, auto_restart),
        status: RunnerStatus {
            id: id.to_string(),
            status: status.to_string(),
            started_at: started_at.to_string(),
            last_tick_at: None,
            next_tick_at: None,
            error: None,
        },
        result: None,
        hidden: false,
    }
}

fn store() -> StrategyRunnerStore<u32, i64> {
    StrategyRunnerStore::new("/tmp/ws".to_string())
}

#[test]
fn defaults_of_a_runner_configuration() {
    assert!(default_auto_restart());
    assert_eq!(default_chainlink_interval(), 5);
    assert_eq!(default_funding_watchlist(), vec!["BTC", "ETH", "SOL", "AVAX"]);
    assert_eq!(default_max_open_pairs(), 4);
    assert_eq!(default_funding_poll_secs(), 60);
    assert!(matches!(LiveSizingMode::default(), LiveSizingMode::Percent));
}

#[test]
fn get_reads_back_what_upsert_stored() {
    let mut s = store();
    s.upsert(runner("a", "paper", "running", true, "2024-01-02"));
    s.upsert(runner("b", "live", "stopped", false, "2024-01-01"));
    assert_eq!(s.get("a").unwrap().status.status, "running");
    s.upsert(runner("a", "live", "error", false, "2024-01-03"));
    let a = s.get("a").unwrap();
    assert_eq!(a.status.status, "error");
    assert_eq!(a.config.mode, "live");
    assert_eq!(s.list().len(), 2);
    assert_eq!(s.get("b").unwrap().config.mode, "live");
    assert!(s.get("c").is_none());
    assert_eq!(s.workspace_dir(), "/tmp/ws");
}

#[test]
fn delete_removes_only_that_runner() {
    let mut s = store();
    s.upsert(runner("a", "paper", "running", true, "1"));
    s.upsert(runner("b", "paper", "running", true, "2"));
    assert!(s.delete("a"));
    assert!(!s.delete("a"));
    assert!(s.get("a").is_none());
    assert!(s.get("b").is_some());
}

#[test]
fn stop_marks_the_runner_stopped() {
    let mut s = store();
    s.upsert(runner("a", "live", "running", true, "1"));
    assert!(s.stop("a"));
    assert_eq!(s.get("a").unwrap().status.status, "stopped");
    assert!(!s.stop("missing"));
}

#[test]
fn list_orders_by_start_time() {
    let mut s = store();
    s.upsert(runner("c", "paper", "running", true, "2024-03-01T00:00:00Z"));
    s.upsert(runner("a", "paper", "running", true, "2024-01-01T00:00:00Z"));
    s.upsert(runner("b", "paper", "running", true, "2024-02-01T00:00:00Z"));
    let ids: Vec<&str> = s.list().iter().map(|r| r.config.id.as_str()).collect();
    assert_eq!(ids, vec!["a", "b", "c"]);
}

#[test]
fn restartable_runners_are_starting_and_allowed() {
    let mut s = store();
    s.upsert(runner("a", "paper", "starting", true, "1"));
    s.upsert(runner("b", "paper", "starting", false, "2"));
    s.upsert(runner("c", "paper", "running", true, "3"));
    let ids: Vec<&str> = s.list_restartable_configs().iter().map(|c| c.id.as_str()).collect();
    assert_eq!(ids, vec!["a"]);
}

#[test]
fn turning_auto_restart_off_stops_a_starting_runner() {
    let mut s = store();
    s.upsert(runner("a", "paper", "starting", true, "1"));
    s.upsert(runner("b", "paper", "running", true, "2"));
    let a = s.set_auto_restart("a", false).unwrap();
    assert!(!a.config.auto_restart);
    assert_eq!(a.status.status, "stopped");
    let b = s.set_auto_restart("b", false).unwrap();
    assert_eq!(b.status.status, "running");
    assert!(s.list_restartable_configs().is_empty());
    assert!(s.set_auto_restart("zz", true).is_none());
    let kept = &s.get("a").unwrap().config;
    let fresh = config("a", "paper", false);
    assert_eq!((kept.name.as_str(), kept.script.as_str(), kept.symbol.as_str()), (fresh.name.as_str(), fresh.script.as_str(), fresh.symbol.as_str()));
}

#[test]
fn hidden_flag_is_set() {
    let mut s = store();
    s.upsert(runner("a", "paper", "running", true, "1"));
    assert!(s.set_hidden("a", true).unwrap().hidden);
    assert!(s.get("a").unwrap().hidden);
    assert!(s.set_hidden("x", true).is_none());
}

#[test]
fn stop_all_live_stops_running_live_runners_only() {
    let mut s = store();
    s.upsert(runner("a", "live", "running", true, "1"));
    s.upsert(runner("b", "paper", "running", true, "2"));
    s.upsert(runner("c", "live", "error", true, "3"));
    s.upsert(runner("d", "live", "running", false, "4"));
    let mut stopped = s.stop_all_live();
    stopped.sort();
    assert_eq!(stopped, vec!["a".to_string(), "d".to_string()]);
    assert_eq!(s.get("a").unwrap().status.status, "stopped");
    assert_eq!(s.get("b").unwrap().status.status, "running");
    assert_eq!(s.get("c").unwrap().status.status, "error");
    assert!(s.stop_all_live().is_empty());
}

#[test]
fn restore_maps_running_runners_to_starting_or_stopped() {
    let mut s = store();
    s.restore(vec![
        runner("a", "live", "running", true, "1"),
        runner("b", "live", "running", false, "2"),
        runner("c", "paper", "starting", true, "3"),
        runner("d", "paper", "error", true, "4"),
        runner("a", "live", "stopped", true, "5"),
    ]);
    assert_eq!(s.get("a").unwrap().status.status, "stopped");
    assert_eq!(s.get("a").unwrap().status.started_at, "5");
    assert_eq!(s.get("b").unwrap().status.status, "stopped");
    assert_eq!(s.get("c").unwrap().status.status, "starting");
    assert_eq!(s.get("d").unwrap().status.status, "error");
    let ids: Vec<&str> = s.list_restartable_configs().iter().map(|c| c.id.as_str()).collect();
    assert_eq!(ids, vec!["c"]);
}

#[test]
fn status_transitions() {
    let mut s = store();
    s.upsert(runner("a", "live", "running", true, "1"));
    assert!(s.set_error("a", "boom"));
    assert_eq!(s.get("a").unwrap().status.status, "error");
    assert_eq!(s.get("a").unwrap().status.error.as_deref(), Some("boom"));
    assert!(s.should_auto_restart("a"));
    assert!(s.mark_auto_restart("a", 2));
    assert_eq!(s.get("a").unwrap().status.status, "starting");
    assert_eq!(s.get("a").unwrap().status.error.as_deref(), Some("Auto-restart 2/5 after error"));
    assert!(!s.should_auto_restart("a"));
    assert!(s.clear_error("a"));
    assert!(s.get("a").unwrap().status.error.is_none());
    assert!(s.set_status_word("a", "running"));
    assert!(s.set_starting("a"));
    assert_eq!(s.get("a").unwrap().status.status, "starting");
    assert!(s.set_mode("a", "paper"));
    assert_eq!(s.get("a").unwrap().config.mode, "paper");
    assert_eq!(s.get("a").unwrap().config.symbol, config("a", "paper", true).symbol);
    assert!(!s.should_auto_restart("nope"));
}

#[test]
fn runner_log_keeps_the_last_thousand_lines() {
    let mut s = store();
    s.upsert(runner("a", "live", "running", true, "1"));
    assert!(s.append_log("a", "first"));
    assert!(s.append_log("a", "second"));
    assert_eq!(s.get("a").unwrap().status.error.as_deref(), Some("first\nsecond"));
    for i in 0..1000 {
        s.append_log("a", &format!("line {i}"));
    }
    let log = s.get("a").unwrap().status.error.clone().unwrap();
    assert_eq!(log.lines().count(), 1000);
    assert!(log.starts_with("line 0\n"));
    assert!(log.ends_with("line 999"));
    assert!(!s.append_log("missing", "x"));
}

#[test]
fn begin_run_keeps_the_previous_result() {
    let mut s = store();
    let mut first = runner("a", "live", "error", true, "1");
    first.result = Some(42);
    first.hidden = true;
    s.upsert(first);
    s.begin_run(config("a", "live", true), "2024-05-01T00:00:00Z".to_string());
    let a = s.get("a").unwrap();
    assert_eq!(a.status.status, "starting");
    assert_eq!(a.status.started_at, "2024-05-01T00:00:00Z");
    assert_eq!(a.result, Some(42));
    assert!(!a.hidden);
    s.begin_run(config("b", "paper", true), "now".to_string());
    assert_eq!(s.get("b").unwrap().result, None);
}

#[test]
fn runner_fields_are_recorded() {
    let mut s = store();
    s.upsert(runner("a", "live", "running", true, "1"));
    assert!(s.set_poly_token_ids("a", "yes-token".to_string(), "no-token".to_string()));
    assert!(s.set_wallet_address("a", "0xabc".to_string()));
    assert!(s.record_result("a", 7, "t1".to_string()));
    let a = s.get("a").unwrap();
    assert_eq!(a.config.poly_token_id.as_deref(), Some("yes-token"));
    assert_eq!(a.config.poly_no_token_id.as_deref(), Some("no-token"));
    assert_eq!(a.config.wallet_address.as_deref(), Some("0xabc"));
    assert_eq!(a.result, Some(7));
    assert_eq!(a.status.last_tick_at.as_deref(), Some("t1"));
    assert!(s.clear_tick_times("a"));
    assert!(s.get("a").unwrap().status.last_tick_at.is_none());
    assert!(!s.record_result("zz", 1, "t".to_string()));
}

#[test]
fn settings_are_replaced_whole() {
    let mut s = store();
    s.upsert(runner("a", "live", "running", true, "1"));
    let a = s.set_settings("a", 9).unwrap();
    assert_eq!(a.config.settings, 9);
    assert_eq!(a.config.mode, "live");
    assert!(s.set_settings("b", 1).is_none());
}

fn series(id: &str, symbol: &str, cadence: &str) -> SeriesInfo {
    SeriesInfo { id: id.to_string(), symbol: symbol.to_string(), cadence: cadence.to_string() }
}

#[test]
fn engine_runners_get_a_builtin_series() {
    let catalogue = vec![series("btc-5m", "btc", "5m"), series("btc-15m", "BTC", "15m"), series("eth-5m", "ETH", "5m")];
    let engine = |symbol: &str, interval: &str, series_id: Option<&str>| {
        let mut c = config("a", "live", true);
        c.kind = Some("arb_binary".to_string());
        c.symbol = symbol.to_string();
        c.interval = interval.to_string();
        c.series_id = series_id.map(|s| s.to_string());
        c
    };
    let mut c = engine(" btc , eth", "15m", None);
    backfill_series_id(&mut c, &catalogue);
    assert_eq!(c.series_id.as_deref(), Some("btc-15m"));
    let mut c = engine("BTC", "", Some(""));
    backfill_series_id(&mut c, &catalogue);
    assert_eq!(c.series_id.as_deref(), Some("btc-5m"));
    let mut c = engine("btc", "1h", None);
    backfill_series_id(&mut c, &catalogue);
    assert_eq!(c.series_id.as_deref(), Some("btc-5m"));
    let mut c = engine("BTCUSDT", "5m", None);
    backfill_series_id(&mut c, &catalogue);
    assert_eq!(c.series_id, None);
    let mut c = engine("eth", "5m", Some("kept"));
    backfill_series_id(&mut c, &catalogue);
    assert_eq!(c.series_id.as_deref(), Some("kept"));
    let mut legacy = config("b", "live", true);
    backfill_series_id(&mut legacy, &catalogue);
    assert_eq!(legacy.series_id, None);
}

#[test]
fn published_results_mark_the_runner_running() {
    let mut s = store();
    s.upsert(runner("a", "live", "starting", true, "1"));
    assert!(s.publish_result("a", 11));
    let a = s.get("a").unwrap();
    assert_eq!(a.result, Some(11));
    assert_eq!(a.status.status, "running");
    assert!(!s.publish_result("b", 1));
}
