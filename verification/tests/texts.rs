use trader_claw::lines::{patch_polymarket_creds, rolled_log, split_lines, CredsPatchError};
use trader_claw::paths::{join_path, script_path};
use trader_claw::scripts::{patch_binary_script, patch_candle_script, patch_script, patch_tick_script};
use trader_claw::selector::{pair_counts, pair_key, record_entry, TradeEntry};
use trader_claw::ticks::{keep_last, prune_selected};
use trader_claw::tools::{
    err, is_script_file, list_scripts_result, live_listing, script_description, script_entry, script_not_found,
    tally_runners, AssetSelectorTool, BacktestListScriptsTool, BacktestRunTool, LiveStrategiesListTool, RunnerBrief,
    TickRecorderConfig,
};

fn lines(s: &str) -> Vec<String> {
    let chars: Vec<char> = s.chars().collect();
    split_lines(&chars).into_iter().map(|l| l.into_iter().collect()).collect()
}

#[test]
fn lines_split_like_str_lines() {
    for s in ["", "a", "a\n", "a\r\nb", "\n\nx", "a\rb\n", "end\r", "x\n\r\n"] {
        let expected: Vec<String> = s.lines().map(|l| l.to_string()).collect();
        assert_eq!(lines(s), expected, "input {s:?}");
    }
}

#[test]
fn rolled_log_appends_a_line() {
    assert_eq!(rolled_log("", "hello"), "hello");
    assert_eq!(rolled_log("a\nb", "c"), "a\nb\nc");
    let long: Vec<String> = (0..1000).map(|i| i.to_string()).collect();
    let rolled = rolled_log(&long.join("\n"), "new");
    assert!(rolled.starts_with("1\n2\n"));
    assert!(rolled.ends_with("999\nnew"));
    assert_eq!(rolled.lines().count(), 1000);
}

const CONFIG: &str = "# settings\n[general]\nname = \"bot\"\n\n[polymarket]\napi_key = \"old\"\n  secret = \"s\"\nfunder = \"f\"\n\n[risk]\nmax = 3\n";

#[test]
fn credentials_replace_the_old_ones() {
    let out = patch_polymarket_creds(CONFIG, "K", "S2", "P").unwrap();
    assert_eq!(
        out,
        "# settings\n[general]\nname = \"bot\"\n\n[polymarket]\napi_key = \"K\"\nsecret = \"S2\"\nfunder = \"f\"\n\npassphrase = \"P\"\n[risk]\nmax = 3\n"
    );
}

#[test]
fn credentials_are_added_at_the_end_of_the_file() {
    let out = patch_polymarket_creds("[polymarket]\nfunder = \"f\"", "K", "S", "P").unwrap();
    assert_eq!(out, "[polymarket]\nfunder = \"f\"\napi_key = \"K\"\nsecret = \"S\"\npassphrase = \"P\"");
}

#[test]
fn credentials_need_the_polymarket_section() {
    assert_eq!(patch_polymarket_creds("[general]\nx = 1\n", "K", "S", "P"), Err(CredsPatchError::SectionNotFound));
    assert_eq!(patch_polymarket_creds("", "K", "S", "P"), Err(CredsPatchError::SectionNotFound));
}

#[test]
fn scripts_are_patched_for_each_engine() {
    assert_eq!(patch_script("let r = ctx.rsi(14); ctx.buy(1.0);"), "let r = rsi_impl(14); buy_impl(1.0);");
    assert_eq!(patch_script("ctx.set_stop_loss(0.1); ctx.set(\"k\", 1)"), "set_stop_loss_impl(0.1); set_impl(\"k\", 1)");
    assert_eq!(patch_candle_script("ctx.vwap() + ctx.ema(3)"), "vwap_impl() + ema_impl(3)");
    assert_eq!(patch_binary_script("ctx.short(1)"), "sell_impl(1)");
    assert_eq!(patch_tick_script("ctx.bet_yes(5); ctx.get(\"x\")"), "bet_yes_impl(5); get_impl(\"x\")");
}

fn trade(script: &str, symbol: &str, window_ts: i64, won: bool, pnl: f64) -> TradeEntry<f64> {
    TradeEntry { script: script.to_string(), symbol: symbol.to_string(), window_ts, won, pnl }
}

#[test]
fn record_replaces_the_same_window_and_prunes_old_trades() {
    let now: i64 = 1_750_000_000;
    let entries = vec![
        trade("s.rhai", "BTCUSDT", now - 40 * 86_400, true, 1.0),
        trade("s.rhai", "BTCUSDT", now - 600, false, -1.0),
        trade("s.rhai", "ETHUSDT", now - 600, true, 2.0),
    ];
    let out = record_entry(entries, trade("s.rhai", "BTCUSDT", now - 600, true, 3.0), now);
    let got: Vec<(String, i64, bool)> = out.iter().map(|e| (e.symbol.clone(), e.window_ts, e.won)).collect();
    assert_eq!(got, vec![("ETHUSDT".to_string(), now - 600, true), ("BTCUSDT".to_string(), now - 600, true)]);
    assert_eq!(out[1].pnl, 3.0);
    let before: Vec<(String, i64, bool, f64)> = out.iter().map(|e| (e.symbol.clone(), e.window_ts, e.won, e.pnl)).collect();
    let again = record_entry(out, trade("s.rhai", "BTCUSDT", now - 600, true, 3.0), now);
    let after: Vec<(String, i64, bool, f64)> = again.iter().map(|e| (e.symbol.clone(), e.window_ts, e.won, e.pnl)).collect();
    assert_eq!(after, before);
    let stale = record_entry(vec![], trade("s.rhai", "BTCUSDT", now - 31 * 86_400, true, 3.0), now);
    assert!(stale.is_empty());
}

#[test]
fn record_at_the_smallest_time_keeps_every_trade() {
    let now = i64::MIN + 10;
    let entries = vec![trade("s.rhai", "ETHUSDT", i64::MIN, false, -1.0)];
    let out = record_entry(entries, trade("s.rhai", "BTCUSDT", i64::MIN + 5, true, 2.0), now);
    let got: Vec<(String, i64)> = out.iter().map(|e| (e.symbol.clone(), e.window_ts)).collect();
    assert_eq!(got, vec![("ETHUSDT".to_string(), i64::MIN), ("BTCUSDT".to_string(), i64::MIN + 5)]);
    let again = record_entry(out, trade("s.rhai", "BTCUSDT", i64::MIN + 5, true, 2.0), now);
    assert_eq!(again.len(), 2);
}

#[test]
fn pairs_count_recent_trades_and_wins() {
    let entries = vec![
        trade("a.rhai", "BTCUSDT", 100, true, 1.0),
        trade("b.rhai", "ETHUSDT", 100, false, 1.0),
        trade("a.rhai", "BTCUSDT", 200, false, 1.0),
        trade("a.rhai", "BTCUSDT", 10, true, 1.0),
        trade("a.rhai", "BTCUSDT", 300, true, 1.0),
    ];
    let groups = pair_counts(&entries, 50);
    let got: Vec<(String, usize, usize)> = groups.iter().map(|g| (g.key.clone(), g.trades, g.wins)).collect();
    assert_eq!(got, vec![("a.rhai × BTCUSDT".to_string(), 3, 2), ("b.rhai × ETHUSDT".to_string(), 1, 0)]);
    assert_eq!(pair_key("x", "y"), "x × y");
}

#[test]
fn tick_files_before_the_cutoff_are_pruned() {
    assert!(prune_selected(7, "2024-01-01.jsonl", "2024-01-05"));
    assert!(!prune_selected(7, "2024-01-05.jsonl", "2024-01-05"));
    assert!(!prune_selected(7, "2024-01-09.jsonl", "2024-01-05"));
    assert!(!prune_selected(0, "2024-01-01.jsonl", "2024-01-05"));
    assert!(!prune_selected(7, "2024-01-01.csv", "2024-01-05"));
    assert_eq!(keep_last(vec![1, 2, 3, 4], 2), vec![3, 4]);
    assert_eq!(keep_last(vec![1, 2], 5), vec![1, 2]);
    assert_eq!(keep_last(vec![1, 2], 0), Vec::<i32>::new());
}

#[test]
fn script_listing() {
    assert!(is_script_file("a.rhai"));
    assert!(!is_script_file(".rhai"));
    assert!(!is_script_file("a.rhai.bak"));
    assert_eq!(script_description("// RSI strategy\nfn on_candle(ctx) {}"), "RSI strategy");
    assert_eq!(script_description("//// Doubled  \nx"), "Doubled");
    assert_eq!(script_description("   \nx"), "(no description)");
    assert_eq!(script_description(""), "(no description)");
    let entry = script_entry("a.rhai", "RSI", "/w/scripts/a.rhai");
    assert_eq!(entry, "- a.rhai — RSI (path: /w/scripts/a.rhai)");
    let one: Vec<Vec<char>> = vec![entry.chars().collect()];
    let r = list_scripts_result("/w/scripts", &one);
    assert!(r.success);
    assert_eq!(r.output, "Found 1 script(s) in /w/scripts:\n- a.rhai — RSI (path: /w/scripts/a.rhai)");
    let none = list_scripts_result("/w/scripts", &vec![]);
    assert_eq!(none.output, "No .rhai scripts found in /w/scripts. Use the file_write tool to create one first.");
}

#[test]
fn script_locations() {
    assert_eq!(script_path("/w", "rsi.rhai"), "/w/scripts/rsi.rhai");
    assert_eq!(script_path("/w", "/abs/rsi.rhai"), "/abs/rsi.rhai");
    assert_eq!(script_path("/w", "dir/rsi.rhai"), "dir/rsi.rhai");
    assert_eq!(script_path("/w", "./rsi.rhai"), "./rsi.rhai");
    assert_eq!(script_path("/w", "rsi.rhai/"), "/w/scripts/rsi.rhai/");
    let missing = script_not_found("/w/scripts/x.rhai");
    assert!(!missing.success);
    assert_eq!(
        missing.error.as_deref(),
        Some("Script not found: /w/scripts/x.rhai. Use backtest_list_scripts to see available scripts.")
    );
    assert_eq!(join_path("/w/", "data"), "/w/data");
}

#[test]
fn live_strategy_tally() {
    let rs = vec![
        RunnerBrief { mode: "live".to_string(), status: "running".to_string() },
        RunnerBrief { mode: "paper".to_string(), status: "running".to_string() },
        RunnerBrief { mode: "paper".to_string(), status: "stopped".to_string() },
        RunnerBrief { mode: "unknown".to_string(), status: "error".to_string() },
    ];
    let all = tally_runners(&rs, None, None);
    assert_eq!((all.total, all.live, all.paper, all.running), (4, 1, 2, 2));
    assert_eq!(all.selected, vec![0, 1, 2, 3]);
    let paper = tally_runners(&rs, Some("PAPER"), Some("running"));
    assert_eq!(paper.selected, vec![1]);
    let text = live_listing(&paper, true, &vec!["- [running] p".chars().collect()]);
    assert_eq!(
        text,
        "=== Live Strategies Summary ===\nTotal: 4 | Live (real money): 1 | Paper/Dry-run: 2 | Currently running: 2\n\n- [running] p"
    );
    let empty = tally_runners(&rs, Some("live"), Some("stopped"));
    assert!(empty.selected.is_empty());
    assert!(live_listing(&empty, true, &vec![]).ends_with("\n\nNo strategies match the given filters."));
    assert!(live_listing(&empty, false, &vec![]).ends_with("\n\nNo strategies configured."));
}

#[test]
fn tool_handles_and_paths() {
    let e = err("bad input");
    assert!(!e.success);
    assert_eq!(e.output, "");
    assert_eq!(e.error.as_deref(), Some("bad input"));
    assert_eq!(BacktestListScriptsTool::new("/w".to_string()).workspace_dir(), "/w");
    assert_eq!(BacktestRunTool::new("/w".to_string()).workspace_dir(), "/w");
    assert_eq!(LiveStrategiesListTool::new("/w".to_string()).workspace_dir(), "/w");
    let sel = AssetSelectorTool { workspace_dir: "/w".to_string() };
    assert_eq!(sel.stats_path(), "/w/data/asset_selector_stats.json");
    let cfg = TickRecorderConfig::new("btc_5m", "0xabc", "BTCUSDT", "/w");
    assert_eq!(cfg.output_dir, "/w/data/ticks/btc_5m");
    assert_eq!(cfg.retain_days, 7);
    assert_eq!(cfg.clob_base_url, "https://clob.polymarket.com");
}
