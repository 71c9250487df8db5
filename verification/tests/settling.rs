use trader_claw::settlement::{
    last_signal, merge_count, merge_orders, bet_expired, bet_won, binary_bet_won, binary_trade_label, onchain_side, onchain_window, position_label,
    window_has_fill, OrderBrief,
};

fn order(window_ts: i64, status: &str, order_id: &str) -> OrderBrief {
    OrderBrief { window_ts, status: status.to_string(), order_id: order_id.to_string() }
}

#[test]
fn signals_win_in_their_direction() {
    assert!(bet_won("yes", true));
    assert!(bet_won("yes_strong", true));
    assert!(!bet_won("yes", false));
    assert!(bet_won("no", false));
    assert!(!bet_won("no", true));
    assert!(!bet_won("flat", true));
    assert!(!bet_won("flat", false));
    assert_eq!(position_label("yes_1"), "YES");
    assert_eq!(position_label("no"), "NO");
    assert_eq!(position_label("flat"), "NO");
}

#[test]
fn only_filled_orders_count_for_a_window() {
    let orders = vec![order(300, "LIVE", "0x1"), order(600, "MATCHED", "0x2"), order(900, "LIVE", "paper-9")];
    assert!(!window_has_fill(&orders, 300));
    assert!(window_has_fill(&orders, 600));
    assert!(window_has_fill(&orders, 900));
    assert!(!window_has_fill(&orders, 1200));
    assert!(!window_has_fill(&vec![], 300));
}

#[test]
fn binary_backtest_bets() {
    assert!(!bet_expired(4, 0, 5));
    assert!(bet_expired(5, 0, 5));
    assert!(!bet_expired(3, 7, 1));
    assert!(bet_expired(3, 7, 0));
    assert!(binary_bet_won(1, true));
    assert!(binary_bet_won(-1, false));
    assert!(!binary_bet_won(0, true));
    assert!(!binary_bet_won(0, false));
    assert_eq!(binary_trade_label(true, true), "yes_win");
    assert_eq!(binary_trade_label(true, false), "yes_loss");
    assert_eq!(binary_trade_label(false, true), "no_win");
    assert_eq!(binary_trade_label(false, false), "no_loss");
}

#[test]
fn onchain_trades_are_attributed() {
    assert_eq!(onchain_side("up"), "yes");
    assert_eq!(onchain_side("yes"), "yes");
    assert_eq!(onchain_side("down"), "no");
    assert_eq!(onchain_window(1_700_000_123), 1_700_000_100);
    assert_eq!(onchain_window(1_700_000_100), 1_700_000_100);
}

#[test]
fn updates_never_wipe_kept_history() {
    assert_eq!(merge_count(Some(0), Some(4)), 4);
    assert_eq!(merge_count(Some(6), Some(4)), 6);
    assert_eq!(merge_count(None, Some(4)), 4);
    assert_eq!(merge_count(Some(0), Some(0)), 0);
    assert_eq!(merge_count(None, None), 0);
    assert_eq!(merge_count(Some(2), None), 2);
    assert_eq!(merge_orders(Some(Vec::<u8>::new()), Some(vec![1, 2])), vec![1, 2]);
    assert_eq!(merge_orders(Some(vec![3]), Some(vec![1, 2])), vec![3]);
    assert_eq!(merge_orders(None, Some(vec![1])), vec![1]);
    assert_eq!(merge_orders(None::<Vec<u8>>, None), Vec::<u8>::new());
    assert_eq!(last_signal(Some("yes".to_string()), Some("no".to_string())), "yes");
    assert_eq!(last_signal(None, Some("no".to_string())), "no");
    assert_eq!(last_signal(None, None), "flat");
}

use trader_claw::backfill::{cache_file_selected, resolution_of, BackfillTally};

#[test]
fn backfill_selects_cache_files_of_the_series() {
    assert!(cache_file_selected("btc_5m.jsonl", None));
    assert!(cache_file_selected("btc_5m.jsonl", Some("btc_5m")));
    assert!(cache_file_selected("min3_btc_5m.jsonl", Some("btc_5m")));
    assert!(!cache_file_selected("eth_5m.jsonl", Some("btc_5m")));
    assert!(!cache_file_selected("btc_5m.json", None));
    assert!(!cache_file_selected(".jsonl", None));
}

#[test]
fn backfill_tallies_records() {
    assert_eq!(resolution_of(Some(true)).as_deref(), Some("up"));
    assert_eq!(resolution_of(Some(false)).as_deref(), Some("down"));
    assert_eq!(resolution_of(None), None);
    let mut t = BackfillTally::new();
    assert_eq!(t.step(&Some("up".to_string()), Some(Some(false))).as_deref(), Some("down"));
    assert_eq!(t.step(&Some("up".to_string()), Some(Some(true))), None);
    assert_eq!(t.step(&None, Some(None)), None);
    assert_eq!(t.step(&None, None), None);
    assert_eq!(t.step(&None, Some(Some(true))).as_deref(), Some("up"));
    assert_eq!((t.examined, t.changed, t.unchanged, t.unknown), (5, 2, 1, 2));
}

use trader_claw::settlement::{order_won, sweep_batch};
use trader_claw::timeline::TimedEvent;

#[test]
fn official_resolution_settles_orders() {
    assert!(order_won("yes", true));
    assert!(!order_won("yes_x", false));
    assert!(order_won("no", false));
    assert!(order_won("anything", false));
    assert!(!order_won("no", true));
}

#[test]
fn sweep_takes_the_oldest_windows_first() {
    let candidates: Vec<TimedEvent<u32>> = (0..500).map(|i| TimedEvent { ts_ms: 1000 - i as i64, event: i }).collect();
    let batch = sweep_batch(candidates);
    assert_eq!(batch.len(), 400);
    assert_eq!(batch[0].ts_ms, 501);
    assert_eq!(batch[399].ts_ms, 900);
    let few = sweep_batch(vec![TimedEvent { ts_ms: 5, event: 1u32 }, TimedEvent { ts_ms: 5, event: 2u32 }]);
    let events: Vec<u32> = few.into_iter().map(|e| e.event).collect();
    assert_eq!(events, vec![1, 2]);
}
