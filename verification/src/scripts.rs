//! Strategy-script patching: the `ctx.<method>(` calls of a Rhai strategy are
//! rewritten, in a fixed order, into calls of the engine's registered global
//! functions (`ctx.rsi(14)` becomes `rsi_impl(14)`).
use vstd::prelude::*;
use crate::text::{chars_of, replace_all, replace_all_chars, string_of};

verus! {

/// The text `s` after each rewrite rule `(from, to)` of `rules` has been
/// applied in turn, every occurrence of `from` becoming `to`.
pub open spec fn apply_rules(s: Seq<char>, rules: Seq<(Seq<char>, Seq<char>)>) -> Seq<char>
    decreases rules.len(),
{
    if rules.len() == 0 {
        s
    } else {
        apply_rules(replace_all(s, rules[0].0, rules[0].1), rules.subrange(1, rules.len() as int))
    }
}

/// The rules of the event-driven backtest engine.
pub open spec fn event_rules() -> Seq<(Seq<char>, Seq<char>)> {
    seq![
        ("ctx.rsi("@, "rsi_impl("@),
        ("ctx.ema("@, "ema_impl("@),
        ("ctx.atr("@, "atr_impl("@),
        ("ctx.sma("@, "sma_impl("@),
        ("ctx.macd_hist("@, "macd_hist_impl("@),
        ("ctx.close_at("@, "close_at_impl("@),
        ("ctx.high_at("@, "high_at_impl("@),
        ("ctx.low_at("@, "low_at_impl("@),
        ("ctx.volume_at("@, "volume_at_impl("@),
        ("ctx.set_stop_loss("@, "set_stop_loss_impl("@),
        ("ctx.set_take_profit("@, "set_take_profit_impl("@),
        ("ctx.bb_upper("@, "bb_upper_impl("@),
        ("ctx.bb_lower("@, "bb_lower_impl("@),
        ("ctx.bb_middle("@, "bb_middle_impl("@),
        ("ctx.bb_width("@, "bb_width_impl("@),
        ("ctx.stoch_k("@, "stoch_k_impl("@),
        ("ctx.vwap()"@, "vwap_impl()"@),
        ("ctx.stddev("@, "stddev_impl("@),
        ("ctx.realized_vol("@, "realized_vol_impl("@),
        ("ctx.kc_upper("@, "kc_upper_impl("@),
        ("ctx.kc_lower("@, "kc_lower_impl("@),
        ("ctx.short("@, "short_impl("@),
        ("ctx.buy("@, "buy_impl("@),
        ("ctx.sell("@, "sell_impl("@),
        ("ctx.set("@, "set_impl("@),
        ("ctx.get("@, "get_impl("@),
        ("ctx.log("@, "log_impl("@),
        ("ctx.funding_rate("@, "funding_rate_impl("@),
        ("ctx.funding_rate_apr("@, "funding_rate_apr_impl("@),
        ("ctx.position_at("@, "position_at_impl("@),
        ("ctx.regime()"@, "regime_impl()"@),
        ("ctx.basis_pct("@, "basis_pct_impl("@),
        ("ctx.short_at("@, "short_at_impl("@),
        ("ctx.buy_at("@, "buy_at_impl("@),
        ("ctx.close_at("@, "close_at_impl("@),
    ]
}

/// The rules of the candle backtest engine (`on_candle(ctx)` scripts).
pub open spec fn candle_rules() -> Seq<(Seq<char>, Seq<char>)> {
    seq![
        ("ctx.rsi("@, "rsi_impl("@),
        ("ctx.ema("@, "ema_impl("@),
        ("ctx.atr("@, "atr_impl("@),
        ("ctx.sma("@, "sma_impl("@),
        ("ctx.close_at("@, "close_at_impl("@),
        ("ctx.high_at("@, "high_at_impl("@),
        ("ctx.low_at("@, "low_at_impl("@),
        ("ctx.volume_at("@, "volume_at_impl("@),
        ("ctx.set_stop_loss("@, "set_stop_loss_impl("@),
        ("ctx.set_take_profit("@, "set_take_profit_impl("@),
        ("ctx.bb_upper("@, "bb_upper_impl("@),
        ("ctx.bb_lower("@, "bb_lower_impl("@),
        ("ctx.bb_middle("@, "bb_middle_impl("@),
        ("ctx.bb_width("@, "bb_width_impl("@),
        ("ctx.stoch_k("@, "stoch_k_impl("@),
        ("ctx.vwap()"@, "vwap_impl()"@),
        ("ctx.stddev("@, "stddev_impl("@),
        ("ctx.short("@, "short_impl("@),
        ("ctx.buy("@, "buy_impl("@),
        ("ctx.sell("@, "sell_impl("@),
        ("ctx.set("@, "set_impl("@),
        ("ctx.get("@, "get_impl("@),
        ("ctx.log("@, "log_impl("@),
    ]
}

/// The rules of the Polymarket binary backtest engine, where `ctx.short(` is a
/// bet on NO like `ctx.sell(`.
pub open spec fn binary_rules() -> Seq<(Seq<char>, Seq<char>)> {
    seq![
        ("ctx.rsi("@, "rsi_impl("@),
        ("ctx.ema("@, "ema_impl("@),
        ("ctx.atr("@, "atr_impl("@),
        ("ctx.sma("@, "sma_impl("@),
        ("ctx.close_at("@, "close_at_impl("@),
        ("ctx.high_at("@, "high_at_impl("@),
        ("ctx.low_at("@, "low_at_impl("@),
        ("ctx.volume_at("@, "volume_at_impl("@),
        ("ctx.set_stop_loss("@, "set_stop_loss_impl("@),
        ("ctx.set_take_profit("@, "set_take_profit_impl("@),
        ("ctx.buy("@, "buy_impl("@),
        ("ctx.sell("@, "sell_impl("@),
        ("ctx.short("@, "sell_impl("@),
        ("ctx.set("@, "set_impl("@),
        ("ctx.get("@, "get_impl("@),
        ("ctx.log("@, "log_impl("@),
    ]
}

/// The rules of the live 1-Hz tick runner (`on_tick(ctx)` scripts).
pub open spec fn tick_rules() -> Seq<(Seq<char>, Seq<char>)> {
    seq![
        ("ctx.bet_yes("@, "bet_yes_impl("@),
        ("ctx.bet_no("@, "bet_no_impl("@),
        ("ctx.set("@, "set_impl("@),
        ("ctx.get("@, "get_impl("@),
    ]
}

/// The view of a list of rewrite rules.
pub open spec fn rules_view(rules: Seq<(Vec<char>, Vec<char>)>) -> Seq<(Seq<char>, Seq<char>)> {
    rules.map_values(|r: (Vec<char>, Vec<char>)| (r.0@, r.1@))
}

/// Appends the rule `(from, to)` to `rules`.
fn add_rule(rules: &mut Vec<(Vec<char>, Vec<char>)>, from: &str, to: &str)
    ensures
        rules_view(final(rules)@) == rules_view(old(rules)@).push((from@, to@)),
{
    rules.push((chars_of(from), chars_of(to)));
    assert(rules_view(rules@) =~= rules_view(old(rules)@).push((from@, to@)));
}

/// Applies the rewrite rules in order to `script` (a rule with an empty
/// pattern changes nothing).
fn apply_rule_list(script: &str, rules: &Vec<(Vec<char>, Vec<char>)>) -> (r: String)
    ensures
        r@ == apply_rules(script@, rules_view(rules@)),
{
    let mut cur = chars_of(script);
    let mut i: usize = 0;
    assert(rules_view(rules@).subrange(0, rules@.len() as int) == rules_view(rules@));
    while i < rules.len()
        invariant
            i <= rules@.len(),
            apply_rules(script@, rules_view(rules@)) == apply_rules(
                cur@,
                rules_view(rules@).subrange(i as int, rules@.len() as int),
            ),
        decreases rules.len() - i,
    {
        proof {
            let rest = rules_view(rules@).subrange(i as int, rules@.len() as int);
            assert(rest[0] == (rules@[i as int].0@, rules@[i as int].1@));
            assert(rest.subrange(1, rest.len() as int) == rules_view(rules@).subrange(
                i + 1,
                rules@.len() as int,
            ));
        }
        if rules[i].0.len() > 0 {
            cur = replace_all_chars(&cur, &rules[i].0, &rules[i].1);
        }
        i = i + 1;
    }
    assert(rules_view(rules@).subrange(rules@.len() as int, rules@.len() as int) =~= Seq::<
        (Seq<char>, Seq<char>),
    >::empty());
    string_of(&cur)
}

/// Rewrites `ctx.<method>(` calls of an event-driven strategy script into the
/// engine's global function names (see `event_rules`).
pub fn patch_script(script: &str) -> (r: String)
    ensures
        r@ == apply_rules(script@, event_rules()),
{
    let mut rules: Vec<(Vec<char>, Vec<char>)> = Vec::new();
    add_rule(&mut rules, "ctx.rsi(", "rsi_impl(");
    add_rule(&mut rules, "ctx.ema(", "ema_impl(");
    add_rule(&mut rules, "ctx.atr(", "atr_impl(");
    add_rule(&mut rules, "ctx.sma(", "sma_impl(");
    add_rule(&mut rules, "ctx.macd_hist(", "macd_hist_impl(");
    add_rule(&mut rules, "ctx.close_at(", "close_at_impl(");
    add_rule(&mut rules, "ctx.high_at(", "high_at_impl(");
    add_rule(&mut rules, "ctx.low_at(", "low_at_impl(");
    add_rule(&mut rules, "ctx.volume_at(", "volume_at_impl(");
    add_rule(&mut rules, "ctx.set_stop_loss(", "set_stop_loss_impl(");
    add_rule(&mut rules, "ctx.set_take_profit(", "set_take_profit_impl(");
    add_rule(&mut rules, "ctx.bb_upper(", "bb_upper_impl(");
    add_rule(&mut rules, "ctx.bb_lower(", "bb_lower_impl(");
    add_rule(&mut rules, "ctx.bb_middle(", "bb_middle_impl(");
    add_rule(&mut rules, "ctx.bb_width(", "bb_width_impl(");
    add_rule(&mut rules, "ctx.stoch_k(", "stoch_k_impl(");
    add_rule(&mut rules, "ctx.vwap()", "vwap_impl()");
    add_rule(&mut rules, "ctx.stddev(", "stddev_impl(");
    add_rule(&mut rules, "ctx.realized_vol(", "realized_vol_impl(");
    add_rule(&mut rules, "ctx.kc_upper(", "kc_upper_impl(");
    add_rule(&mut rules, "ctx.kc_lower(", "kc_lower_impl(");
    add_rule(&mut rules, "ctx.short(", "short_impl(");
    add_rule(&mut rules, "ctx.buy(", "buy_impl(");
    add_rule(&mut rules, "ctx.sell(", "sell_impl(");
    add_rule(&mut rules, "ctx.set(", "set_impl(");
    add_rule(&mut rules, "ctx.get(", "get_impl(");
    add_rule(&mut rules, "ctx.log(", "log_impl(");
    add_rule(&mut rules, "ctx.funding_rate(", "funding_rate_impl(");
    add_rule(&mut rules, "ctx.funding_rate_apr(", "funding_rate_apr_impl(");
    add_rule(&mut rules, "ctx.position_at(", "position_at_impl(");
    add_rule(&mut rules, "ctx.regime()", "regime_impl()");
    add_rule(&mut rules, "ctx.basis_pct(", "basis_pct_impl(");
    add_rule(&mut rules, "ctx.short_at(", "short_at_impl(");
    add_rule(&mut rules, "ctx.buy_at(", "buy_at_impl(");
    add_rule(&mut rules, "ctx.close_at(", "close_at_impl(");
    assert(rules_view(rules@) =~= event_rules());
    apply_rule_list(script, &rules)
}

/// Rewrites the `ctx.<method>(` calls of an `on_candle(ctx)` script for the
/// candle backtest engine (see `candle_rules`).
pub fn patch_candle_script(script: &str) -> (r: String)
    ensures
        r@ == apply_rules(script@, candle_rules()),
{
    let mut rules: Vec<(Vec<char>, Vec<char>)> = Vec::new();
    add_rule(&mut rules, "ctx.rsi(", "rsi_impl(");
    add_rule(&mut rules, "ctx.ema(", "ema_impl(");
    add_rule(&mut rules, "ctx.atr(", "atr_impl(");
    add_rule(&mut rules, "ctx.sma(", "sma_impl(");
    add_rule(&mut rules, "ctx.close_at(", "close_at_impl(");
    add_rule(&mut rules, "ctx.high_at(", "high_at_impl(");
    add_rule(&mut rules, "ctx.low_at(", "low_at_impl(");
    add_rule(&mut rules, "ctx.volume_at(", "volume_at_impl(");
    add_rule(&mut rules, "ctx.set_stop_loss(", "set_stop_loss_impl(");
    add_rule(&mut rules, "ctx.set_take_profit(", "set_take_profit_impl(");
    add_rule(&mut rules, "ctx.bb_upper(", "bb_upper_impl(");
    add_rule(&mut rules, "ctx.bb_lower(", "bb_lower_impl(");
    add_rule(&mut rules, "ctx.bb_middle(", "bb_middle_impl(");
    add_rule(&mut rules, "ctx.bb_width(", "bb_width_impl(");
    add_rule(&mut rules, "ctx.stoch_k(", "stoch_k_impl(");
    add_rule(&mut rules, "ctx.vwap()", "vwap_impl()");
    add_rule(&mut rules, "ctx.stddev(", "stddev_impl(");
    add_rule(&mut rules, "ctx.short(", "short_impl(");
    add_rule(&mut rules, "ctx.buy(", "buy_impl(");
    add_rule(&mut rules, "ctx.sell(", "sell_impl(");
    add_rule(&mut rules, "ctx.set(", "set_impl(");
    add_rule(&mut rules, "ctx.get(", "get_impl(");
    add_rule(&mut rules, "ctx.log(", "log_impl(");
    assert(rules_view(rules@) =~= candle_rules());
    apply_rule_list(script, &rules)
}

/// Rewrites the `ctx.<method>(` calls of an `on_candle(ctx)` script for the
/// Polymarket binary backtest engine (see `binary_rules`).
pub fn patch_binary_script(script: &str) -> (r: String)
    ensures
        r@ == apply_rules(script@, binary_rules()),
{
    let mut rules: Vec<(Vec<char>, Vec<char>)> = Vec::new();
    add_rule(&mut rules, "ctx.rsi(", "rsi_impl(");
    add_rule(&mut rules, "ctx.ema(", "ema_impl(");
    add_rule(&mut rules, "ctx.atr(", "atr_impl(");
    add_rule(&mut rules, "ctx.sma(", "sma_impl(");
    add_rule(&mut rules, "ctx.close_at(", "close_at_impl(");
    add_rule(&mut rules, "ctx.high_at(", "high_at_impl(");
    add_rule(&mut rules, "ctx.low_at(", "low_at_impl(");
    add_rule(&mut rules, "ctx.volume_at(", "volume_at_impl(");
    add_rule(&mut rules, "ctx.set_stop_loss(", "set_stop_loss_impl(");
    add_rule(&mut rules, "ctx.set_take_profit(", "set_take_profit_impl(");
    add_rule(&mut rules, "ctx.buy(", "buy_impl(");
    add_rule(&mut rules, "ctx.sell(", "sell_impl(");
    add_rule(&mut rules, "ctx.short(", "sell_impl(");
    add_rule(&mut rules, "ctx.set(", "set_impl(");
    add_rule(&mut rules, "ctx.get(", "get_impl(");
    add_rule(&mut rules, "ctx.log(", "log_impl(");
    assert(rules_view(rules@) =~= binary_rules());
    apply_rule_list(script, &rules)
}

/// Rewrites the `ctx.<method>(` calls of an `on_tick(ctx)` script for the
/// live tick runner (see `tick_rules`).
pub fn patch_tick_script(script: &str) -> (r: String)
    ensures
        r@ == apply_rules(script@, tick_rules()),
{
    let mut rules: Vec<(Vec<char>, Vec<char>)> = Vec::new();
    add_rule(&mut rules, "ctx.bet_yes(", "bet_yes_impl(");
    add_rule(&mut rules, "ctx.bet_no(", "bet_no_impl(");
    add_rule(&mut rules, "ctx.set(", "set_impl(");
    add_rule(&mut rules, "ctx.get(", "get_impl(");
    assert(rules_view(rules@) =~= tick_rules());
    apply_rule_list(script, &rules)
}

} // verus!
