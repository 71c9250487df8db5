//! Settling binary bets: whether a bet won, how its trade is labelled,
//! which orders count as filled for a window, and how trades found on chain
//! are attributed to windows and sides.
use vstd::prelude::*;
use crate::text::{chars_of, contains, has_infix, has_prefix, starts_with};
use crate::timeline::{sort_by_time, stably_sorted, TimedEvent};

verus! {

/// A signal of the live runner won when it bet up (`yes…`) and the window
/// went up, or bet down (`no…`) and it did not.
pub open spec fn signal_won(signal: Seq<char>, went_up: bool) -> bool {
    (has_prefix(signal, "yes"@) && went_up) || (has_prefix(signal, "no"@) && !went_up)
}

/// Whether the signal `signal` won in a window that went up (`went_up`).
pub fn bet_won(signal: &str, went_up: bool) -> (r: bool)
    ensures
        r == signal_won(signal@, went_up),
{
    let s = chars_of(signal);
    (starts_with(&s, &chars_of("yes")) && went_up) || (starts_with(&s, &chars_of("no")) && !went_up)
}

/// The position a signal held: `YES` for a `yes…` signal, `NO` otherwise.
pub fn position_label(signal: &str) -> (r: &'static str)
    ensures
        r@ == (if has_prefix(signal@, "yes"@) { "YES"@ } else { "NO"@ }),
{
    let s = chars_of(signal);
    if starts_with(&s, &chars_of("yes")) {
        "YES"
    } else {
        "NO"
    }
}

/// What settling reads of an order: its window, its status and its id.
pub struct OrderBrief {
    pub window_ts: i64,
    pub status: String,
    pub order_id: String,
}

/// An order is a fill of the window `window`: it belongs to it and was
/// matched on the book, or it is a paper order (id `paper-…`).
pub open spec fn filled_in(o: OrderBrief, window: i64) -> bool {
    o.window_ts == window && (o.status@ == "MATCHED"@ || has_prefix(o.order_id@, "paper-"@))
}

/// Whether some order filled in the window `window`; a window without one
/// is not counted as a trade.
pub fn window_has_fill(orders: &Vec<OrderBrief>, window: i64) -> (r: bool)
    ensures
        r == exists|i: int| 0 <= i < orders@.len() && filled_in(#[trigger] orders@[i], window),
{
    let matched = "MATCHED".to_owned();
    let paper = chars_of("paper-");
    let mut i: usize = 0;
    while i < orders.len()
        invariant
            i <= orders@.len(),
            matched@ == "MATCHED"@,
            paper@ == "paper-"@,
            forall|j: int| 0 <= j < i ==> !filled_in(#[trigger] orders@[j], window),
        decreases orders@.len() - i,
    {
        let o = &orders[i];
        if o.window_ts == window && (o.status == matched || starts_with(&chars_of(o.order_id.as_str()), &paper)) {
            assert(filled_in(orders@[i as int], window));
            return true;
        }
        i = i + 1;
    }
    false
}

/// The bet of a binary backtest opened at candle `entry_idx` is due to
/// resolve at candle `i`: a whole window of candles has passed.
pub fn bet_expired(i: usize, entry_idx: usize, window_candles: usize) -> (r: bool)
    ensures
        r == ((if i >= entry_idx { i - entry_idx } else { 0 }) >= window_candles),
{
    let elapsed: usize = if i >= entry_idx { i - entry_idx } else { 0 };
    elapsed >= window_candles
}

/// A bet of the binary backtest won: it bet up and the price went up, or it
/// bet down and the price did not.
pub fn binary_bet_won(direction: i8, went_up: bool) -> (r: bool)
    ensures
        r == ((direction > 0 && went_up) || (direction < 0 && !went_up)),
{
    (direction > 0 && went_up) || (direction < 0 && !went_up)
}

/// The label of a resolved binary trade: its side and whether it won.
pub fn binary_trade_label(bet_up: bool, won: bool) -> (r: &'static str)
    ensures
        r@ == (if bet_up {
            if won { "yes_win"@ } else { "yes_loss"@ }
        } else {
            if won { "no_win"@ } else { "no_loss"@ }
        }),
{
    if bet_up {
        if won {
            "yes_win"
        } else {
            "yes_loss"
        }
    } else {
        if won {
            "no_win"
        } else {
            "no_loss"
        }
    }
}

/// The side of a trade found on chain from its (lower-cased) outcome: `yes`
/// when it names up or yes, `no` otherwise.
pub fn onchain_side(outcome_lower: &str) -> (r: &'static str)
    ensures
        r@ == (if has_infix(outcome_lower@, "up"@) || has_infix(outcome_lower@, "yes"@) { "yes"@ } else { "no"@ }),
{
    let o = chars_of(outcome_lower);
    if contains(&o, &chars_of("up")) || contains(&o, &chars_of("yes")) {
        "yes"
    } else {
        "no"
    }
}

/// The 5-minute window a trade found on chain at `ts` (seconds) is put in.
pub fn onchain_window(ts: i64) -> (r: i64)
    ensures
        r == ts - crate::windows::rem_trunc(ts as int, 300),
{
    ts - ts % 300
}


/// A live counter after an update: the counter given, except that a given
/// zero never replaces a positive count already kept; the kept count when
/// none is given; zero when nothing is kept.
pub open spec fn merged_count(given: Option<u32>, kept: Option<u32>) -> u32 {
    match kept {
        Some(k) => match given {
            Some(g) => if g == 0 && k > 0 { k } else { g },
            None => k,
        },
        None => match given {
            Some(g) => g,
            None => 0,
        },
    }
}

/// Merges an updated live counter with the one kept (see `merged_count`).
pub fn merge_count(given: Option<u32>, kept: Option<u32>) -> (r: u32)
    ensures
        r == merged_count(given, kept),
{
    match kept {
        Some(k) => match given {
            Some(g) => if g == 0 && k > 0 {
                k
            } else {
                g
            },
            None => k,
        },
        None => match given {
            Some(g) => g,
            None => 0,
        },
    }
}

/// The live order list after an update: the list given, except that a given
/// empty list never replaces a non-empty list already kept; the kept list
/// when none is given; empty when nothing is kept.
pub fn merge_orders<T>(given: Option<Vec<T>>, kept: Option<Vec<T>>) -> (r: Vec<T>)
    ensures
        r@ == (match kept {
            Some(k) => match given {
                Some(g) => if g@.len() == 0 && k@.len() > 0 { k@ } else { g@ },
                None => k@,
            },
            None => match given {
                Some(g) => g@,
                None => Seq::empty(),
            },
        }),
{
    match kept {
        Some(k) => match given {
            Some(g) => if g.len() == 0 && k.len() > 0 {
                k
            } else {
                g
            },
            None => k,
        },
        None => match given {
            Some(g) => g,
            None => Vec::new(),
        },
    }
}

/// The signal a runner shows last: the one given, else the side of the last
/// backtest trade, else `flat`.
pub fn last_signal(given: Option<String>, last_trade_side: Option<String>) -> (r: String)
    ensures
        r@ == (match given {
            Some(g) => g@,
            None => match last_trade_side {
                Some(t) => t@,
                None => "flat"@,
            },
        }),
{
    match given {
        Some(g) => g,
        None => match last_trade_side {
            Some(t) => t,
            None => "flat".to_owned(),
        },
    }
}

/// An update never loses accumulated counts: once a positive count is kept,
/// a zero given (or none) leaves it in place.
pub proof fn law_counts_survive_resets(kept: u32)
    requires
        kept > 0,
    ensures
        merged_count(Some(0), Some(kept)) == kept,
        merged_count(None, Some(kept)) == kept,
{
}


/// An order won on the official resolution: a `yes…` order when YES won,
/// any other when NO won.
pub fn order_won(side: &str, yes_won: bool) -> (r: bool)
    ensures
        r == (if has_prefix(side@, "yes"@) { yes_won } else { !yes_won }),
{
    if starts_with(&chars_of(side), &chars_of("yes")) {
        yes_won
    } else {
        !yes_won
    }
}

/// The most provisional orders the resolution sweep settles in one pass.
pub const SWEEP_BATCH: usize = 400;

/// The orders the resolution sweep looks at in one pass, each stamped with
/// its window: the oldest windows first (orders of one window in their
/// given order), at most `SWEEP_BATCH` of them.
pub fn sweep_batch<E>(candidates: Vec<TimedEvent<E>>) -> (r: Vec<TimedEvent<E>>)
    ensures
        exists|sorted: Seq<TimedEvent<E>>, pos: Seq<int>| stably_sorted(candidates@, sorted, pos)
            && r@ == sorted.take(if sorted.len() > SWEEP_BATCH { SWEEP_BATCH as int } else { sorted.len() as int }),
{
    let mut sorted = sort_by_time(candidates);
    let ghost all = sorted@;
    sorted.truncate(SWEEP_BATCH);
    proof {
        let n = if all.len() > SWEEP_BATCH { SWEEP_BATCH as int } else { all.len() as int };
        assert(sorted@ =~= all.take(n));
    }
    sorted
}

} // verus!
