//! Window arithmetic of the binary-market runners: which market window a
//! timestamp falls in, where in it the decision is taken, when an early order
//! fires, which hours may trade, and the clock that decides, event by event,
//! when the runner acts.
use vstd::prelude::*;

verus! {

/// The remainder of `a` divided by `b` as Rust's `%` computes it: it takes the
/// sign of `a`.
pub open spec fn rem_trunc(a: int, b: int) -> int {
    if a >= 0 {
        a % b
    } else {
        -((-a) % b)
    }
}

/// The start of the window of length `w` that holds `ts`.
pub open spec fn window_of(ts: int, w: int) -> int {
    ts - rem_trunc(ts, w)
}

/// The whole minute, counted from the window start, that `ts` falls in.
pub open spec fn minute_in_window(ts: int, w: int) -> int {
    let r = rem_trunc(ts, w);
    if r >= 0 {
        r / 60
    } else {
        -((-r) / 60)
    }
}

/// Window length of a runner: the interval in seconds, at least a minute.
pub fn window_secs_for(interval_secs: u64) -> (r: u64)
    ensures
        r == if interval_secs < 60 { 60 } else { interval_secs },
{
    if interval_secs < 60 {
        60
    } else {
        interval_secs
    }
}

/// Whole minutes in a window of `window_secs` seconds, at least one.
pub fn window_minutes_for(window_secs: u64) -> (r: u64)
    ensures
        r == if window_secs / 60 < 1 { 1 } else { window_secs / 60 },
        r >= 1,
{
    let m = window_secs / 60;
    if m < 1 {
        1
    } else {
        m
    }
}

/// The start of the window of length `w` that holds `ts`.
pub fn window_start(ts: i64, w: i64) -> (r: i64)
    requires
        w > 0,
    ensures
        r == window_of(ts as int, w as int),
{
    ts - ts % w
}

/// Where the second `ts` stands in windows of length `w`: the window start,
/// the next window's start, and the whole minute into the window.
pub fn window_position(ts: i64, w: i64) -> (r: (i64, i64, i64))
    requires
        w > 0,
        window_of(ts as int, w as int) + w <= i64::MAX,
    ensures
        r.0 == window_of(ts as int, w as int),
        r.1 == r.0 + w,
        r.2 == minute_in_window(ts as int, w as int),
{
    let rem = ts % w;
    let win = ts - rem;
    (win, win + w, rem / 60)
}

/// The window a one-second tick belongs to, and the seconds left in it. A
/// tick exactly on a boundary closes the window before it, with no seconds
/// left.
pub open spec fn tick_window_of(now: int, w: int) -> (int, int) {
    let rem = rem_trunc(now, w);
    if rem == 0 {
        (now - w, 0)
    } else {
        (now - rem, w - rem)
    }
}

/// The window of a one-second tick at `now_s` and the seconds left in it.
pub fn tick_window(now_s: i64, window_secs: i64) -> (r: (i64, i64))
    requires
        window_secs > 0,
        now_s - window_secs >= i64::MIN,
        window_secs - rem_trunc(now_s as int, window_secs as int) <= i64::MAX,
    ensures
        r.0 as int == tick_window_of(now_s as int, window_secs as int).0,
        r.1 as int == tick_window_of(now_s as int, window_secs as int).1,
{
    let rem = now_s % window_secs;
    if rem == 0 {
        (now_s - window_secs, 0)
    } else {
        (now_s - rem, window_secs - rem)
    }
}

/// The UTC hour of the day of a timestamp, computed with Rust's `%` and `/`
/// (negative before the epoch).
pub open spec fn utc_hour(ts: int) -> int {
    div_trunc(rem_trunc(ts, 86400), 3600)
}

/// Whether a decision window starting at `window_ts` may trade: no hours
/// listed means every hour may.
pub open spec fn hour_allowed(allowed_hours: Seq<u8>, window_ts: int) -> bool {
    allowed_hours.len() == 0 || allowed_hours.contains(utc_hour(window_ts) as u8)
}

/// Whether the window starting at `window_ts` passes the hour gate.
pub fn window_hour_allowed(allowed_hours: &Vec<u8>, window_ts: i64) -> (r: bool)
    ensures
        r == hour_allowed(allowed_hours@, window_ts as int),
        allowed_hours@.len() == 0 ==> r,
        window_ts >= 0 ==> (r <==> (allowed_hours@.len() == 0 || exists|i: int|
            0 <= i < allowed_hours@.len() && #[trigger] allowed_hours@[i] == (window_ts % 86400) / 3600)),
{
    proof {
        law_hour_gate(allowed_hours@, window_ts as int);
    }
    if allowed_hours.len() == 0 {
        return true;
    }
    let hour = ((window_ts % 86400) / 3600) as u8;
    let mut i: usize = 0;
    while i < allowed_hours.len()
        invariant
            i <= allowed_hours@.len(),
            hour == utc_hour(window_ts as int) as u8,
            forall|j: int| 0 <= j < i ==> allowed_hours@[j] != hour,
        decreases allowed_hours@.len() - i,
    {
        if allowed_hours[i] == hour {
            assert(allowed_hours@[i as int] == hour);
            return true;
        }
        i = i + 1;
    }
    false
}

/// The number of losses at the end of a run of settled trades: `settled`
/// holds one flag per trade in order, `Some(true)` for a settled loss,
/// `Some(false)` for a settled trade that did not lose, `None` for one not
/// settled (which does not break a run).
pub open spec fn trailing_losses(settled: Seq<Option<bool>>) -> nat
    decreases settled.len(),
{
    if settled.len() == 0 {
        0
    } else {
        match settled.last() {
            None => trailing_losses(settled.drop_last()),
            Some(lost) => if lost {
                trailing_losses(settled.drop_last()) + 1
            } else {
                0
            },
        }
    }
}

/// Consecutive settled losses at the end of the trade record.
pub fn consecutive_losses(settled: &Vec<Option<bool>>) -> (r: u32)
    requires
        settled@.len() <= u32::MAX,
    ensures
        r == trailing_losses(settled@),
{
    let mut streak: u32 = 0;
    let mut i: usize = settled.len();
    assert(settled@.take(i as int) =~= settled@);
    while i > 0
        invariant
            i <= settled@.len(),
            settled@.len() <= u32::MAX,
            streak <= settled@.len() - i,
            trailing_losses(settled@) == trailing_losses(settled@.take(i as int)) + streak,
        decreases i,
    {
        let ghost t = settled@.take(i as int);
        assert(t.drop_last() =~= settled@.take(i as int - 1));
        assert(t.last() == settled@[i as int - 1]);
        match settled[i - 1] {
            None => {},
            Some(lost) => {
                if lost {
                    streak = streak + 1;
                } else {
                    return streak;
                }
            },
        }
        i = i - 1;
    }
    assert(settled@.take(0) =~= Seq::<Option<bool>>::empty());
    streak
}

/// Whether the loss-streak guard trips: a positive limit that the streak
/// has reached.
pub fn loss_streak_tripped(streak: u32, max_streak: Option<u32>) -> (r: bool)
    ensures
        r == (max_streak matches Some(m) && m > 0 && streak >= m),
{
    match max_streak {
        Some(m) => m > 0 && streak >= m,
        None => false,
    }
}


/// The loss-streak limit a settings update leaves: the given limit, or none
/// (the guard off) when it is 0.
pub fn streak_limit_setting(given: u32) -> (r: Option<u32>)
    ensures
        r == (if given > 0 { Some(given) } else { None::<u32> }),
{
    if given > 0 {
        Some(given)
    } else {
        None
    }
}

/// What the runner does with the window of the current candle.
#[derive(Clone, Copy, Debug, PartialEq, Eq, Structural)]
pub enum WindowTurn {
    /// Still the window it last moved to: nothing to prepare.
    Same,
    /// A new window whose tokens are ready: the runner moves to it and
    /// settles the previous one.
    Advance,
    /// A new window whose tokens could not be resolved: the runner stays on
    /// its last window, clears the stale tokens and tries again on the next
    /// candle.
    Retry,
}

/// The turn at a candle of window `current_window` when the runner last
/// moved to `last_window`, with tokens resolved for the new window or not;
/// without a series (a market chosen by hand) the tokens are always ready.
pub open spec fn window_turn_of(last_window: int, current_window: int, has_series: bool, resolved: bool) -> WindowTurn {
    if current_window == last_window {
        WindowTurn::Same
    } else if !has_series || resolved {
        WindowTurn::Advance
    } else {
        WindowTurn::Retry
    }
}

/// The window-boundary step of the Polymarket runner: the turn, and the
/// window the runner stands on afterwards, which moves to `current_window`
/// only once its tokens are ready.
pub fn window_turn(last_window: i64, current_window: i64, series_id: Option<&str>, resolved: bool) -> (r: (
    WindowTurn,
    i64,
))
    ensures
        r.0 == window_turn_of(last_window as int, current_window as int, series_id is Some, resolved),
        r.1 == (if r.0 == WindowTurn::Advance { current_window } else { last_window }),
{
    if current_window == last_window {
        (WindowTurn::Same, last_window)
    } else if series_id.is_none() || resolved {
        (WindowTurn::Advance, current_window)
    } else {
        (WindowTurn::Retry, last_window)
    }
}

/// Where the outcome of a finished window comes from.
#[derive(Clone, Copy, Debug, PartialEq, Eq, Structural)]
pub enum OutcomeSource {
    /// Polymarket's own resolution, what the chain paid.
    Polymarket,
    /// Inferred from the Binance candles while Polymarket has not settled;
    /// a monitor upgrades it when the oracle answers.
    BinanceProvisional,
    /// Inferred from the Binance candles, the runner having no series.
    Binance,
}

impl OutcomeSource {
    /// The source's label in the runner's records.
    pub open spec fn label(self) -> Seq<char> {
        match self {
            OutcomeSource::Polymarket => "polymarket"@,
            OutcomeSource::BinanceProvisional => "binance_provisional"@,
            OutcomeSource::Binance => "binance"@,
        }
    }

    /// The source's label: `polymarket`, `binance_provisional` or `binance`.
    pub fn word(&self) -> (s: &'static str)
        ensures
            s@ == self.label(),
    {
        match self {
            OutcomeSource::Polymarket => {
                proof {
                    reveal_strlit("polymarket");
                }
                "polymarket"
            },
            OutcomeSource::BinanceProvisional => {
                proof {
                    reveal_strlit("binance_provisional");
                }
                "binance_provisional"
            },
            OutcomeSource::Binance => {
                proof {
                    reveal_strlit("binance");
                }
                "binance"
            },
        }
    }
}

/// The outcome of a finished window and its source: Polymarket's resolution
/// `official` where the runner has a (non-empty) series and Polymarket has
/// settled; otherwise the Binance inference `inferred`, provisional where a
/// series is still waiting for Polymarket.
pub open spec fn settled_outcome_of(
    series_id: Option<Seq<char>>,
    official: Option<bool>,
    inferred: Option<bool>,
) -> (OutcomeSource, Option<bool>) {
    if series_id matches Some(s) && s.len() > 0 {
        match official {
            Some(up) => (OutcomeSource::Polymarket, Some(up)),
            None => (OutcomeSource::BinanceProvisional, inferred),
        }
    } else {
        (OutcomeSource::Binance, inferred)
    }
}

/// Settles a finished window: prefers Polymarket's resolution, falls back to
/// the Binance inference (see `settled_outcome_of`).
pub fn settled_outcome(series_id: Option<&str>, official: Option<bool>, inferred: Option<bool>) -> (r: (
    OutcomeSource,
    Option<bool>,
))
    ensures
        r == settled_outcome_of(
            match series_id {
                Some(s) => Some(s@),
                None => None,
            },
            official,
            inferred,
        ),
{
    let has_series = match series_id {
        Some(s) => s.unicode_len() > 0,
        None => false,
    };
    if has_series {
        match official {
            Some(up) => (OutcomeSource::Polymarket, Some(up)),
            None => (OutcomeSource::BinanceProvisional, inferred),
        }
    } else {
        (OutcomeSource::Binance, inferred)
    }
}

/// The quotient of `a` by `b` as Rust's `/` computes it: rounded toward zero.
pub open spec fn div_trunc(a: int, b: int) -> int {
    if a >= 0 {
        a / b
    } else {
        -((-a) / b)
    }
}

/// What the runner does on a closed one-minute candle: arm the early-fire
/// timer for the given second, and fetch the token price that the drift
/// signal compares against for the given window.
pub struct CandleActions {
    pub arm_early_fire_at: Option<i64>,
    pub capture_drift_for: Option<i64>,
}

/// The decision timing of a Polymarket binary runner. Windows are named by
/// their start second; -1 names none.
pub struct DecisionClock {
    pub window_secs: i64,
    pub window_minutes: i64,
    pub decision_minute: i64,
    pub early_fire_secs: i64,
    pub last_decision_window: i64,
    pub early_fire_armed_window: i64,
    pub drift_captured_window: i64,
}

/// The largest window length the clock works with (half the `i64` range, so
/// that window arithmetic stays in range).
pub const MAX_WINDOW_SECS: i64 = 4_611_686_018_427_387_903;

impl DecisionClock {
    /// The clock's arithmetic stays in range.
    pub open spec fn wf(&self) -> bool {
        &&& 60 <= self.window_secs <= MAX_WINDOW_SECS
        &&& self.window_minutes == self.window_secs / 60
        &&& self.decision_minute == self.window_minutes - 2
        &&& 0 <= self.early_fire_secs <= u32::MAX
    }

    /// The minute of the window whose candle triggers the decision: the one
    /// before last, so that an order has a minute to fill before the window
    /// resolves.
    pub fn new(window_secs: u64, early_fire_secs: Option<u32>) -> (r: Self)
        requires
            60 <= window_secs <= MAX_WINDOW_SECS,
        ensures
            r.wf(),
            r.window_secs == window_secs,
            r.decision_minute == window_secs / 60 - 2,
            r.early_fire_secs == (match early_fire_secs { Some(e) => e as int, None => 0 }),
            r.last_decision_window == -1,
            r.early_fire_armed_window == -1,
            r.drift_captured_window == -1,
    {
        let w = window_secs as i64;
        let minutes = window_minutes_for(window_secs) as i64;
        let efs: i64 = match early_fire_secs {
            Some(e) => e as i64,
            None => 0,
        };
        DecisionClock {
            window_secs: w,
            window_minutes: minutes,
            decision_minute: minutes - 2,
            early_fire_secs: efs,
            last_decision_window: -1,
            early_fire_armed_window: -1,
            drift_captured_window: -1,
        }
    }

    /// The second at which the early order for window `win` fires:
    /// `early_fire_secs` before the decision candle closes.
    pub open spec fn fire_time(&self, win: int) -> int {
        win + self.decision_minute * 60 + 60 - self.early_fire_secs
    }

    /// A candle opening at `open_ms` (milliseconds) is the one just before
    /// the decision candle of a window not yet decided.
    pub open spec fn pre_decision(&self, open_ms: int) -> bool {
        let ts = div_trunc(open_ms, 1000);
        &&& open_ms != 0
        &&& minute_in_window(ts, self.window_secs as int) == self.decision_minute - 1
        &&& window_of(ts, self.window_secs as int) != self.last_decision_window
    }

    /// Handles a closed candle that opened at `open_ms`: arms the early fire
    /// and asks for the drift price once per window, on the candle before the
    /// decision candle.
    pub fn on_candle(&mut self, open_ms: i64) -> (r: CandleActions)
        requires
            old(self).wf(),
        ensures
            final(self).wf(),
            minute_in_window(div_trunc(open_ms as int, 1000), old(self).window_secs as int) != old(
                self,
            ).decision_minute - 1 ==> r.arm_early_fire_at is None && r.capture_drift_for is None && *final(self)
                == *old(self),
            ({
                let ts = div_trunc(open_ms as int, 1000);
                let win = window_of(ts, old(self).window_secs as int);
                let arm = old(self).early_fire_secs > 0 && old(self).pre_decision(open_ms as int)
                    && win != old(self).early_fire_armed_window;
                let drift = old(self).pre_decision(open_ms as int) && win != old(self).drift_captured_window;
                &&& r.arm_early_fire_at == (if arm { Some(old(self).fire_time(win) as i64) } else { None })
                &&& r.capture_drift_for == (if drift { Some(win as i64) } else { None })
                &&& *final(self) == (DecisionClock {
                    early_fire_armed_window: if arm { win as i64 } else { old(self).early_fire_armed_window },
                    ..*old(self)
                })
            }),
    {
        proof {
            law_only_pre_decision_candle_acts(*old(self), open_ms as int);
        }
        let mut actions = CandleActions { arm_early_fire_at: None, capture_drift_for: None };
        if open_ms == 0 {
            return actions;
        }
        let ts = open_ms / 1000;
        let rem = ts % self.window_secs;
        let win = ts - rem;
        let minute = rem / 60;
        if minute == self.decision_minute - 1 && win != self.last_decision_window {
            if self.early_fire_secs > 0 && win != self.early_fire_armed_window {
                let fire_at = win + self.decision_minute * 60 + 60 - self.early_fire_secs;
                actions.arm_early_fire_at = Some(fire_at);
                self.early_fire_armed_window = win;
            }
            if win != self.drift_captured_window {
                actions.capture_drift_for = Some(win);
            }
        }
        actions
    }

    /// Records that the drift price of window `win` was captured.
    pub fn drift_captured(&mut self, win: i64)
        ensures
            *final(self) == (DecisionClock { drift_captured_window: win, ..*old(self) }),
    {
        self.drift_captured_window = win;
    }

    /// Whether the armed early fire is still to happen: it is armed for a
    /// window not yet decided.
    pub fn early_fire_due(&self) -> (r: bool)
        ensures
            r == (self.early_fire_armed_window != -1 && self.early_fire_armed_window != self.last_decision_window),
    {
        self.early_fire_armed_window != -1 && self.early_fire_armed_window != self.last_decision_window
    }

    /// Whether the runner decides now, in minute `minute` of the window
    /// starting at `window`: it is the decision minute and the window is not
    /// decided yet. Deciding marks the window decided.
    pub fn decide(&mut self, minute: i64, window: i64) -> (r: bool)
        ensures
            r == (minute == old(self).decision_minute && window != old(self).last_decision_window),
            *final(self) == (if r {
                DecisionClock { last_decision_window: window, ..*old(self) }
            } else {
                *old(self)
            }),
    {
        if minute == self.decision_minute && window != self.last_decision_window {
            self.last_decision_window = window;
            true
        } else {
            false
        }
    }

    /// How many minutes before the window's last candle the signal is read:
    /// the distance from the decision minute to the last minute when the
    /// order fires early, none otherwise.
    pub fn signal_minute_offset(&self, early_fired: bool) -> (r: i64)
        requires
            self.wf(),
        ensures
            r == (if early_fired { self.window_minutes - 1 - self.decision_minute } else { 0 }),
    {
        if early_fired {
            self.window_minutes - 1 - self.decision_minute
        } else {
            0
        }
    }
}

/// What the feed watchdog does when it wakes up.
#[derive(Clone, Copy, Debug, PartialEq, Eq, Structural)]
pub enum WatchdogAction {
    Nothing,
    Warn,
    Respawn,
}

/// Seconds without a candle after which the feed is reconnected.
pub const WATCHDOG_STALL_SECS: u64 = 600;
/// Seconds without a candle after which the watchdog warns once.
pub const WATCHDOG_WARN_SECS: u64 = 300;

/// The watchdog's decision after `stale_secs` without a candle, and whether it
/// has warned since the last candle afterwards.
pub fn watchdog_step(stale_secs: u64, warned: bool) -> (r: (WatchdogAction, bool))
    ensures
        r == (if stale_secs >= WATCHDOG_STALL_SECS {
            (WatchdogAction::Respawn, false)
        } else if stale_secs >= WATCHDOG_WARN_SECS && !warned {
            (WatchdogAction::Warn, true)
        } else {
            (WatchdogAction::Nothing, warned)
        }),
{
    if stale_secs >= WATCHDOG_STALL_SECS {
        (WatchdogAction::Respawn, false)
    } else if stale_secs >= WATCHDOG_WARN_SECS && !warned {
        (WatchdogAction::Warn, true)
    } else {
        (WatchdogAction::Nothing, warned)
    }
}

/// Times a runner that failed is restarted by itself before it waits for a
/// manual restart.
pub const MAX_AUTO_RESTARTS: u32 = 5;

/// After the runner loop ended: the number of the restart to make, when the
/// runner failed (`failed_auto`: its status is error and it may restart by
/// itself) and `attempts` restarts were made so far without exhausting the
/// limit; none otherwise.
pub fn next_restart(failed_auto: bool, attempts: u32) -> (r: Option<u32>)
    ensures
        r == (if failed_auto && attempts < MAX_AUTO_RESTARTS { Some((attempts + 1) as u32) } else { None::<u32> }),
{
    if failed_auto && attempts < MAX_AUTO_RESTARTS {
        Some(attempts + 1)
    } else {
        None
    }
}


/// A second at or after the epoch falls in the window that starts at the
/// last multiple of the window length at or before it; its minute in the
/// window is the whole minutes since that start.
pub proof fn law_window_contains(ts: int, w: int)
    requires
        ts >= 0,
        w > 0,
    ensures
        window_of(ts, w) <= ts < window_of(ts, w) + w,
        window_of(ts, w) % w == 0,
        minute_in_window(ts, w) == (ts - window_of(ts, w)) / 60,
{
    assert(ts % w < w);
    assert((ts - ts % w) % w == 0) by {
        vstd::arithmetic::div_mod::lemma_fundamental_div_mod(ts, w);
        vstd::arithmetic::div_mod::lemma_mod_multiples_basic(ts / w, w);
        assert(ts - ts % w == w * (ts / w));
        vstd::arithmetic::mul::lemma_mul_is_commutative(w, ts / w);
    }
}

/// Every second counts down in its window: a second on a boundary closes the
/// window before it with no seconds left, any other leaves between 1 and
/// `w - 1` seconds; the window start plus its length, less the seconds left,
/// is the second itself.
pub proof fn law_tick_countdown(now: int, w: int)
    requires
        now >= 0,
        w > 0,
    ensures
        0 <= tick_window_of(now, w).1 < w,
        tick_window_of(now, w).0 + w - tick_window_of(now, w).1 == now,
        tick_window_of(now, w).0 % w == 0,
        (now % w == 0) <==> tick_window_of(now, w).1 == 0,
{
    law_window_contains(now, w);
    if now % w == 0 {
        assert((now - w) % w == 0) by {
            vstd::arithmetic::div_mod::lemma_mod_sub_multiples_vanish(now, w);
        }
    }
}

/// The runner decides at most once per window: after a decision in a
/// window, deciding again in that window (in any minute) does nothing.
pub proof fn law_one_decision_per_window(c0: DecisionClock, c1: DecisionClock, minute: i64, window: i64, again: i64)
    requires
        minute == c0.decision_minute && window != c0.last_decision_window,
        c1 == (DecisionClock { last_decision_window: window, ..c0 }),
    ensures
        !(again == c1.decision_minute && window != c1.last_decision_window),
{
}

/// Once the window the early fire was armed for is decided, the early fire
/// is no longer due.
pub proof fn law_no_early_fire_after_decision(c0: DecisionClock, c1: DecisionClock, minute: i64)
    requires
        minute == c0.decision_minute && c0.early_fire_armed_window != c0.last_decision_window,
        c1 == (DecisionClock { last_decision_window: c0.early_fire_armed_window, ..c0 }),
    ensures
        !(c1.early_fire_armed_window != -1 && c1.early_fire_armed_window != c1.last_decision_window),
{
}

/// The early fire is armed at most once per window: a clock armed for the
/// window of a candle does not arm again on it.
pub proof fn law_arm_once_per_window(c: DecisionClock, open_ms: int)
    requires
        c.early_fire_armed_window == window_of(div_trunc(open_ms, 1000), c.window_secs as int),
    ensures
        !(c.early_fire_secs > 0 && c.pre_decision(open_ms)
            && window_of(div_trunc(open_ms, 1000), c.window_secs as int) != c.early_fire_armed_window),
{
}

/// Only the candle just before the decision candle acts: a candle in any
/// other minute of its window (the decision minute itself included) is no
/// pre-decision candle; for a candle at or after the epoch, one that is
/// opens `(decision_minute - 1)` whole minutes into its window.
pub proof fn law_only_pre_decision_candle_acts(c: DecisionClock, open_ms: int)
    ensures
        minute_in_window(div_trunc(open_ms, 1000), c.window_secs as int) != c.decision_minute - 1
            ==> !c.pre_decision(open_ms),
        open_ms >= 0 && c.window_secs > 0 && c.pre_decision(open_ms) ==> ((open_ms / 1000) % (c.window_secs as int))
            / 60 == c.decision_minute - 1,
{
}

/// The hour gate passes a window exactly when no hours are listed or its UTC
/// hour is one of those listed, wherever it stands in the list.
pub proof fn law_hour_gate(allowed_hours: Seq<u8>, window_ts: int)
    ensures
        allowed_hours.len() == 0 ==> hour_allowed(allowed_hours, window_ts),
        window_ts >= 0 ==> (hour_allowed(allowed_hours, window_ts) <==> (allowed_hours.len() == 0 || exists|i: int|
            0 <= i < allowed_hours.len() && #[trigger] allowed_hours[i] == (window_ts % 86400) / 3600)),
{
    if window_ts >= 0 {
        let h = (window_ts % 86400) / 3600;
        assert(utc_hour(window_ts) == h);
        assert(0 <= h < 24);
        assert((h as u8) == h);
        if allowed_hours.contains(h as u8) {
            let i = choose|i: int| 0 <= i < allowed_hours.len() && allowed_hours[i] == h as u8;
            assert(allowed_hours[i] == h);
        }
        if exists|i: int| 0 <= i < allowed_hours.len() && #[trigger] allowed_hours[i] == h {
            let i = choose|i: int| 0 <= i < allowed_hours.len() && #[trigger] allowed_hours[i] == h;
            assert(allowed_hours[i] == h as u8);
            assert(allowed_hours.contains(h as u8));
        }
    }
}

/// The early order fires `early_fire_secs` before the decision candle closes,
/// that is before the end of the decision minute.
pub proof fn law_fire_before_candle_close(c: DecisionClock, win: int)
    ensures
        c.fire_time(win) + c.early_fire_secs == win + (c.decision_minute + 1) * 60,
{
}


/// The candles that settle the window starting at `window_start` (seconds)
/// and lasting `window_secs`: the position of the first candle opening at or
/// after the start and of the last one opening before the end (opening times
/// in milliseconds); none when either is missing.
pub fn window_candle_bounds(open_ms: &Vec<i64>, window_start: i64, window_secs: i64) -> (r: Option<(usize, usize)>)
    requires
        i64::MIN <= window_start * 1000 <= i64::MAX,
        i64::MIN <= (window_start + window_secs) * 1000 <= i64::MAX,
    ensures
        match r {
            Some((f, l)) => {
                &&& f < open_ms@.len() && l < open_ms@.len()
                &&& open_ms@[f as int] >= window_start * 1000
                &&& forall|j: int| 0 <= j < f ==> open_ms@[j] < window_start * 1000
                &&& open_ms@[l as int] < (window_start + window_secs) * 1000
                &&& forall|j: int| l < j < open_ms@.len() ==> open_ms@[j] >= (window_start + window_secs) * 1000
            },
            None => !(exists|i: int| 0 <= i < open_ms@.len() && open_ms@[i] >= window_start * 1000)
                || !(exists|i: int| 0 <= i < open_ms@.len() && open_ms@[i] < (window_start + window_secs) * 1000),
        },
{
    let start_ms = window_start * 1000;
    let end_ms = (window_start + window_secs) * 1000;
    let mut f: usize = 0;
    while f < open_ms.len() && open_ms[f] < start_ms
        invariant
            f <= open_ms@.len(),
            forall|j: int| 0 <= j < f ==> open_ms@[j] < start_ms,
        decreases open_ms@.len() - f,
    {
        f = f + 1;
    }
    if f == open_ms.len() {
        return None;
    }
    let mut l: usize = open_ms.len();
    while l > 0 && open_ms[l - 1] >= end_ms
        invariant
            l <= open_ms@.len(),
            forall|j: int| l <= j < open_ms@.len() ==> open_ms@[j] >= end_ms,
        decreases l,
    {
        l = l - 1;
    }
    if l == 0 {
        return None;
    }
    Some((f, l - 1))
}


/// The drift price is fetched once per window: once it was captured for the
/// window of a candle, that candle asks for it no more.
pub proof fn law_drift_once_per_window(c: DecisionClock, open_ms: int)
    requires
        c.drift_captured_window == window_of(div_trunc(open_ms, 1000), c.window_secs as int),
    ensures
        !(c.pre_decision(open_ms) && window_of(div_trunc(open_ms, 1000), c.window_secs as int) != c.drift_captured_window),
{
}

} // verus!
