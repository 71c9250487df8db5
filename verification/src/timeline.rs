//! The event timeline of the event-driven backtest: candles and funding
//! snapshots merged into one chronological stream, and the schedule of
//! synthetic funding snapshots used when no real funding data is stored.
use vstd::prelude::*;

verus! {

/// A backtest event with the millisecond timestamp it is ordered by.
pub struct TimedEvent<E> {
    pub ts_ms: i64,
    pub event: E,
}

/// `s` is in chronological order.
pub open spec fn chronological<E>(s: Seq<TimedEvent<E>>) -> bool {
    forall|a: int, b: int| 0 <= a < b < s.len() ==> (#[trigger] s[a]).ts_ms <= (#[trigger] s[b]).ts_ms
}

/// `out` is `input` reordered by `pos` (`out[j]` is `input[pos[j]]`, each
/// position once), chronological, with events of equal time in their
/// input order: what a stable sort by time gives.
pub open spec fn stably_sorted<E>(input: Seq<TimedEvent<E>>, out: Seq<TimedEvent<E>>, pos: Seq<int>) -> bool {
    &&& out.len() == input.len()
    &&& pos.len() == input.len()
    &&& forall|j: int| 0 <= j < pos.len() ==> 0 <= #[trigger] pos[j] < input.len() && out[j] == input[pos[j]]
    &&& forall|a: int, b: int| 0 <= a < b < pos.len() ==> pos[a] != pos[b]
    &&& chronological(out)
    &&& forall|a: int, b: int| 0 <= a < b < out.len() && (#[trigger] out[a]).ts_ms == (#[trigger] out[b]).ts_ms ==> pos[a] < pos[b]
}

/// The events ordered by time; events of equal time keep their order.
pub fn sort_by_time<E>(events: Vec<TimedEvent<E>>) -> (r: Vec<TimedEvent<E>>)
    ensures
        exists|pos: Seq<int>| stably_sorted(events@, r@, pos),
{
    let ghost input = events@;
    let n: usize = events.len();
    let mut rest = events;
    let mut out: Vec<TimedEvent<E>> = Vec::new();
    let ghost mut pos: Seq<int> = Seq::empty();
    let mut k: usize = 0;
    assert(input.skip(0) =~= input);
    while rest.len() > 0
        invariant
            k <= n,
            input.len() == n,
            rest@ == input.skip(k as int),
            out@.len() == k,
            pos.len() == k,
            forall|j: int| 0 <= j < k ==> 0 <= #[trigger] pos[j] < k && out@[j] == input[pos[j]],
            forall|a: int, b: int| 0 <= a < b < k ==> pos[a] != pos[b],
            chronological(out@),
            forall|a: int, b: int| 0 <= a < b < k && (#[trigger] out@[a]).ts_ms == (#[trigger] out@[b]).ts_ms ==> pos[a] < pos[b],
        decreases rest@.len(),
    {
        assert(input.skip(k as int).len() == n - k);
        let x = rest.remove(0);
        proof {
            assert(x == input[k as int]);
            assert(rest@ =~= input.skip(k as int + 1));
        }
        let t = x.ts_ms;
        let mut p: usize = 0;
        while p < out.len() && out[p].ts_ms <= t
            invariant
                p <= out@.len(),
                forall|a: int| 0 <= a < p ==> (#[trigger] out@[a]).ts_ms <= t,
            decreases out@.len() - p,
        {
            p = p + 1;
        }
        let ghost old_out = out@;
        let ghost old_pos = pos;
        out.insert(p, x);
        proof {
            pos = pos.insert(p as int, k as int);
            assert forall|j: int| 0 <= j < k + 1 implies 0 <= #[trigger] pos[j] < k + 1 && out@[j] == input[pos[j]] by {
                if j < p {
                    assert(pos[j] == old_pos[j]);
                } else if j > p {
                    assert(pos[j] == old_pos[j - 1]);
                }
            }
            assert forall|a: int, b: int| 0 <= a < b < k + 1 implies pos[a] != pos[b] by {
                if a < p && b < p {
                } else if a < p && b == p {
                    assert(old_pos[a] < k);
                } else if a < p && b > p {
                    assert(pos[b] == old_pos[b - 1]);
                } else if a == p {
                    assert(old_pos[b - 1] < k);
                } else {
                    assert(pos[a] == old_pos[a - 1]);
                    assert(pos[b] == old_pos[b - 1]);
                }
            }
            assert forall|a: int, b: int| 0 <= a < b < out@.len() implies (#[trigger] out@[a]).ts_ms <= (#[trigger] out@[b]).ts_ms by {
                if a < p && b == p {
                } else if a < p && b > p {
                    assert(out@[b] == old_out[b - 1]);
                    if (p as int) < old_out.len() {
                        assert(old_out[a].ts_ms <= old_out[p as int].ts_ms);
                        assert(old_out[p as int].ts_ms <= old_out[b - 1].ts_ms);
                    }
                } else if a == p && b > p {
                    assert(out@[b] == old_out[b - 1]);
                    assert(old_out[p as int].ts_ms > t);
                    assert(old_out[p as int].ts_ms <= old_out[b - 1].ts_ms);
                } else if a > p {
                    assert(out@[a] == old_out[a - 1]);
                    assert(out@[b] == old_out[b - 1]);
                }
            }
            assert forall|a: int, b: int| 0 <= a < b < k + 1 && (#[trigger] out@[a]).ts_ms == (#[trigger] out@[b]).ts_ms implies pos[a] < pos[b] by {
                if a < p && b == p {
                    assert(old_pos[a] < k);
                } else if a < p && b > p {
                    assert(out@[b] == old_out[b - 1]);
                    assert(pos[b] == old_pos[b - 1]);
                    assert(old_out[p as int].ts_ms > t);
                    assert(old_out[p as int].ts_ms <= old_out[b - 1].ts_ms);
                } else if a == p && b > p {
                    assert(out@[b] == old_out[b - 1]);
                    assert(old_out[p as int].ts_ms > t);
                    assert(old_out[p as int].ts_ms <= old_out[b - 1].ts_ms);
                } else if a > p {
                    assert(out@[a] == old_out[a - 1]);
                    assert(out@[b] == old_out[b - 1]);
                    assert(pos[a] == old_pos[a - 1]);
                    assert(pos[b] == old_pos[b - 1]);
                }
            }
        }
        k = k + 1;
    }
    assert(stably_sorted(input, out@, pos));
    out
}


/// The events of every group, group after group.
pub open spec fn flat<E>(groups: Seq<Vec<TimedEvent<E>>>) -> Seq<TimedEvent<E>> {
    groups.map_values(|v: Vec<TimedEvent<E>>| v@).flatten()
}

/// One chronological stream of the candles followed by each group of
/// funding snapshots; events of equal time keep that order (candles first,
/// then the groups in turn).
pub fn build_timeline<E>(candles: Vec<TimedEvent<E>>, funding: Vec<Vec<TimedEvent<E>>>) -> (r: Vec<TimedEvent<E>>)
    ensures
        exists|pos: Seq<int>| stably_sorted(candles@ + flat(funding@), r@, pos),
{
    let ghost g = funding@;
    let mut events = candles;
    let mut groups = funding;
    let n: usize = groups.len();
    let mut k: usize = 0;
    proof {
        assert(g.take(0).map_values(|v: Vec<TimedEvent<E>>| v@) =~= Seq::<Seq<TimedEvent<E>>>::empty());
        assert(g.skip(0) =~= g);
        assert(events@ =~= candles@ + flat(g.take(0)));
    }
    while groups.len() > 0
        invariant
            k <= n,
            g.len() == n,
            groups@ == g.skip(k as int),
            events@ == candles@ + flat(g.take(k as int)),
        decreases groups@.len(),
    {
        assert(g.skip(k as int).len() == n - k);
        let mut group = groups.remove(0);
        proof {
            assert(group == g[k as int]);
            assert(groups@ =~= g.skip(k as int + 1));
            let before = g.take(k as int).map_values(|v: Vec<TimedEvent<E>>| v@);
            let after = g.take(k as int + 1).map_values(|v: Vec<TimedEvent<E>>| v@);
            assert(after =~= before.push(group@));
            before.lemma_flatten_push(group@);
        }
        events.append(&mut group);
        k = k + 1;
    }
    proof {
        assert(g.take(k as int) =~= g);
    }
    sort_by_time(events)
}


/// How many of the times `ts` are at or before `t`.
pub open spec fn count_at_or_before(ts: Seq<i64>, t: int) -> nat
    decreases ts.len(),
{
    if ts.len() == 0 {
        0
    } else {
        count_at_or_before(ts.drop_last(), t) + if ts.last() <= t { 1nat } else { 0nat }
    }
}

/// The candle a synthetic funding snapshot at `t` is priced from: the last
/// candle at or before `t`, or the first candle when none is.
pub open spec fn anchor_index(ts: Seq<i64>, t: int) -> int {
    let c = count_at_or_before(ts, t);
    if c == 0 {
        0
    } else {
        c - 1
    }
}

/// The candle the momentum of a snapshot anchored at `idx` is measured from:
/// twelve candles earlier, or the first.
pub open spec fn lookback_index(idx: int) -> int {
    if idx >= 12 {
        idx - 12
    } else {
        0
    }
}

/// The number of snapshot times `from, from + step, ...` up to `to`.
pub open spec fn snapshot_count(from: int, to: int, step: int) -> int {
    if to < from {
        0
    } else {
        (to - from) / step + 1
    }
}

/// One synthetic funding snapshot: its time, the candle it is priced from and
/// the candle its momentum is measured against.
pub struct SnapshotPlan {
    pub ts_ms: i64,
    pub anchor: usize,
    pub lookback: usize,
}

/// `ts` strictly increases.
pub open spec fn strictly_increasing(ts: Seq<i64>) -> bool {
    forall|a: int, b: int| 0 <= a < b < ts.len() ==> ts[a] < ts[b]
}

proof fn lemma_count_boundary(ts: Seq<i64>, t: int, p: int)
    requires
        0 <= p <= ts.len(),
        forall|i: int| 0 <= i < p ==> ts[i] <= t,
        forall|i: int| p <= i < ts.len() ==> ts[i] > t,
    ensures
        count_at_or_before(ts, t) == p,
    decreases ts.len(),
{
    if ts.len() > 0 {
        let d = ts.drop_last();
        if p == ts.len() {
            assert(ts.last() <= t);
            lemma_count_boundary(d, t, p - 1);
        } else {
            assert(ts.last() > t);
            lemma_count_boundary(d, t, p);
        }
    }
}

/// `plan` is the schedule of synthetic funding snapshots between `from` and
/// `to` every `step` over candles opening at `close_ts`: none when there are
/// fewer than two candles; otherwise one at each time `from + k * step` up to
/// `to`, priced from the last candle at or before it and measured against
/// the candle twelve before that.
pub open spec fn plans_snapshots(close_ts: Seq<i64>, from: int, to: int, step: int, plan: Seq<SnapshotPlan>) -> bool {
    &&& close_ts.len() < 2 ==> plan.len() == 0
    &&& close_ts.len() >= 2 ==> plan.len() == snapshot_count(from, to, step)
    &&& close_ts.len() >= 2 ==> forall|k: int| 0 <= k < plan.len() ==> {
        let t = from + k * step;
        &&& (#[trigger] plan[k]).ts_ms == t
        &&& plan[k].anchor == anchor_index(close_ts, t)
        &&& plan[k].lookback == lookback_index(anchor_index(close_ts, t))
    }
}

/// The schedule of synthetic funding snapshots between `from_ms` and `to_ms`
/// every `step_ms`, over candles opening at the times `close_ts`: none when
/// there are fewer than two candles.
pub fn synthetic_funding_plan(close_ts: &Vec<i64>, from_ms: i64, to_ms: i64, step_ms: i64) -> (r: Vec<SnapshotPlan>)
    requires
        step_ms > 0,
        to_ms + step_ms <= i64::MAX,
        strictly_increasing(close_ts@),
    ensures
        plans_snapshots(close_ts@, from_ms as int, to_ms as int, step_ms as int, r@),
{
    let mut out: Vec<SnapshotPlan> = Vec::new();
    if close_ts.len() < 2 {
        return out;
    }
    let n = close_ts.len();
    let mut t = from_ms;
    let mut p: usize = 0;
    assert(from_ms + out@.len() * step_ms == from_ms) by (nonlinear_arith)
        requires out@.len() == 0;
    while t <= to_ms
        invariant
            n == close_ts@.len(),
            n >= 2,
            step_ms > 0,
            to_ms + step_ms <= i64::MAX,
            strictly_increasing(close_ts@),
            t == from_ms + out@.len() * step_ms,
            out@.len() > 0 ==> t <= to_ms + step_ms,
            out@.len() <= snapshot_count(from_ms as int, to_ms as int, step_ms as int),
            t <= to_ms ==> out@.len() < snapshot_count(from_ms as int, to_ms as int, step_ms as int),
            t > to_ms ==> out@.len() == snapshot_count(from_ms as int, to_ms as int, step_ms as int),
            p <= n,
            forall|i: int| 0 <= i < p ==> close_ts@[i] < t,
            forall|k: int| 0 <= k < out@.len() ==> {
                let tk = from_ms + k * step_ms;
                &&& (#[trigger] out@[k]).ts_ms == tk
                &&& out@[k].anchor == anchor_index(close_ts@, tk)
                &&& out@[k].lookback == lookback_index(anchor_index(close_ts@, tk))
            },
        decreases to_ms + step_ms - t,
    {
        while p < n && close_ts[p] <= t
            invariant
                p <= n,
                n == close_ts@.len(),
                forall|i: int| 0 <= i < p ==> close_ts@[i] <= t,
            decreases n - p,
        {
            p = p + 1;
        }
        proof {
            assert forall|i: int| p <= i < close_ts@.len() implies close_ts@[i] > t by {
                if p < n {
                    assert(close_ts@[p as int] > t);
                    if i > p {
                        assert(close_ts@[p as int] < close_ts@[i]);
                    }
                }
            }
            lemma_count_boundary(close_ts@, t as int, p as int);
        }
        let anchor: usize = if p == 0 { 0 } else { p - 1 };
        let lookback: usize = if anchor >= 12 { anchor - 12 } else { 0 };
        out.push(SnapshotPlan { ts_ms: t, anchor, lookback });
        proof {
            let c = snapshot_count(from_ms as int, to_ms as int, step_ms as int);
            let k: int = out@.len() - 1;
            let st: int = step_ms as int;
            let f: int = from_ms as int;
            let e: int = to_ms as int;
            let tt: int = t as int;
            let d: int = e - f;
            assert(tt <= e);
            assert(d >= 0);
            assert(d / st * st <= d) by (nonlinear_arith)
                requires d >= 0, st > 0;
            assert(d / st * st > d - st) by (nonlinear_arith)
                requires d >= 0, st > 0;
            assert(f + (k + 1) * st == tt + st) by (nonlinear_arith)
                requires tt == f + k * st;
            assert(c == d / st + 1);
            if tt + st <= e {
                assert(k + 1 < c) by (nonlinear_arith)
                    requires
                        f + (k + 1) * st <= e,
                        c == d / st + 1,
                        d == e - f,
                        d / st * st > d - st,
                        st > 0;
            } else {
                assert(k + 1 == c) by (nonlinear_arith)
                    requires
                        f + (k + 1) * st > e,
                        f + k * st <= e,
                        c == d / st + 1,
                        d == e - f,
                        d / st * st <= d,
                        d / st * st > d - st,
                        st > 0;
            }
        }
        t = t + step_ms;
    }
    out
}

/// An event of the backtest stream: a candle, or a funding snapshot of one
/// venue for one symbol at some rate.
pub enum MarketEvent<C, V, R> {
    Candle(C),
    Funding { venue: V, symbol: V, rate: R },
}

/// The funding snapshot of `venue` at time `t`.
pub open spec fn funding_at<C, V, R>(t: i64, venue: V, symbol: V, rate: R) -> TimedEvent<MarketEvent<C, V, R>> {
    TimedEvent { ts_ms: t, event: MarketEvent::Funding { venue: venue, symbol: symbol, rate: rate } }
}

/// The snapshots of the first `n` planned times, time after time, each time
/// one per venue in the order of `venues`, at the rate planned for it.
pub open spec fn synthetic_prefix<C, V, R>(
    plan: Seq<SnapshotPlan>,
    rates: Seq<R>,
    venues: Seq<V>,
    symbol: V,
    n: nat,
) -> Seq<TimedEvent<MarketEvent<C, V, R>>>
    decreases n,
{
    if n == 0 {
        Seq::empty()
    } else {
        synthetic_prefix(plan, rates, venues, symbol, (n - 1) as nat) + venues.map_values(
            |v: V| funding_at(plan[n - 1].ts_ms, v, symbol, rates[n - 1]),
        )
    }
}

/// The synthetic funding snapshots of the whole plan.
pub open spec fn synthetic_funding<C, V, R>(
    plan: Seq<SnapshotPlan>,
    rates: Seq<R>,
    venues: Seq<V>,
    symbol: V,
) -> Seq<TimedEvent<MarketEvent<C, V, R>>> {
    synthetic_prefix(plan, rates, venues, symbol, plan.len())
}

/// The timeline `base` with the synthetic funding snapshots of `plan` merged
/// in: one snapshot per venue at each planned time, at the rate `rates`
/// gives for that time, for `symbol`; events of equal time keep their order
/// (the base first, then the snapshots time after time, venue after venue).
pub fn synthetic_funding_timeline<C, V: Copy, R: Copy>(
    base: Vec<TimedEvent<MarketEvent<C, V, R>>>,
    plan: &Vec<SnapshotPlan>,
    rates: &Vec<R>,
    venues: &Vec<V>,
    symbol: V,
) -> (r: Vec<TimedEvent<MarketEvent<C, V, R>>>)
    requires
        rates@.len() == plan@.len(),
    ensures
        exists|pos: Seq<int>|
            stably_sorted(base@ + synthetic_funding(plan@, rates@, venues@, symbol), r@, pos),
{
    let ghost b = base@;
    let mut events = base;
    let n = plan.len();
    let nv = venues.len();
    let mut j: usize = 0;
    assert(events@ =~= b + synthetic_prefix::<C, V, R>(plan@, rates@, venues@, symbol, 0));
    while j < n
        invariant
            j <= n,
            n == plan@.len(),
            nv == venues@.len(),
            rates@.len() == n,
            events@ == b + synthetic_prefix(plan@, rates@, venues@, symbol, j as nat),
        decreases n - j,
    {
        let t = plan[j].ts_ms;
        let rate: R = rates[j];
        let ghost start = events@;
        let mut v: usize = 0;
        while v < nv
            invariant
                v <= nv,
                nv == venues@.len(),
                j < n,
                n == plan@.len(),
                rates@.len() == n,
                t == plan@[j as int].ts_ms,
                rate == rates@[j as int],
                events@ == start + venues@.take(v as int).map_values(
                    |x: V| funding_at::<C, V, R>(plan@[j as int].ts_ms, x, symbol, rates@[j as int]),
                ),
            decreases nv - v,
        {
            let venue: V = venues[v];
            events.push(TimedEvent { ts_ms: t, event: MarketEvent::Funding { venue: venue, symbol: symbol, rate: rate } });
            proof {
                assert(venues@.take(v as int + 1) =~= venues@.take(v as int).push(venue));
                assert(venues@.take(v as int + 1).map_values(
                    |x: V| funding_at::<C, V, R>(plan@[j as int].ts_ms, x, symbol, rates@[j as int]),
                ) =~= venues@.take(v as int).map_values(
                    |x: V| funding_at::<C, V, R>(plan@[j as int].ts_ms, x, symbol, rates@[j as int]),
                ).push(funding_at::<C, V, R>(t, venue, symbol, rate)));
            }
            v = v + 1;
        }
        proof {
            assert(venues@.take(nv as int) =~= venues@);
            assert(events@ =~= b + synthetic_prefix(plan@, rates@, venues@, symbol, (j + 1) as nat));
        }
        j = j + 1;
    }
    let ghost all = events@;
    assert(all == base@ + synthetic_funding(plan@, rates@, venues@, symbol));
    let r = sort_by_time(events);
    assert(exists|pos: Seq<int>| stably_sorted(all, r@, pos));
    r
}

/// The event at position `i` of the merged input stands in `out`, at the
/// place `pos` moved it to.
pub open spec fn placed<E>(out: Seq<TimedEvent<E>>, pos: Seq<int>, i: int, e: TimedEvent<E>) -> bool {
    exists|k: int| 0 <= k < out.len() && #[trigger] pos[k] == i && out[k] == e
}

proof fn lemma_prefix_index<C, V, R>(plan: Seq<SnapshotPlan>, rates: Seq<R>, venues: Seq<V>, symbol: V, n: nat)
    ensures
        synthetic_prefix::<C, V, R>(plan, rates, venues, symbol, n).len() == n * venues.len(),
        forall|j: int, v: int|
            #![trigger plan[j], venues[v]]
            0 <= j < n && 0 <= v < venues.len() ==> synthetic_prefix::<C, V, R>(plan, rates, venues, symbol, n)[j
                * venues.len() + v] == funding_at::<C, V, R>(plan[j].ts_ms, venues[v], symbol, rates[j]),
    decreases n,
{
    let nv = venues.len() as int;
    if n == 0 {
        assert(0 * nv == 0);
    } else {
        let m = (n - 1) as nat;
        lemma_prefix_index::<C, V, R>(plan, rates, venues, symbol, m);
        let pre = synthetic_prefix::<C, V, R>(plan, rates, venues, symbol, m);
        let snap = venues.map_values(|x: V| funding_at::<C, V, R>(plan[n - 1].ts_ms, x, symbol, rates[n - 1]));
        let whole = synthetic_prefix::<C, V, R>(plan, rates, venues, symbol, n);
        assert(whole == pre + snap);
        assert(pre.len() == m * nv);
        assert(snap.len() == nv);
        assert(m * nv + nv == n * nv) by (nonlinear_arith)
            requires m == n - 1;
        assert forall|j: int, v: int|
            #![trigger plan[j], venues[v]]
            0 <= j < n && 0 <= v < nv implies whole[j * nv + v] == funding_at::<C, V, R>(
                plan[j].ts_ms,
                venues[v],
                symbol,
                rates[j],
            ) by {
            if j < m {
                assert(j * nv + v < m * nv) by (nonlinear_arith)
                    requires j < m, 0 <= v < nv, j >= 0;
                assert(0 <= j * nv + v) by (nonlinear_arith)
                    requires 0 <= j, 0 <= v, nv >= 0;
                assert(pre[j * nv + v] == funding_at::<C, V, R>(plan[j].ts_ms, venues[v], symbol, rates[j]));
            } else {
                assert(j * nv + v - m * nv == v) by (nonlinear_arith)
                    requires j == m;
                assert(snap[v] == funding_at::<C, V, R>(plan[j].ts_ms, venues[v], symbol, rates[j]));
            }
        }
    }
}

proof fn lemma_positions_onto(pos: Seq<int>, n: int)
    requires
        pos.len() == n,
        forall|j: int| 0 <= j < n ==> 0 <= #[trigger] pos[j] < n,
        forall|a: int, b: int| 0 <= a < b < n ==> pos[a] != pos[b],
    ensures
        forall|i: int| 0 <= i < n ==> #[trigger] pos.contains(i),
{
    assert(pos.no_duplicates()) by {
        assert forall|a: int, b: int| 0 <= a < pos.len() && 0 <= b < pos.len() && a != b implies pos[a] != pos[b] by {
            if a > b {
                assert(pos[b] != pos[a]);
            }
        }
    }
    pos.unique_seq_to_set();
    vstd::set_lib::lemma_int_range(0, n);
    let range = vstd::set_lib::set_int_range(0, n);
    assert(pos.to_set().subset_of(range)) by {
        assert forall|i: int| pos.to_set().contains(i) implies range.contains(i) by {
            assert(pos.contains(i));
        }
    }
    vstd::set_lib::lemma_subset_equality(pos.to_set(), range);
    assert forall|i: int| 0 <= i < n implies #[trigger] pos.contains(i) by {
        assert(range.contains(i));
        assert(pos.to_set().contains(i));
    }
}

proof fn lemma_increasing_is_identity(pos: Seq<int>, n: int, j: int)
    requires
        pos.len() == n,
        0 <= j < n,
        forall|k: int| 0 <= k < n ==> 0 <= #[trigger] pos[k] < n,
        forall|a: int, b: int| 0 <= a < b < n ==> pos[a] < pos[b],
    ensures
        pos[j] == j,
{
    lemma_increasing_lower(pos, n, j);
    lemma_increasing_upper(pos, n, j);
}

proof fn lemma_increasing_lower(pos: Seq<int>, n: int, j: int)
    requires
        pos.len() == n,
        0 <= j < n,
        forall|k: int| 0 <= k < n ==> 0 <= #[trigger] pos[k] < n,
        forall|a: int, b: int| 0 <= a < b < n ==> pos[a] < pos[b],
    ensures
        pos[j] >= j,
    decreases j,
{
    if j > 0 {
        lemma_increasing_lower(pos, n, j - 1);
        assert(pos[j - 1] < pos[j]);
    }
}

proof fn lemma_increasing_upper(pos: Seq<int>, n: int, j: int)
    requires
        pos.len() == n,
        0 <= j < n,
        forall|k: int| 0 <= k < n ==> 0 <= #[trigger] pos[k] < n,
        forall|a: int, b: int| 0 <= a < b < n ==> pos[a] < pos[b],
    ensures
        pos[j] <= j,
    decreases n - j,
{
    if j < n - 1 {
        lemma_increasing_upper(pos, n, j + 1);
        assert(pos[j] < pos[j + 1]);
    }
}

/// The synthetic funding timeline, as `synthetic_funding_timeline` builds it
/// from a chronological base: it is chronological and as long as the base
/// plus one snapshot per venue and planned time; the base events all stay, in
/// their order; at each planned time there is exactly one snapshot per venue
/// (at the rate planned for that time), and no other event; and with no
/// planned time the timeline is the base itself.
pub proof fn law_synthetic_funding_timeline<C, V, R>(
    base: Seq<TimedEvent<MarketEvent<C, V, R>>>,
    plan: Seq<SnapshotPlan>,
    rates: Seq<R>,
    venues: Seq<V>,
    symbol: V,
    out: Seq<TimedEvent<MarketEvent<C, V, R>>>,
    pos: Seq<int>,
)
    requires
        chronological(base),
        stably_sorted(base + synthetic_funding(plan, rates, venues, symbol), out, pos),
    ensures
        chronological(out),
        out.len() == base.len() + plan.len() * venues.len(),
        forall|i: int| 0 <= i < base.len() ==> #[trigger] placed(out, pos, i, base[i]),
        forall|a: int, b: int|
            0 <= a < b < out.len() && #[trigger] pos[a] < base.len() && #[trigger] pos[b] < base.len() ==> pos[a] < pos[b],
        forall|j: int, v: int|
            #![trigger plan[j], venues[v]]
            0 <= j < plan.len() && 0 <= v < venues.len() ==> placed(
                out,
                pos,
                base.len() + j * venues.len() + v,
                funding_at::<C, V, R>(plan[j].ts_ms, venues[v], symbol, rates[j]),
            ),
        forall|k: int|
            0 <= k < out.len() && #[trigger] pos[k] >= base.len() ==> exists|j: int, v: int|
                #![trigger plan[j], venues[v]]
                0 <= j < plan.len() && 0 <= v < venues.len() && pos[k] == base.len() + j * venues.len() + v
                && out[k] == funding_at::<C, V, R>(plan[j].ts_ms, venues[v], symbol, rates[j]),
        plan.len() == 0 ==> out == base,
{
    let syn = synthetic_funding(plan, rates, venues, symbol);
    lemma_prefix_index::<C, V, R>(plan, rates, venues, symbol, plan.len());
    lemma_positions_onto(pos, (base + syn).len() as int);
    lemma_base_events(base, syn, out, pos);
    lemma_snapshots_present(base, plan, rates, venues, symbol, out, pos);
    lemma_snapshots_only(base, plan, rates, venues, symbol, out, pos);
    if plan.len() == 0 {
        lemma_base_alone(base, syn, out, pos);
    }
}

proof fn lemma_base_events<E>(base: Seq<TimedEvent<E>>, syn: Seq<TimedEvent<E>>, out: Seq<TimedEvent<E>>, pos: Seq<int>)
    requires
        chronological(base),
        stably_sorted(base + syn, out, pos),
        forall|i: int| 0 <= i < (base + syn).len() ==> #[trigger] pos.contains(i),
    ensures
        forall|i: int| 0 <= i < base.len() ==> #[trigger] placed(out, pos, i, base[i]),
        forall|a: int, b: int|
            0 <= a < b < out.len() && #[trigger] pos[a] < base.len() && #[trigger] pos[b] < base.len() ==> pos[a] < pos[b],
{
    let input = base + syn;
    assert forall|i: int| 0 <= i < base.len() implies #[trigger] placed(out, pos, i, base[i]) by {
        assert(pos.contains(i));
        let k = choose|k: int| 0 <= k < pos.len() && #[trigger] pos[k] == i;
        assert(input[i] == base[i]);
        assert(out[k] == input[pos[k]]);
        assert(0 <= k < out.len() && pos[k] == i && out[k] == base[i]);
    }
    assert forall|a: int, b: int|
        0 <= a < b < out.len() && #[trigger] pos[a] < base.len() && #[trigger] pos[b] < base.len() implies pos[a] < pos[b] by {
        assert(out[a] == input[pos[a]] && input[pos[a]] == base[pos[a]]);
        assert(out[b] == input[pos[b]] && input[pos[b]] == base[pos[b]]);
        assert(out[a].ts_ms <= out[b].ts_ms);
        if out[a].ts_ms != out[b].ts_ms && pos[a] > pos[b] {
            assert(base[pos[b]].ts_ms <= base[pos[a]].ts_ms);
        }
    }
}

proof fn lemma_snapshots_present<C, V, R>(
    base: Seq<TimedEvent<MarketEvent<C, V, R>>>,
    plan: Seq<SnapshotPlan>,
    rates: Seq<R>,
    venues: Seq<V>,
    symbol: V,
    out: Seq<TimedEvent<MarketEvent<C, V, R>>>,
    pos: Seq<int>,
)
    requires
        stably_sorted(base + synthetic_funding(plan, rates, venues, symbol), out, pos),
        forall|i: int| 0 <= i < (base + synthetic_funding(plan, rates, venues, symbol)).len() ==> #[trigger] pos.contains(i),
        synthetic_funding::<C, V, R>(plan, rates, venues, symbol).len() == plan.len() * venues.len(),
        forall|j: int, v: int|
            #![trigger plan[j], venues[v]]
            0 <= j < plan.len() && 0 <= v < venues.len() ==> synthetic_funding::<C, V, R>(plan, rates, venues, symbol)[j
                * venues.len() + v] == funding_at::<C, V, R>(plan[j].ts_ms, venues[v], symbol, rates[j]),
    ensures
        forall|j: int, v: int|
            #![trigger plan[j], venues[v]]
            0 <= j < plan.len() && 0 <= v < venues.len() ==> placed(
                out,
                pos,
                base.len() + j * venues.len() + v,
                funding_at::<C, V, R>(plan[j].ts_ms, venues[v], symbol, rates[j]),
            ),
{
    let syn = synthetic_funding(plan, rates, venues, symbol);
    let input = base + syn;
    let nb = base.len() as int;
    let nv = venues.len() as int;
    assert forall|j: int, v: int|
        #![trigger plan[j], venues[v]]
        0 <= j < plan.len() && 0 <= v < nv implies placed(
            out,
            pos,
            nb + j * nv + v,
            funding_at::<C, V, R>(plan[j].ts_ms, venues[v], symbol, rates[j]),
        ) by {
        let idx = nb + j * nv + v;
        assert(j * nv + v < plan.len() * nv) by (nonlinear_arith)
            requires 0 <= j < plan.len(), 0 <= v < nv;
        assert(0 <= j * nv) by (nonlinear_arith)
            requires 0 <= j, 0 <= nv;
        assert(pos.contains(idx));
        let k = choose|k: int| 0 <= k < pos.len() && #[trigger] pos[k] == idx;
        assert(input[idx] == syn[j * nv + v]);
        assert(out[k] == input[pos[k]]);
        assert(0 <= k < out.len() && pos[k] == idx);
    }
}

proof fn lemma_snapshots_only<C, V, R>(
    base: Seq<TimedEvent<MarketEvent<C, V, R>>>,
    plan: Seq<SnapshotPlan>,
    rates: Seq<R>,
    venues: Seq<V>,
    symbol: V,
    out: Seq<TimedEvent<MarketEvent<C, V, R>>>,
    pos: Seq<int>,
)
    requires
        stably_sorted(base + synthetic_funding(plan, rates, venues, symbol), out, pos),
        synthetic_funding::<C, V, R>(plan, rates, venues, symbol).len() == plan.len() * venues.len(),
        forall|j: int, v: int|
            #![trigger plan[j], venues[v]]
            0 <= j < plan.len() && 0 <= v < venues.len() ==> synthetic_funding::<C, V, R>(plan, rates, venues, symbol)[j
                * venues.len() + v] == funding_at::<C, V, R>(plan[j].ts_ms, venues[v], symbol, rates[j]),
    ensures
        forall|k: int|
            0 <= k < out.len() && #[trigger] pos[k] >= base.len() ==> exists|j: int, v: int|
                #![trigger plan[j], venues[v]]
                0 <= j < plan.len() && 0 <= v < venues.len() && pos[k] == base.len() + j * venues.len() + v
                && out[k] == funding_at::<C, V, R>(plan[j].ts_ms, venues[v], symbol, rates[j]),
{
    let syn = synthetic_funding(plan, rates, venues, symbol);
    let input = base + syn;
    let nb = base.len() as int;
    let nv = venues.len() as int;
    let np = plan.len() as int;
    assert forall|k: int| 0 <= k < out.len() && #[trigger] pos[k] >= nb implies exists|j: int, v: int|
        #![trigger plan[j], venues[v]]
        0 <= j < np && 0 <= v < nv && pos[k] == nb + j * nv + v
        && out[k] == funding_at::<C, V, R>(plan[j].ts_ms, venues[v], symbol, rates[j]) by {
        let d = pos[k] - nb;
        assert(0 <= pos[k] < input.len());
        assert(0 <= d < np * nv);
        assert(nv > 0) by (nonlinear_arith)
            requires 0 <= d < np * nv, np >= 0;
        let j = d / nv;
        let v = d % nv;
        assert(d == j * nv + v && 0 <= v < nv) by (nonlinear_arith)
            requires nv > 0, j == d / nv, v == d % nv;
        assert(0 <= j < np) by (nonlinear_arith)
            requires nv > 0, j == d / nv, 0 <= d < np * nv;
        assert(input[pos[k]] == syn[d]);
        assert(out[k] == input[pos[k]]);
        assert(syn[j * nv + v] == funding_at::<C, V, R>(plan[j].ts_ms, venues[v], symbol, rates[j]));
    }
}

proof fn lemma_base_alone<E>(base: Seq<TimedEvent<E>>, syn: Seq<TimedEvent<E>>, out: Seq<TimedEvent<E>>, pos: Seq<int>)
    requires
        chronological(base),
        syn.len() == 0,
        stably_sorted(base + syn, out, pos),
    ensures
        out == base,
{
    let input = base + syn;
    let n = input.len() as int;
    assert(input =~= base);
    assert forall|a: int, b: int| 0 <= a < b < n implies pos[a] < pos[b] by {
        assert(out[a].ts_ms <= out[b].ts_ms);
        if out[a].ts_ms != out[b].ts_ms && pos[a] > pos[b] {
            assert(base[pos[b]].ts_ms <= base[pos[a]].ts_ms);
        }
    }
    assert forall|j: int| 0 <= j < n implies out[j] == base[j] by {
        lemma_increasing_is_identity(pos, n, j);
    }
    assert(out =~= base);
}
/// The snapshot of venue `v` at the `k`-th planned time `from + k * step`
/// stands in `out`, in the place of the `k`-th time's `v`-th snapshot of the
/// merged input.
pub open spec fn snapshot_placed<C, V, R>(
    out: Seq<TimedEvent<MarketEvent<C, V, R>>>,
    pos: Seq<int>,
    base_len: int,
    plan: Seq<SnapshotPlan>,
    rates: Seq<R>,
    venues: Seq<V>,
    symbol: V,
    from: int,
    step: int,
    k: int,
    v: int,
) -> bool {
    &&& plan[k].ts_ms == from + k * step
    &&& placed(out, pos, base_len + k * venues.len() + v, funding_at::<C, V, R>(plan[k].ts_ms, venues[v], symbol, rates[k]))
}

/// The timeline with synthetic funding, whole: over a chronological base
/// whose candles open at `close_ts`, with the snapshots scheduled by
/// `synthetic_funding_plan` and merged by `synthetic_funding_timeline`, the
/// result is the base itself when there are fewer than two candles;
/// otherwise it is chronological, keeps every base event in its order, and
/// holds, for each time `from + k * step` up to `to`, exactly one snapshot
/// per venue at that time (for `symbol`, at the rate of that time), and no
/// other event.
pub proof fn law_synthetic_funding<C, V, R>(
    close_ts: Seq<i64>,
    from: int,
    to: int,
    step: int,
    plan: Seq<SnapshotPlan>,
    base: Seq<TimedEvent<MarketEvent<C, V, R>>>,
    rates: Seq<R>,
    venues: Seq<V>,
    symbol: V,
    out: Seq<TimedEvent<MarketEvent<C, V, R>>>,
    pos: Seq<int>,
)
    requires
        step > 0,
        plans_snapshots(close_ts, from, to, step, plan),
        chronological(base),
        stably_sorted(base + synthetic_funding(plan, rates, venues, symbol), out, pos),
    ensures
        close_ts.len() < 2 ==> out == base,
        chronological(out),
        forall|i: int| 0 <= i < base.len() ==> #[trigger] placed(out, pos, i, base[i]),
        forall|a: int, b: int|
            0 <= a < b < out.len() && #[trigger] pos[a] < base.len() && #[trigger] pos[b] < base.len() ==> pos[a] < pos[b],
        close_ts.len() >= 2 ==> out.len() == base.len() + snapshot_count(from, to, step) * venues.len(),
        close_ts.len() >= 2 ==> forall|k: int, v: int|
            0 <= k < snapshot_count(from, to, step) && 0 <= v < venues.len() ==> #[trigger] snapshot_placed(
                out,
                pos,
                base.len() as int,
                plan,
                rates,
                venues,
                symbol,
                from,
                step,
                k,
                v,
            ) && from + k * step <= to,
        forall|i: int|
            0 <= i < out.len() && #[trigger] pos[i] >= base.len() ==> exists|k: int, v: int|
                #![trigger plan[k], venues[v]]
                0 <= k < plan.len() && 0 <= v < venues.len() && pos[i] == base.len() + k * venues.len() + v
                && plan[k].ts_ms == from + k * step && from + k * step <= to
                && out[i] == funding_at::<C, V, R>(plan[k].ts_ms, venues[v], symbol, rates[k]),
{
    law_synthetic_funding_timeline(base, plan, rates, venues, symbol, out, pos);
    lemma_plan_times(close_ts, from, to, step, plan);
    if close_ts.len() >= 2 {
        assert forall|k: int, v: int|
            0 <= k < snapshot_count(from, to, step) && 0 <= v < venues.len() implies #[trigger] snapshot_placed(
                out,
                pos,
                base.len() as int,
                plan,
                rates,
                venues,
                symbol,
                from,
                step,
                k,
                v,
            ) && from + k * step <= to by {
            assert(plan[k].ts_ms == from + k * step);
            assert(venues[v] == venues[v]);
        }
    }
}

proof fn lemma_plan_times(close_ts: Seq<i64>, from: int, to: int, step: int, plan: Seq<SnapshotPlan>)
    requires
        step > 0,
        plans_snapshots(close_ts, from, to, step, plan),
    ensures
        forall|k: int|
            0 <= k < plan.len() ==> #[trigger] plan[k].ts_ms == from + k * step && from + k * step <= to,
{
    if close_ts.len() >= 2 {
        assert forall|k: int| 0 <= k < plan.len() implies #[trigger] plan[k].ts_ms == from + k * step && from + k
            * step <= to by {
            lemma_snapshot_within(from, to, step, k);
        }
    }
}

proof fn lemma_snapshot_within(from: int, to: int, step: int, k: int)
    requires
        step > 0,
        0 <= k < snapshot_count(from, to, step),
    ensures
        from + k * step <= to,
{
    let d = to - from;
    assert(d >= 0);
    assert(k <= d / step);
    assert(k * step <= d / step * step) by (nonlinear_arith)
        requires k <= d / step, step > 0;
    assert(d / step * step <= d) by (nonlinear_arith)
        requires d >= 0, step > 0;
}

} // verus!
