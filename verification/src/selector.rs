//! The asset selector's trade record: resolved trades per (script × symbol)
//! kept over a rolling 30-day window, one per market window, and their
//! per-pair counts of trades and wins.
use vstd::prelude::*;
use crate::text::push_text;

verus! {

/// The days of history the selector keeps.
pub const ROLLING_DAYS: i64 = 30;

/// The seconds of history the selector keeps.
pub const ROLLING_SECS: i64 = 2_592_000;

/// One resolved trade; `pnl` carries its profit, which the record never
/// inspects.
pub struct TradeEntry<P> {
    pub script: String,
    pub symbol: String,
    /// Window start, Unix seconds.
    pub window_ts: i64,
    pub won: bool,
    pub pnl: P,
}

/// Two trades of the same pair in the same window.
pub open spec fn same_trade<P>(a: TradeEntry<P>, b: TradeEntry<P>) -> bool {
    a.script@ == b.script@ && a.symbol@ == b.symbol@ && a.window_ts == b.window_ts
}

/// `s` without the trades of `e`'s pair and window.
pub open spec fn without_trade<P>(s: Seq<TradeEntry<P>>, e: TradeEntry<P>) -> Seq<TradeEntry<P>>
    decreases s.len(),
{
    if s.len() == 0 {
        Seq::empty()
    } else {
        let r = without_trade(s.drop_last(), e);
        if same_trade(s.last(), e) {
            r
        } else {
            r.push(s.last())
        }
    }
}

/// The trades of `s` whose window starts at or after `cutoff`.
pub open spec fn since<P>(s: Seq<TradeEntry<P>>, cutoff: int) -> Seq<TradeEntry<P>>
    decreases s.len(),
{
    if s.len() == 0 {
        Seq::empty()
    } else {
        let r = since(s.drop_last(), cutoff);
        if s.last().window_ts >= cutoff {
            r.push(s.last())
        } else {
            r
        }
    }
}

/// The record after the trade `e` is recorded at `now`: any earlier trade
/// of its pair and window replaced by it (appended last), and trades older
/// than the rolling window dropped.
pub open spec fn recorded<P>(s: Seq<TradeEntry<P>>, e: TradeEntry<P>, now: int) -> Seq<TradeEntry<P>> {
    since(without_trade(s, e).push(e), now - ROLLING_SECS)
}

proof fn lemma_since_push<P>(s: Seq<TradeEntry<P>>, x: TradeEntry<P>, cutoff: int)
    ensures
        since(s.push(x), cutoff) == if x.window_ts >= cutoff { since(s, cutoff).push(x) } else { since(s, cutoff) },
{
    assert(s.push(x).drop_last() =~= s);
}

proof fn lemma_without_push<P>(s: Seq<TradeEntry<P>>, x: TradeEntry<P>, e: TradeEntry<P>)
    ensures
        without_trade(s.push(x), e) == if same_trade(x, e) { without_trade(s, e) } else { without_trade(s, e).push(x) },
{
    assert(s.push(x).drop_last() =~= s);
}

/// Records the trade `entry` at the time `now` (see `recorded`).
pub fn record_entry<P>(entries: Vec<TradeEntry<P>>, entry: TradeEntry<P>, now: i64) -> (r: Vec<TradeEntry<P>>)
    ensures
        r@ == recorded(entries@, entry, now as int),
{
    let ghost s = entries@;
    let ghost c: int = now - ROLLING_SECS;
    // A time within the rolling window of the smallest `i64` keeps every trade.
    let keeps_all: bool = now < i64::MIN + ROLLING_SECS;
    let cutoff: i64 = if keeps_all { i64::MIN } else { now - ROLLING_SECS };
    // Reverse the record so that its trades can be taken out in order.
    let mut entries = entries;
    let n: usize = entries.len();
    let mut rev: Vec<TradeEntry<P>> = Vec::new();
    while entries.len() > 0
        invariant
            entries@ + rev@.reverse() == s,
        decreases entries@.len(),
    {
        let ghost before_rev = rev@;
        let ghost before = entries@;
        let x = entries.pop().unwrap();
        rev.push(x);
        proof {
            assert(rev@.reverse() =~= seq![x] + before_rev.reverse());
            assert(before =~= entries@.push(x));
            assert(entries@ + rev@.reverse() =~= before + before_rev.reverse());
        }
    }
    assert(rev@.reverse() =~= s);
    let mut kept: Vec<TradeEntry<P>> = Vec::new();
    let mut k: usize = 0;
    assert(s.take(0) =~= Seq::<TradeEntry<P>>::empty());
    while rev.len() > 0
        invariant
            k <= s.len(),
            s.len() == n,
            k + rev@.len() == s.len(),
            s.take(k as int) + rev@.reverse() == s,
            kept@ == without_trade(s.take(k as int), entry),
        decreases rev@.len(),
    {
        let ghost before_rev = rev@;
        let x = rev.pop().unwrap();
        proof {
            assert(before_rev =~= rev@.push(x));
            assert(before_rev.reverse() =~= seq![x] + rev@.reverse());
            assert(s.take(k as int) + (seq![x] + rev@.reverse()) == s);
            assert(s[k as int] == x) by {
                assert((s.take(k as int) + (seq![x] + rev@.reverse()))[k as int] == x);
            }
            assert(s.take(k as int + 1) =~= s.take(k as int).push(x));
            assert(s.take(k as int + 1) + rev@.reverse() =~= s.take(k as int) + (seq![x] + rev@.reverse()));
            lemma_without_push(s.take(k as int), x, entry);
        }
        let same = x.script == entry.script && x.symbol == entry.symbol && x.window_ts == entry.window_ts;
        if !same {
            kept.push(x);
        }
        k = k + 1;
    }
    assert(s.take(k as int) =~= s);
    kept.push(entry);
    let m: usize = kept.len();
    let ghost all = kept@;
    // Drop the trades older than the rolling window, keeping the order.
    let mut rev2: Vec<TradeEntry<P>> = Vec::new();
    while kept.len() > 0
        invariant
            kept@ + rev2@.reverse() == all,
        decreases kept@.len(),
    {
        let ghost before_rev = rev2@;
        let ghost before = kept@;
        let x = kept.pop().unwrap();
        rev2.push(x);
        proof {
            assert(rev2@.reverse() =~= seq![x] + before_rev.reverse());
            assert(before =~= kept@.push(x));
            assert(kept@ + rev2@.reverse() =~= before + before_rev.reverse());
        }
    }
    assert(rev2@.reverse() =~= all);
    let mut out: Vec<TradeEntry<P>> = Vec::new();
    let mut j: usize = 0;
    assert(all.take(0) =~= Seq::<TradeEntry<P>>::empty());
    while rev2.len() > 0
        invariant
            j <= all.len(),
            all.len() == m,
            j + rev2@.len() == all.len(),
            all.take(j as int) + rev2@.reverse() == all,
            out@ == since(all.take(j as int), c),
            c == now - ROLLING_SECS,
            keeps_all == (now < i64::MIN + ROLLING_SECS),
            !keeps_all ==> cutoff == c,
        decreases rev2@.len(),
    {
        let ghost before_rev = rev2@;
        let x = rev2.pop().unwrap();
        proof {
            assert(before_rev =~= rev2@.push(x));
            assert(before_rev.reverse() =~= seq![x] + rev2@.reverse());
            assert(all.take(j as int) + (seq![x] + rev2@.reverse()) == all);
            assert(all[j as int] == x) by {
                assert((all.take(j as int) + (seq![x] + rev2@.reverse()))[j as int] == x);
            }
            assert(all.take(j as int + 1) =~= all.take(j as int).push(x));
            assert(all.take(j as int + 1) + rev2@.reverse() =~= all.take(j as int) + (seq![x] + rev2@.reverse()));
            lemma_since_push(all.take(j as int), x, c);
        }
        if keeps_all || x.window_ts >= cutoff {
            out.push(x);
        }
        j = j + 1;
    }
    assert(all.take(j as int) =~= all);
    out
}


/// The name of a (script × symbol) pair.
pub open spec fn pair_key_of(script: Seq<char>, symbol: Seq<char>) -> Seq<char> {
    script + " × "@ + symbol
}

/// The pair name of a trade.
pub open spec fn entry_key<P>(e: TradeEntry<P>) -> Seq<char> {
    pair_key_of(e.script@, e.symbol@)
}

/// The number of trades of `s` of the pair `key` with a window at or after
/// `cutoff`.
pub open spec fn pair_trades<P>(s: Seq<TradeEntry<P>>, key: Seq<char>, cutoff: int) -> nat
    decreases s.len(),
{
    if s.len() == 0 {
        0
    } else {
        pair_trades(s.drop_last(), key, cutoff) + if entry_key(s.last()) == key && s.last().window_ts >= cutoff {
            1nat
        } else {
            0nat
        }
    }
}

/// The number of those trades that won.
pub open spec fn pair_wins<P>(s: Seq<TradeEntry<P>>, key: Seq<char>, cutoff: int) -> nat
    decreases s.len(),
{
    if s.len() == 0 {
        0
    } else {
        pair_wins(s.drop_last(), key, cutoff) + if entry_key(s.last()) == key && s.last().window_ts >= cutoff
            && s.last().won {
            1nat
        } else {
            0nat
        }
    }
}

/// The recent trades and wins of one pair.
pub struct PairCount {
    pub key: String,
    pub trades: usize,
    pub wins: usize,
}

/// The name of the pair `script` × `symbol`.
pub fn pair_key(script: &str, symbol: &str) -> (r: String)
    ensures
        r@ == pair_key_of(script@, symbol@),
{
    let mut s = String::new();
    push_text(&mut s, script);
    push_text(&mut s, " × ");
    push_text(&mut s, symbol);
    s
}

/// `groups` counts the trades of `s` from `cutoff` on: one group per pair
/// that has such a trade, with its numbers of trades and wins.
pub open spec fn counts_pairs<P>(groups: Seq<PairCount>, s: Seq<TradeEntry<P>>, cutoff: int) -> bool {
    &&& forall|a: int, b: int| 0 <= a < b < groups.len() ==> groups[a].key@ != groups[b].key@
    &&& forall|g: int| 0 <= g < groups.len() ==> {
        &&& (#[trigger] groups[g]).trades == pair_trades(s, groups[g].key@, cutoff)
        &&& groups[g].wins == pair_wins(s, groups[g].key@, cutoff)
        &&& groups[g].trades > 0
    }
    &&& forall|i: int| 0 <= i < s.len() && (#[trigger] s[i]).window_ts >= cutoff ==> exists|g: int|
        0 <= g < groups.len() && groups[g].key@ == entry_key(s[i])
}

proof fn lemma_pair_step<P>(s: Seq<TradeEntry<P>>, i: int, key: Seq<char>, cutoff: int)
    requires
        0 <= i < s.len(),
    ensures
        pair_trades(s.take(i + 1), key, cutoff) == pair_trades(s.take(i), key, cutoff) + if entry_key(s[i]) == key
            && s[i].window_ts >= cutoff {
            1nat
        } else {
            0nat
        },
        pair_wins(s.take(i + 1), key, cutoff) == pair_wins(s.take(i), key, cutoff) + if entry_key(s[i]) == key
            && s[i].window_ts >= cutoff && s[i].won {
            1nat
        } else {
            0nat
        },
        pair_trades(s.take(i), key, cutoff) <= i,
{
    assert(s.take(i + 1).drop_last() =~= s.take(i));
    assert(s.take(i + 1).last() == s[i]);
    lemma_pair_trades_bound(s.take(i), key, cutoff);
}

proof fn lemma_pair_trades_bound<P>(s: Seq<TradeEntry<P>>, key: Seq<char>, cutoff: int)
    ensures
        pair_trades(s, key, cutoff) <= s.len(),
        pair_wins(s, key, cutoff) <= pair_trades(s, key, cutoff),
    decreases s.len(),
{
    if s.len() > 0 {
        lemma_pair_trades_bound(s.drop_last(), key, cutoff);
    }
}

/// Counts the trades and wins of each pair over the trades from `cutoff` on,
/// pairs in the order their first such trade appears.
pub fn pair_counts<P>(entries: &Vec<TradeEntry<P>>, cutoff: i64) -> (r: Vec<PairCount>)
    ensures
        counts_pairs(r@, entries@, cutoff as int),
{
    let ghost s = entries@;
    let mut groups: Vec<PairCount> = Vec::new();
    let mut i: usize = 0;
    assert(s.take(0) =~= Seq::<TradeEntry<P>>::empty());
    while i < entries.len()
        invariant
            i <= s.len(),
            s == entries@,
            counts_pairs(groups@, s.take(i as int), cutoff as int),
            forall|g: int| 0 <= g < groups@.len() ==> (#[trigger] groups@[g]).trades <= i,
        decreases s.len() - i,
    {
        let e = &entries[i];
        let ghost before = groups@;
        proof {
            assert forall|kk: Seq<char>| true implies pair_trades(s.take(i as int + 1), kk, cutoff as int) == pair_trades(
                s.take(i as int),
                kk,
                cutoff as int,
            ) + (if entry_key(s[i as int]) == kk && s[i as int].window_ts >= cutoff { 1nat } else { 0nat })
                && pair_wins(s.take(i as int + 1), kk, cutoff as int) == pair_wins(s.take(i as int), kk, cutoff as int)
                + (if entry_key(s[i as int]) == kk && s[i as int].window_ts >= cutoff && s[i as int].won { 1nat } else {
                0nat
            }) by {
                lemma_pair_step(s, i as int, kk, cutoff as int);
            }
            assert forall|j: int| 0 <= j < i implies #[trigger] s.take(i as int + 1)[j] == s.take(i as int)[j] by {}
        }
        if e.window_ts >= cutoff {
            let key = pair_key(e.script.as_str(), e.symbol.as_str());
            let mut g: usize = 0;
            while g < groups.len() && !(groups[g].key == key)
                invariant
                    g <= groups@.len(),
                    groups@ == before,
                    forall|h: int| 0 <= h < g ==> before[h].key@ != key@,
                decreases groups@.len() - g,
            {
                g = g + 1;
            }
            let found = g < groups.len();
            if found {
                proof {
                    lemma_pair_trades_bound(s.take(i as int), key@, cutoff as int);
                }
                let t = groups[g].trades;
                let w = groups[g].wins;
                let w2: usize = if e.won { w + 1 } else { w };
                let k2 = pair_key(e.script.as_str(), e.symbol.as_str());
                groups.set(g, PairCount { key: k2, trades: t + 1, wins: w2 });
                proof {
                    assert forall|h: int| 0 <= h < groups@.len() && h != g implies groups@[h] == before[h] by {}
                    assert forall|ii: int| 0 <= ii < i + 1 && (#[trigger] s.take(i as int + 1)[ii]).window_ts >= cutoff implies exists|gg: int|
                        0 <= gg < groups@.len() && groups@[gg].key@ == entry_key(s.take(i as int + 1)[ii]) by {
                        if ii < i {
                            assert(s.take(i as int + 1)[ii] == s.take(i as int)[ii]);
                            let gg = choose|gg: int| 0 <= gg < before.len() && before[gg].key@ == entry_key(s.take(i as int)[ii]);
                            assert(groups@[gg].key@ == before[gg].key@);
                        } else {
                            assert(groups@[g as int].key@ == key@);
                        }
                    }
                }
            } else {
                let ghost kv = key@;
                groups.push(PairCount { key, trades: 1, wins: if e.won { 1 } else { 0 } });
                proof {
                    assert(pair_trades(s.take(i as int), kv, cutoff as int) == 0) by {
                        if pair_trades(s.take(i as int), kv, cutoff as int) > 0 {
                            lemma_pair_positive(s.take(i as int), kv, cutoff as int);
                            let ii = choose|ii: int| 0 <= ii < s.take(i as int).len() && entry_key(#[trigger] s.take(i as int)[ii]) == kv
                                && s.take(i as int)[ii].window_ts >= cutoff;
                            let gg = choose|gg: int| 0 <= gg < before.len() && before[gg].key@ == entry_key(s.take(i as int)[ii]);
                        }
                    }
                    lemma_pair_trades_bound(s.take(i as int), kv, cutoff as int);
                    assert forall|ii: int| 0 <= ii < i + 1 && (#[trigger] s.take(i as int + 1)[ii]).window_ts >= cutoff implies exists|gg: int|
                        0 <= gg < groups@.len() && groups@[gg].key@ == entry_key(s.take(i as int + 1)[ii]) by {
                        if ii < i {
                            assert(s.take(i as int + 1)[ii] == s.take(i as int)[ii]);
                            let gg = choose|gg: int| 0 <= gg < before.len() && before[gg].key@ == entry_key(s.take(i as int)[ii]);
                            assert(groups@[gg] == before[gg]);
                        } else {
                            assert(groups@[before.len() as int].key@ == kv);
                        }
                    }
                }
            }
        } else {
            proof {
                assert forall|ii: int| 0 <= ii < i + 1 && (#[trigger] s.take(i as int + 1)[ii]).window_ts >= cutoff implies exists|gg: int|
                    0 <= gg < groups@.len() && groups@[gg].key@ == entry_key(s.take(i as int + 1)[ii]) by {
                    assert(ii < i);
                    assert(s.take(i as int + 1)[ii] == s.take(i as int)[ii]);
                }
            }
        }
        i = i + 1;
    }
    assert(s.take(i as int) =~= s);
    groups
}

proof fn lemma_pair_positive<P>(s: Seq<TradeEntry<P>>, key: Seq<char>, cutoff: int)
    requires
        pair_trades(s, key, cutoff) > 0,
    ensures
        exists|ii: int| 0 <= ii < s.len() && entry_key(#[trigger] s[ii]) == key && s[ii].window_ts >= cutoff,
    decreases s.len(),
{
    let d = s.drop_last();
    if pair_trades(d, key, cutoff) > 0 {
        lemma_pair_positive(d, key, cutoff);
        let ii = choose|ii: int| 0 <= ii < d.len() && entry_key(#[trigger] d[ii]) == key && d[ii].window_ts >= cutoff;
        assert(s[ii] == d[ii]);
    } else {
        assert(s[s.len() - 1] == s.last());
    }
}


proof fn lemma_without_idem<P>(s: Seq<TradeEntry<P>>, e: TradeEntry<P>)
    ensures
        without_trade(without_trade(s, e), e) == without_trade(s, e),
    decreases s.len(),
{
    if s.len() > 0 {
        lemma_without_idem(s.drop_last(), e);
        let r = without_trade(s.drop_last(), e);
        if !same_trade(s.last(), e) {
            lemma_without_push(r, s.last(), e);
        }
    }
}

proof fn lemma_since_idem<P>(s: Seq<TradeEntry<P>>, c: int)
    ensures
        since(since(s, c), c) == since(s, c),
    decreases s.len(),
{
    if s.len() > 0 {
        lemma_since_idem(s.drop_last(), c);
        let r = since(s.drop_last(), c);
        if s.last().window_ts >= c {
            lemma_since_push(r, s.last(), c);
        }
    }
}

proof fn lemma_since_without_commute<P>(s: Seq<TradeEntry<P>>, e: TradeEntry<P>, c: int)
    ensures
        without_trade(since(s, c), e) == since(without_trade(s, e), c),
    decreases s.len(),
{
    if s.len() > 0 {
        let d = s.drop_last();
        let x = s.last();
        lemma_since_without_commute(d, e, c);
        if x.window_ts >= c {
            lemma_without_push(since(d, c), x, e);
        }
        if !same_trade(x, e) {
            lemma_since_push(without_trade(d, e), x, c);
        }
    }
}

/// Recording a trade again, at the same time, changes nothing: a re-record
/// is idempotent.
pub proof fn law_record_idempotent<P>(s: Seq<TradeEntry<P>>, e: TradeEntry<P>, now: int)
    ensures
        recorded(recorded(s, e, now), e, now) == recorded(s, e, now),
{
    let c = now - ROLLING_SECS;
    let a = without_trade(s, e);
    assert(same_trade(e, e));
    lemma_since_without_commute(a.push(e), e, c);
    lemma_without_push(a, e, e);
    lemma_without_idem(s, e);
    lemma_since_push(since(a, c), e, c);
    lemma_since_push(a, e, c);
    lemma_since_idem(a, c);
}

/// A recorded trade within the rolling window ends the record, and no other
/// trade of its pair and window remains.
pub proof fn law_record_replaces<P>(s: Seq<TradeEntry<P>>, e: TradeEntry<P>, now: int)
    requires
        e.window_ts >= now - ROLLING_SECS,
    ensures
        recorded(s, e, now).last() == e,
        forall|i: int| 0 <= i < recorded(s, e, now).len() - 1 ==> !same_trade(#[trigger] recorded(s, e, now)[i], e),
{
    let c = now - ROLLING_SECS;
    let a = without_trade(s, e);
    lemma_since_push(a, e, c);
    lemma_without_none(s, e);
    lemma_since_keeps_none(a, e, c);
    assert forall|i: int| 0 <= i < recorded(s, e, now).len() - 1 implies !same_trade(#[trigger] recorded(s, e, now)[i], e) by {
        assert(recorded(s, e, now)[i] == since(a, c)[i]);
    }
}

proof fn lemma_without_none<P>(s: Seq<TradeEntry<P>>, e: TradeEntry<P>)
    ensures
        forall|i: int| 0 <= i < without_trade(s, e).len() ==> !same_trade(#[trigger] without_trade(s, e)[i], e),
    decreases s.len(),
{
    if s.len() > 0 {
        lemma_without_none(s.drop_last(), e);
        let r = without_trade(s.drop_last(), e);
        assert forall|i: int| 0 <= i < without_trade(s, e).len() implies !same_trade(#[trigger] without_trade(s, e)[i], e) by {
            if !same_trade(s.last(), e) && i < r.len() {
                assert(r.push(s.last())[i] == r[i]);
            }
        }
    }
}

proof fn lemma_since_keeps_none<P>(s: Seq<TradeEntry<P>>, e: TradeEntry<P>, c: int)
    requires
        forall|i: int| 0 <= i < s.len() ==> !same_trade(#[trigger] s[i], e),
    ensures
        forall|i: int| 0 <= i < since(s, c).len() ==> !same_trade(#[trigger] since(s, c)[i], e),
    decreases s.len(),
{
    if s.len() > 0 {
        let d = s.drop_last();
        assert forall|i: int| 0 <= i < d.len() implies !same_trade(#[trigger] d[i], e) by {
            assert(d[i] == s[i]);
        }
        lemma_since_keeps_none(d, e, c);
        assert(s.last() == s[s.len() - 1]);
        let r = since(d, c);
        assert forall|i: int| 0 <= i < since(s, c).len() implies !same_trade(#[trigger] since(s, c)[i], e) by {
            if s.last().window_ts >= c && i < r.len() {
                assert(r.push(s.last())[i] == r[i]);
            }
        }
    }
}

} // verus!
