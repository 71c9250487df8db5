//! The live strategy runner registry: each runner's configuration, status and
//! result, keyed by runner id, with the status transitions the runners go
//! through (starting, running, stopped, error).
use vstd::prelude::*;
use crate::lines::{rolled_log, rolled_log_of};
use crate::text::{chars_of, decimal, string_of, to_upper, trim_white, trimmed, upper_of, lemma_lex_total, lemma_lex_trans, lex_le, lex_le_chars, push_decimal, push_text};

verus! {

/// How a live runner sizes its orders.
#[derive(Clone, Copy, Debug, PartialEq, Eq, Structural)]
pub enum LiveSizingMode {
    Percent,
    Fixed,
}

impl Default for LiveSizingMode {
    fn default() -> (r: Self)
        ensures
            r == LiveSizingMode::Percent,
    {
        LiveSizingMode::Percent
    }
}

/// Where a runner stands: its lifecycle state and tick timestamps.
#[derive(Clone, Debug)]
pub struct RunnerStatus {
    pub id: String,
    pub status: String,
    pub started_at: String,
    pub last_tick_at: Option<String>,
    pub next_tick_at: Option<String>,
    pub error: Option<String>,
}

/// Default for `auto_restart` in a runner configuration.
pub fn default_auto_restart() -> (r: bool)
    ensures
        r,
{
    true
}

/// Default polling interval of the Chainlink price feed, in seconds.
pub fn default_chainlink_interval() -> (r: u64)
    ensures
        r == 5,
{
    5
}

/// Default coins watched by the funding-rate arbitrage.
pub fn default_funding_watchlist() -> (r: Vec<String>)
    ensures
        r@.len() == 4,
        r@[0]@ == "BTC"@,
        r@[1]@ == "ETH"@,
        r@[2]@ == "SOL"@,
        r@[3]@ == "AVAX"@,
{
    let mut v: Vec<String> = Vec::new();
    v.push("BTC".to_owned());
    v.push("ETH".to_owned());
    v.push("SOL".to_owned());
    v.push("AVAX".to_owned());
    v
}

/// Default number of funding-arbitrage pairs open at once.
pub fn default_max_open_pairs() -> (r: usize)
    ensures
        r == 4,
{
    4
}

/// Default polling interval of the funding rates, in seconds.
pub fn default_funding_poll_secs() -> (r: u64)
    ensures
        r == 60,
{
    60
}

/// What the registry reads of a runner's configuration; `settings` carries
/// the rest (sizing, risk limits, credentials), which it never inspects.
#[derive(Clone, Debug)]
pub struct RunnerConfig<S> {
    pub id: String,
    pub name: String,
    pub script: String,
    pub market_type: String,
    pub symbol: String,
    pub interval: String,
    pub mode: String,
    pub auto_restart: bool,
    pub series_id: Option<String>,
    pub kind: Option<String>,
    pub poly_token_id: Option<String>,
    pub poly_no_token_id: Option<String>,
    pub poly_condition_id: Option<String>,
    pub wallet_address: Option<String>,
    pub settings: S,
}

/// One registered runner.
#[derive(Clone, Debug)]
pub struct StoredRunner<S, R> {
    pub config: RunnerConfig<S>,
    pub status: RunnerStatus,
    pub result: Option<R>,
    pub hidden: bool,
}

/// The runner's key in the registry.
pub open spec fn key_of<S, R>(r: StoredRunner<S, R>) -> Seq<char> {
    r.config.id@
}

/// A runner that is to be restarted: marked starting and allowed to restart.
pub open spec fn is_restartable<S, R>(r: StoredRunner<S, R>) -> bool {
    r.status.status@ == "starting"@ && r.config.auto_restart
}

/// A live-mode runner that is running.
pub open spec fn is_live_running<S, R>(r: StoredRunner<S, R>) -> bool {
    r.config.mode@ == "live"@ && r.status.status@ == "running"@
}

/// `after` is `before` with only the status word replaced by `word`.
pub open spec fn status_set<S, R>(before: StoredRunner<S, R>, after: StoredRunner<S, R>, word: Seq<char>) -> bool {
    &&& after.config == before.config
    &&& after.result == before.result
    &&& after.hidden == before.hidden
    &&& after.status.id == before.status.id
    &&& after.status.started_at == before.status.started_at
    &&& after.status.last_tick_at == before.status.last_tick_at
    &&& after.status.next_tick_at == before.status.next_tick_at
    &&& after.status.error == before.status.error
    &&& after.status.status@ == word
}

/// `after` is `before` with only the status word set to `word` and the
/// error note set to `note`.
pub open spec fn status_note_set<S, R>(
    before: StoredRunner<S, R>,
    after: StoredRunner<S, R>,
    word: Seq<char>,
    note: Option<Seq<char>>,
) -> bool {
    &&& after.config == before.config
    &&& after.result == before.result
    &&& after.hidden == before.hidden
    &&& after.status.id == before.status.id
    &&& after.status.started_at == before.status.started_at
    &&& after.status.last_tick_at == before.status.last_tick_at
    &&& after.status.next_tick_at == before.status.next_tick_at
    &&& after.status.status@ == word
    &&& match note {
        Some(n) => after.status.error matches Some(e) && e@ == n,
        None => after.status.error is None,
    }
}

/// `after` is `before` with only the error note set to `note`.
pub open spec fn note_set<S, R>(before: StoredRunner<S, R>, after: StoredRunner<S, R>, note: Seq<char>) -> bool {
    &&& after.config == before.config
    &&& after.result == before.result
    &&& after.hidden == before.hidden
    &&& after.status.id == before.status.id
    &&& after.status.status == before.status.status
    &&& after.status.started_at == before.status.started_at
    &&& after.status.last_tick_at == before.status.last_tick_at
    &&& after.status.next_tick_at == before.status.next_tick_at
    &&& after.status.error matches Some(e) && e@ == note
}

/// `after` is `before` with only the configuration's restart flag set to
/// `flag`.
pub open spec fn restart_flag_set<S, R>(before: StoredRunner<S, R>, after: StoredRunner<S, R>, flag: bool) -> bool {
    after == (StoredRunner { config: RunnerConfig { auto_restart: flag, ..before.config }, ..before })
}

/// `after` holds the same runners as `before`, and all but the one under
/// `id` unchanged.
pub open spec fn others_kept<S, R>(
    before: Map<Seq<char>, StoredRunner<S, R>>,
    after: Map<Seq<char>, StoredRunner<S, R>>,
    id: Seq<char>,
) -> bool {
    &&& after.dom() == before.dom()
    &&& forall|k: Seq<char>| #[trigger] before.contains_key(k) && k != id ==> after[k] == before[k]
}

/// No two runners of `s` share an id.
pub open spec fn ids_unique<S, R>(s: Seq<StoredRunner<S, R>>) -> bool {
    forall|i: int, j: int| 0 <= i < j < s.len() ==> key_of(#[trigger] s[i]) != key_of(#[trigger] s[j])
}

/// Some runner of `s` has the id `k`.
pub open spec fn has_key<S, R>(s: Seq<StoredRunner<S, R>>, k: Seq<char>) -> bool {
    exists|i: int| 0 <= i < s.len() && key_of(#[trigger] s[i]) == k
}

/// The runners of `s` by id.
pub open spec fn map_of<S, R>(s: Seq<StoredRunner<S, R>>) -> Map<Seq<char>, StoredRunner<S, R>> {
    Map::new(
        |k: Seq<char>| has_key(s, k),
        |k: Seq<char>| s[choose|i: int| 0 <= i < s.len() && key_of(#[trigger] s[i]) == k],
    )
}

proof fn lemma_map_at<S, R>(s: Seq<StoredRunner<S, R>>, i: int)
    requires
        ids_unique(s),
        0 <= i < s.len(),
    ensures
        map_of(s).contains_key(key_of(s[i])),
        map_of(s)[key_of(s[i])] == s[i],
{
    let k = key_of(s[i]);
    assert(has_key(s, k));
    let j = choose|j: int| 0 <= j < s.len() && key_of(#[trigger] s[j]) == k;
    if j < i {
        assert(key_of(s[j]) != key_of(s[i]));
    } else if i < j {
        assert(key_of(s[i]) != key_of(s[j]));
    }
}

proof fn lemma_map_all<S, R>(s: Seq<StoredRunner<S, R>>)
    requires
        ids_unique(s),
    ensures
        forall|i: int| 0 <= i < s.len() ==> #[trigger] map_of(s).contains_key(key_of(s[i])) && map_of(s)[key_of(s[i])] == s[i],
        forall|k: Seq<char>| #[trigger] map_of(s).contains_key(k) ==> has_key(s, k),
{
    assert forall|i: int| 0 <= i < s.len() implies #[trigger] map_of(s).contains_key(key_of(s[i])) && map_of(s)[key_of(s[i])] == s[i] by {
        lemma_map_at(s, i);
    }
}

proof fn lemma_map_update<S, R>(s: Seq<StoredRunner<S, R>>, i: int, x: StoredRunner<S, R>)
    requires
        ids_unique(s),
        0 <= i < s.len(),
        key_of(x) == key_of(s[i]),
    ensures
        ids_unique(s.update(i, x)),
        map_of(s.update(i, x)) == map_of(s).insert(key_of(x), x),
{
    let t = s.update(i, x);
    assert forall|a: int, b: int| 0 <= a < b < t.len() implies key_of(#[trigger] t[a]) != key_of(#[trigger] t[b]) by {
        assert(key_of(t[a]) == key_of(s[a]));
        assert(key_of(t[b]) == key_of(s[b]));
    }
    lemma_map_all(s);
    lemma_map_all(t);
    let m = map_of(s).insert(key_of(x), x);
    assert forall|k: Seq<char>| #[trigger] map_of(t).contains_key(k) <==> m.contains_key(k) by {
        if map_of(t).contains_key(k) {
            let j = choose|j: int| 0 <= j < t.len() && key_of(#[trigger] t[j]) == k;
            if j != i {
                assert(key_of(s[j]) == k);
                assert(map_of(s).contains_key(key_of(s[j])));
            }
        }
        if m.contains_key(k) && k != key_of(x) {
            let j = choose|j: int| 0 <= j < s.len() && key_of(#[trigger] s[j]) == k;
            assert(key_of(t[j]) == k);
            assert(map_of(t).contains_key(key_of(t[j])));
        }
        if k == key_of(x) {
            assert(map_of(t).contains_key(key_of(t[i])));
        }
    }
    assert forall|k: Seq<char>| #[trigger] map_of(t).contains_key(k) implies map_of(t)[k] == m[k] by {
        let j = choose|j: int| 0 <= j < t.len() && key_of(#[trigger] t[j]) == k;
        assert(map_of(t).contains_key(key_of(t[j])));
        if j != i {
            assert(key_of(s[j]) == k);
            assert(map_of(s).contains_key(key_of(s[j])));
        }
    }
    assert(map_of(t) =~= m);
}

proof fn lemma_map_push<S, R>(s: Seq<StoredRunner<S, R>>, x: StoredRunner<S, R>)
    requires
        ids_unique(s),
        !has_key(s, key_of(x)),
    ensures
        ids_unique(s.push(x)),
        map_of(s.push(x)) == map_of(s).insert(key_of(x), x),
{
    let t = s.push(x);
    assert forall|a: int, b: int| 0 <= a < b < t.len() implies key_of(#[trigger] t[a]) != key_of(#[trigger] t[b]) by {
        if b == s.len() {
            assert(key_of(t[a]) == key_of(s[a]));
        }
    }
    lemma_map_all(s);
    lemma_map_all(t);
    let m = map_of(s).insert(key_of(x), x);
    assert forall|k: Seq<char>| #[trigger] map_of(t).contains_key(k) <==> m.contains_key(k) by {
        if map_of(t).contains_key(k) {
            let j = choose|j: int| 0 <= j < t.len() && key_of(#[trigger] t[j]) == k;
            if j < s.len() {
                assert(key_of(s[j]) == k);
                assert(map_of(s).contains_key(key_of(s[j])));
            }
        }
        if m.contains_key(k) && k != key_of(x) {
            let j = choose|j: int| 0 <= j < s.len() && key_of(#[trigger] s[j]) == k;
            assert(key_of(t[j]) == k);
            assert(map_of(t).contains_key(key_of(t[j])));
        }
        if k == key_of(x) {
            assert(map_of(t).contains_key(key_of(t[s.len() as int])));
        }
    }
    assert forall|k: Seq<char>| #[trigger] map_of(t).contains_key(k) implies map_of(t)[k] == m[k] by {
        let j = choose|j: int| 0 <= j < t.len() && key_of(#[trigger] t[j]) == k;
        assert(map_of(t).contains_key(key_of(t[j])));
        if j < s.len() {
            assert(key_of(s[j]) == k);
            assert(map_of(s).contains_key(key_of(s[j])));
        }
    }
    assert(map_of(t) =~= m);
}

proof fn lemma_map_remove<S, R>(s: Seq<StoredRunner<S, R>>, i: int)
    requires
        ids_unique(s),
        0 <= i < s.len(),
    ensures
        ids_unique(s.remove(i)),
        map_of(s.remove(i)) == map_of(s).remove(key_of(s[i])),
{
    let t = s.remove(i);
    let gone = key_of(s[i]);
    assert forall|a: int, b: int| 0 <= a < b < t.len() implies key_of(#[trigger] t[a]) != key_of(#[trigger] t[b]) by {
        let a2 = if a < i { a } else { a + 1 };
        let b2 = if b < i { b } else { b + 1 };
        assert(t[a] == s[a2]);
        assert(t[b] == s[b2]);
    }
    lemma_map_all(s);
    lemma_map_all(t);
    let m = map_of(s).remove(gone);
    assert forall|k: Seq<char>| #[trigger] map_of(t).contains_key(k) <==> m.contains_key(k) by {
        if map_of(t).contains_key(k) {
            let j = choose|j: int| 0 <= j < t.len() && key_of(#[trigger] t[j]) == k;
            let j2 = if j < i { j } else { j + 1 };
            assert(t[j] == s[j2]);
            assert(map_of(s).contains_key(key_of(s[j2])));
            assert(j2 != i);
        }
        if m.contains_key(k) {
            let j = choose|j: int| 0 <= j < s.len() && key_of(#[trigger] s[j]) == k;
            assert(j != i);
            let j1 = if j < i { j } else { j - 1 };
            assert(t[j1] == s[j]);
            assert(map_of(t).contains_key(key_of(t[j1])));
        }
    }
    assert forall|k: Seq<char>| #[trigger] map_of(t).contains_key(k) implies map_of(t)[k] == m[k] by {
        let j = choose|j: int| 0 <= j < t.len() && key_of(#[trigger] t[j]) == k;
        let j2 = if j < i { j } else { j + 1 };
        assert(t[j] == s[j2]);
        assert(map_of(t).contains_key(key_of(t[j])));
        assert(map_of(s).contains_key(key_of(s[j2])));
    }
    assert(map_of(t) =~= m);
}

proof fn lemma_insert_kept<S, R>(m: Map<Seq<char>, StoredRunner<S, R>>, k: Seq<char>, x: StoredRunner<S, R>)
    requires
        m.contains_key(k),
    ensures
        others_kept(m, m.insert(k, x), k),
        m.insert(k, x)[k] == x,
{
    assert(m.insert(k, x).dom() =~= m.dom());
}

/// `keys` names, once each, exactly the runners of `m` that `pick` selects.
pub open spec fn lists_exactly<S, R>(
    m: Map<Seq<char>, StoredRunner<S, R>>,
    keys: Seq<Seq<char>>,
    pick: spec_fn(StoredRunner<S, R>) -> bool,
) -> bool {
    &&& forall|j: int| 0 <= j < keys.len() ==> #[trigger] m.contains_key(keys[j]) && pick(m[keys[j]])
    &&& forall|k: Seq<char>| #[trigger] m.contains_key(k) && pick(m[k]) ==> keys.contains(k)
    &&& forall|a: int, b: int| 0 <= a < b < keys.len() ==> keys[a] != keys[b]
}

/// `idx` picks, in increasing order, exactly the positions of `s` below
/// `upto` whose runner `pick` selects.
pub open spec fn picked_upto<S, R>(
    s: Seq<StoredRunner<S, R>>,
    idx: Seq<int>,
    pick: spec_fn(StoredRunner<S, R>) -> bool,
    upto: int,
) -> bool {
    &&& forall|j: int| 0 <= j < idx.len() ==> 0 <= #[trigger] idx[j] < upto && pick(s[idx[j]])
    &&& forall|a: int, b: int| 0 <= a < b < idx.len() ==> idx[a] < idx[b]
    &&& forall|i: int| 0 <= i < upto && pick(#[trigger] s[i]) ==> idx.contains(i)
}

proof fn lemma_picked_step<S, R>(
    s: Seq<StoredRunner<S, R>>,
    idx: Seq<int>,
    pick: spec_fn(StoredRunner<S, R>) -> bool,
    k: int,
)
    requires
        picked_upto(s, idx, pick, k),
        0 <= k < s.len(),
    ensures
        pick(s[k]) ==> picked_upto(s, idx.push(k), pick, k + 1),
        !pick(s[k]) ==> picked_upto(s, idx, pick, k + 1),
{
    if pick(s[k]) {
        let t = idx.push(k);
        assert forall|i: int| 0 <= i < k + 1 && pick(#[trigger] s[i]) implies t.contains(i) by {
            if i < k {
                let j = choose|j: int| 0 <= j < idx.len() && idx[j] == i;
                assert(t[j] == i);
            } else {
                assert(t[idx.len() as int] == i);
            }
        }
    }
}

proof fn lemma_picked_keys<S, R>(
    s: Seq<StoredRunner<S, R>>,
    idx: Seq<int>,
    pick: spec_fn(StoredRunner<S, R>) -> bool,
)
    requires
        ids_unique(s),
        picked_upto(s, idx, pick, s.len() as int),
    ensures
        lists_exactly(map_of(s), idx.map_values(|i: int| key_of(s[i])), pick),
        forall|j: int| 0 <= j < idx.len() ==> map_of(s)[key_of(s[#[trigger] idx[j]])] == s[idx[j]],
{
    lemma_map_all(s);
    let keys = idx.map_values(|i: int| key_of(s[i]));
    assert forall|j: int| 0 <= j < idx.len() implies map_of(s)[key_of(s[#[trigger] idx[j]])] == s[idx[j]] by {
        lemma_map_at(s, idx[j]);
    }
    assert forall|j: int| 0 <= j < keys.len() implies #[trigger] map_of(s).contains_key(keys[j]) && pick(map_of(s)[keys[j]]) by {
        lemma_map_at(s, idx[j]);
    }
    assert forall|k: Seq<char>| #[trigger] map_of(s).contains_key(k) && pick(map_of(s)[k]) implies keys.contains(k) by {
        let i = choose|i: int| 0 <= i < s.len() && key_of(#[trigger] s[i]) == k;
        lemma_map_at(s, i);
        assert(idx.contains(i));
        let j = choose|j: int| 0 <= j < idx.len() && idx[j] == i;
        assert(keys[j] == k);
    }
    assert forall|a: int, b: int| 0 <= a < b < keys.len() implies keys[a] != keys[b] by {
        assert(idx[a] < idx[b]);
    }
}

proof fn lemma_map_pointwise<S, R>(s0: Seq<StoredRunner<S, R>>, s1: Seq<StoredRunner<S, R>>)
    requires
        ids_unique(s0),
        s1.len() == s0.len(),
        forall|i: int| 0 <= i < s0.len() ==> key_of(#[trigger] s1[i]) == key_of(s0[i]),
    ensures
        ids_unique(s1),
        map_of(s1).dom() == map_of(s0).dom(),
        forall|i: int| 0 <= i < s0.len() ==> map_of(s1)[key_of(#[trigger] s0[i])] == s1[i],
        forall|i: int| 0 <= i < s0.len() ==> map_of(s0)[key_of(#[trigger] s0[i])] == s0[i],
{
    assert forall|a: int, b: int| 0 <= a < b < s1.len() implies key_of(#[trigger] s1[a]) != key_of(#[trigger] s1[b]) by {
        assert(key_of(s1[a]) == key_of(s0[a]));
        assert(key_of(s1[b]) == key_of(s0[b]));
    }
    lemma_map_all(s0);
    lemma_map_all(s1);
    assert forall|k: Seq<char>| map_of(s1).dom().contains(k) <==> map_of(s0).dom().contains(k) by {
        if map_of(s1).contains_key(k) {
            let i = choose|i: int| 0 <= i < s1.len() && key_of(#[trigger] s1[i]) == k;
            assert(map_of(s0).contains_key(key_of(s0[i])));
        }
        if map_of(s0).contains_key(k) {
            let i = choose|i: int| 0 <= i < s0.len() && key_of(#[trigger] s0[i]) == k;
            assert(map_of(s1).contains_key(key_of(s1[i])));
        }
    }
    assert(map_of(s1).dom() =~= map_of(s0).dom());
    assert forall|i: int| 0 <= i < s0.len() implies map_of(s1)[key_of(#[trigger] s0[i])] == s1[i] by {
        assert(map_of(s1)[key_of(s1[i])] == s1[i]);
    }
}

/// What reloading a saved runner makes of it: one that was running or
/// starting comes back starting when it may restart by itself and stopped
/// otherwise; any other runner comes back as saved.
pub open spec fn restored<S, R>(saved: StoredRunner<S, R>, after: StoredRunner<S, R>) -> bool {
    if saved.status.status@ == "running"@ || saved.status.status@ == "starting"@ {
        status_set(saved, after, if saved.config.auto_restart { "starting"@ } else { "stopped"@ })
    } else {
        after == saved
    }
}

/// The position of the last runner of `s` with the id `k`, or -1.
pub open spec fn last_index<S, R>(s: Seq<StoredRunner<S, R>>, k: Seq<char>) -> int
    decreases s.len(),
{
    if s.len() == 0 {
        -1
    } else if key_of(s.last()) == k {
        s.len() - 1
    } else {
        last_index(s.drop_last(), k)
    }
}

/// `last_index` names a runner with that id, and none comes after it.
pub proof fn lemma_last_index<S, R>(s: Seq<StoredRunner<S, R>>, k: Seq<char>)
    ensures
        -1 <= last_index(s, k) < s.len(),
        last_index(s, k) >= 0 ==> key_of(s[last_index(s, k)]) == k,
        forall|j: int| last_index(s, k) < j < s.len() ==> key_of(#[trigger] s[j]) != k,
        last_index(s, k) < 0 <==> !has_key(s, k),
    decreases s.len(),
{
    if s.len() > 0 {
        lemma_last_index(s.drop_last(), k);
        if key_of(s.last()) != k {
            if has_key(s, k) {
                let i = choose|i: int| 0 <= i < s.len() && key_of(#[trigger] s[i]) == k;
                assert(s.drop_last()[i] == s[i]);
            }
            assert forall|j: int| last_index(s, k) < j < s.len() implies key_of(#[trigger] s[j]) != k by {
                if j < s.len() - 1 {
                    assert(s.drop_last()[j] == s[j]);
                }
            }
        } else {
            assert(key_of(s[s.len() - 1]) == k);
        }
    }
}

/// A built-in market series: its id, the asset symbol it trades and its
/// cadence (such as `5m`).
pub struct SeriesInfo {
    pub id: String,
    pub symbol: String,
    pub cadence: String,
}

/// `c` with an ASCII capital letter made small.
pub open spec fn ascii_lower(c: char) -> char {
    if 'A' <= c && c <= 'Z' {
        ((c as u32) + 32) as char
    } else {
        c
    }
}

/// `a` and `b` are equal up to ASCII case (`str::eq_ignore_ascii_case`).
pub open spec fn eq_ascii_nocase(a: Seq<char>, b: Seq<char>) -> bool {
    a.len() == b.len() && forall|i: int| 0 <= i < a.len() ==> ascii_lower(#[trigger] a[i]) == ascii_lower(b[i])
}

/// The part of `s` before its first comma (all of it when it has none).
pub open spec fn first_field(s: Seq<char>) -> Seq<char>
    decreases s.len(),
{
    if s.len() == 0 {
        s
    } else if s[0] == ',' {
        Seq::empty()
    } else {
        seq![s[0]] + first_field(s.drop_first())
    }
}

/// The asset a runner's symbol names: its first comma-separated part,
/// trimmed and upper-cased.
pub open spec fn series_asset(symbol: Seq<char>) -> Seq<char> {
    upper_of(trimmed(first_field(symbol)))
}

/// The series of `catalogue` at `j` trades `asset` (and, when `cadence` is
/// given, at that cadence).
pub open spec fn series_matches(catalogue: Seq<SeriesInfo>, j: int, asset: Seq<char>, cadence: Option<Seq<char>>) -> bool {
    eq_ascii_nocase(catalogue[j].symbol@, asset) && match cadence {
        Some(c) => catalogue[j].cadence@ == c,
        None => true,
    }
}

/// The first series of `catalogue` that matches, if any.
pub open spec fn first_match(catalogue: Seq<SeriesInfo>, asset: Seq<char>, cadence: Option<Seq<char>>) -> Option<int> {
    if exists|j: int| 0 <= j < catalogue.len() && series_matches(catalogue, j, asset, cadence) {
        Some(choose|j: int| 0 <= j < catalogue.len() && series_matches(catalogue, j, asset, cadence)
            && forall|k: int| 0 <= k < j ==> !series_matches(catalogue, k, asset, cadence))
    } else {
        None
    }
}

/// The series an engine runner without one is given: none for the legacy
/// candle engine, for a runner that has a series, or for an empty asset;
/// else the first series of its asset at its cadence (`5m` when it has no
/// interval), or failing that the first series of its asset.
pub open spec fn backfilled_series<S>(config: RunnerConfig<S>, catalogue: Seq<SeriesInfo>) -> Option<int> {
    let kind = match config.kind {
        Some(k) => k@,
        None => "rhai_candle"@,
    };
    let needs = match config.series_id {
        Some(s) => s@.len() == 0,
        None => true,
    };
    let asset = series_asset(config.symbol@);
    let cadence = if config.interval@.len() == 0 { "5m"@ } else { config.interval@ };
    if kind == "rhai_candle"@ || kind.len() == 0 || !needs || asset.len() == 0 {
        None
    } else {
        match first_match(catalogue, asset, Some(cadence)) {
            Some(j) => Some(j),
            None => first_match(catalogue, asset, None),
        }
    }
}

fn first_field_chars(s: &Vec<char>) -> (r: Vec<char>)
    ensures
        r@ == first_field(s@),
{
    let mut r: Vec<char> = Vec::new();
    let mut i: usize = 0;
    assert(s@.skip(0) =~= s@);
    while i < s.len() && s[i] != ','
        invariant
            i <= s@.len(),
            first_field(s@) == r@ + first_field(s@.skip(i as int)),
        decreases s@.len() - i,
    {
        let ghost rest = s@.skip(i as int);
        assert(rest[0] == s@[i as int]);
        assert(rest.drop_first() =~= s@.skip(i as int + 1));
        r.push(s[i]);
        proof {
            assert(r@ + first_field(s@.skip(i as int + 1)) =~= r@.drop_last() + (seq![s@[i as int]] + first_field(rest.drop_first())));
        }
        i = i + 1;
    }
    proof {
        let rest = s@.skip(i as int);
        if i < s@.len() {
            assert(rest[0] == ',');
        }
        assert(r@ + first_field(rest) =~= r@);
    }
    r
}

fn char_ascii_lower(c: char) -> (r: char)
    ensures
        r == ascii_lower(c),
{
    if 'A' <= c && c <= 'Z' {
        let u = (c as u32) + 32;
        assert(u <= 0x7a);
        (u as u8) as char
    } else {
        c
    }
}

fn eq_nocase(a: &Vec<char>, b: &Vec<char>) -> (r: bool)
    ensures
        r == eq_ascii_nocase(a@, b@),
{
    if a.len() != b.len() {
        return false;
    }
    let mut i: usize = 0;
    while i < a.len()
        invariant
            i <= a@.len(),
            a@.len() == b@.len(),
            forall|k: int| 0 <= k < i ==> ascii_lower(#[trigger] a@[k]) == ascii_lower(b@[k]),
        decreases a@.len() - i,
    {
        if char_ascii_lower(a[i]) != char_ascii_lower(b[i]) {
            return false;
        }
        i = i + 1;
    }
    true
}

fn find_series(catalogue: &Vec<SeriesInfo>, asset: &Vec<char>, cadence: Option<&Vec<char>>) -> (r: Option<usize>)
    ensures
        match r {
            Some(j) => j < catalogue@.len() && first_match(catalogue@, asset@, match cadence { Some(c) => Some(c@), None => None }) == Some(j as int),
            None => first_match(catalogue@, asset@, match cadence { Some(c) => Some(c@), None => None }) is None,
        },
{
    let ghost cad = match cadence { Some(c) => Some(c@), None => None };
    let mut j: usize = 0;
    while j < catalogue.len()
        invariant
            j <= catalogue@.len(),
            cad == (match cadence { Some(c) => Some(c@), None => None::<Seq<char>> }),
            forall|k: int| 0 <= k < j ==> !series_matches(catalogue@, k, asset@, cad),
        decreases catalogue@.len() - j,
    {
        let sym = chars_of(catalogue[j].symbol.as_str());
        let ok = eq_nocase(&sym, asset) && match cadence {
            Some(c) => crate::text::same_chars(&chars_of(catalogue[j].cadence.as_str()), c),
            None => true,
        };
        if ok {
            proof {
                assert(series_matches(catalogue@, j as int, asset@, cad));
                let w = choose|w: int| 0 <= w < catalogue@.len() && series_matches(catalogue@, w, asset@, cad)
                    && forall|k: int| 0 <= k < w ==> !series_matches(catalogue@, k, asset@, cad);
                if w < j {
                } else if w > j {
                }
            }
            return Some(j);
        }
        j = j + 1;
    }
    None
}

/// Gives an engine runner that lacks a series the matching built-in series
/// of `catalogue` (see `backfilled_series`); any other runner is left as it
/// is.
pub fn backfill_series_id<S>(config: &mut RunnerConfig<S>, catalogue: &Vec<SeriesInfo>)
    ensures
        match backfilled_series(*old(config), catalogue@) {
            Some(j) => *final(config) == (RunnerConfig {
                series_id: Some(catalogue@[j].id),
                ..*old(config)
            }),
            None => *final(config) == *old(config),
        },
{
    proof {
        reveal_strlit("rhai_candle");
        reveal_strlit("5m");
    }
    let legacy = "rhai_candle".to_owned();
    let is_legacy = match &config.kind {
        Some(k) => *k == legacy || k.as_str().is_empty(),
        None => true,
    };
    if is_legacy {
        return;
    }
    let needs = match &config.series_id {
        Some(s) => s.as_str().is_empty(),
        None => true,
    };
    if !needs {
        return;
    }
    let field = first_field_chars(&chars_of(config.symbol.as_str()));
    let trimmed_field = string_of(&trim_white(&field));
    let asset_s = to_upper(trimmed_field.as_str());
    let asset = chars_of(asset_s.as_str());
    if asset.len() == 0 {
        return;
    }
    let cadence = if config.interval.as_str().is_empty() {
        chars_of("5m")
    } else {
        chars_of(config.interval.as_str())
    };
    let found = match find_series(catalogue, &asset, Some(&cadence)) {
        Some(j) => Some(j),
        None => find_series(catalogue, &asset, None),
    };
    match found {
        Some(j) => {
            config.series_id = Some(catalogue[j].id.clone());
        },
        None => {},
    }
}

/// The registry of live strategy runners.
pub struct StrategyRunnerStore<S, R> {
    runners: Vec<StoredRunner<S, R>>,
    workspace_dir: String,
}

impl<S, R> View for StrategyRunnerStore<S, R> {
    type V = Map<Seq<char>, StoredRunner<S, R>>;

    /// The runners by id.
    closed spec fn view(&self) -> Map<Seq<char>, StoredRunner<S, R>> {
        map_of(self.runners@)
    }
}

impl<S, R> StrategyRunnerStore<S, R> {
    /// No two runners share an id.
    pub closed spec fn wf(&self) -> bool {
        ids_unique(self.runners@)
    }

    /// The workspace the registry persists into.
    pub closed spec fn dir(&self) -> Seq<char> {
        self.workspace_dir@
    }

    /// An empty registry for the workspace `workspace_dir`.
    pub fn new(workspace_dir: String) -> (r: Self)
        ensures
            r.wf(),
            r@ == Map::<Seq<char>, StoredRunner<S, R>>::empty(),
            r.dir() == workspace_dir@,
    {
        let r = StrategyRunnerStore { runners: Vec::new(), workspace_dir };
        assert(map_of(r.runners@) =~= Map::<Seq<char>, StoredRunner<S, R>>::empty());
        r
    }

    /// The workspace directory.
    pub fn workspace_dir(&self) -> (r: &String)
        ensures
            r@ == self.dir(),
    {
        &self.workspace_dir
    }

    fn find(&self, id: &str) -> (r: Option<usize>)
        requires
            self.wf(),
        ensures
            match r {
                Some(i) => i < self.runners@.len() && key_of(self.runners@[i as int]) == id@,
                None => !has_key(self.runners@, id@),
            },
    {
        let key = id.to_owned();
        let mut i: usize = 0;
        while i < self.runners.len()
            invariant
                i <= self.runners@.len(),
                key@ == id@,
                forall|j: int| 0 <= j < i ==> key_of(#[trigger] self.runners@[j]) != id@,
            decreases self.runners@.len() - i,
        {
            if self.runners[i].config.id == key {
                return Some(i);
            }
            i = i + 1;
        }
        None
    }

    /// The runner registered under `id`, if any.
    pub fn get(&self, id: &str) -> (r: Option<&StoredRunner<S, R>>)
        requires
            self.wf(),
        ensures
            match r {
                Some(x) => self@.contains_key(id@) && *x == self@[id@],
                None => !self@.contains_key(id@),
            },
    {
        proof {
            lemma_map_all(self.runners@);
        }
        match self.find(id) {
            Some(i) => Some(&self.runners[i]),
            None => None,
        }
    }

    /// Registers `runner` under its id, replacing any runner of that id.
    pub fn upsert(&mut self, runner: StoredRunner<S, R>)
        requires
            old(self).wf(),
        ensures
            final(self).wf(),
            final(self)@ == old(self)@.insert(runner.config.id@, runner),
            final(self).dir() == old(self).dir(),
    {
        match self.find(runner.config.id.as_str()) {
            Some(i) => {
                proof {
                    lemma_map_update(self.runners@, i as int, runner);
                }
                self.runners.set(i, runner);
            },
            None => {
                proof {
                    lemma_map_push(self.runners@, runner);
                }
                self.runners.push(runner);
            },
        }
    }

    /// Removes the runner under `id`; true when there was one.
    pub fn delete(&mut self, id: &str) -> (r: bool)
        requires
            old(self).wf(),
        ensures
            final(self).wf(),
            r == old(self)@.contains_key(id@),
            final(self)@ == old(self)@.remove(id@),
            final(self).dir() == old(self).dir(),
    {
        proof {
            lemma_map_all(self.runners@);
        }
        match self.find(id) {
            Some(i) => {
                proof {
                    lemma_map_remove(self.runners@, i as int);
                }
                self.runners.remove(i);
                true
            },
            None => {
                assert(map_of(self.runners@).remove(id@) =~= map_of(self.runners@));
                false
            },
        }
    }

    /// Marks the runner under `id` stopped; true when there is one.
    pub fn stop(&mut self, id: &str) -> (r: bool)
        requires
            old(self).wf(),
        ensures
            final(self).wf(),
            final(self).dir() == old(self).dir(),
            r == old(self)@.contains_key(id@),
            others_kept(old(self)@, final(self)@, id@),
            r ==> status_set(old(self)@[id@], final(self)@[id@], "stopped"@),
    {
        self.set_status_word(id, "stopped")
    }

    /// Sets the status word of the runner under `id` to `word`; true when
    /// there is one.
    pub fn set_status_word(&mut self, id: &str, word: &str) -> (r: bool)
        requires
            old(self).wf(),
        ensures
            final(self).wf(),
            final(self).dir() == old(self).dir(),
            r == old(self)@.contains_key(id@),
            others_kept(old(self)@, final(self)@, id@),
            r ==> status_set(old(self)@[id@], final(self)@[id@], word@),
    {
        proof {
            lemma_map_all(self.runners@);
        }
        match self.find(id) {
            Some(i) => {
                let ghost before = self.runners@;
                self.runners[i].status.status = word.to_owned();
                proof {
                    assert(self.runners@ =~= before.update(i as int, self.runners@[i as int]));
                    lemma_map_update(before, i as int, self.runners@[i as int]);
                    lemma_insert_kept(map_of(before), id@, self.runners@[i as int]);
                }
                true
            },
            None => false,
        }
    }

    /// Marks the runner under `id` starting and clears its error note; true
    /// when there is one.
    pub fn set_starting(&mut self, id: &str) -> (r: bool)
        requires
            old(self).wf(),
        ensures
            final(self).wf(),
            final(self).dir() == old(self).dir(),
            r == old(self)@.contains_key(id@),
            others_kept(old(self)@, final(self)@, id@),
            r ==> status_note_set(old(self)@[id@], final(self)@[id@], "starting"@, None),
    {
        proof {
            lemma_map_all(self.runners@);
        }
        match self.find(id) {
            Some(i) => {
                let ghost before = self.runners@;
                self.runners[i].status.status = "starting".to_owned();
                self.runners[i].status.error = None;
                proof {
                    assert(self.runners@ =~= before.update(i as int, self.runners@[i as int]));
                    lemma_map_update(before, i as int, self.runners@[i as int]);
                    lemma_insert_kept(map_of(before), id@, self.runners@[i as int]);
                }
                true
            },
            None => false,
        }
    }

    /// Marks the runner under `id` failed with the note `msg`; true when there
    /// is one.
    pub fn set_error(&mut self, id: &str, msg: &str) -> (r: bool)
        requires
            old(self).wf(),
        ensures
            final(self).wf(),
            final(self).dir() == old(self).dir(),
            r == old(self)@.contains_key(id@),
            others_kept(old(self)@, final(self)@, id@),
            r ==> status_note_set(old(self)@[id@], final(self)@[id@], "error"@, Some(msg@)),
    {
        proof {
            lemma_map_all(self.runners@);
        }
        match self.find(id) {
            Some(i) => {
                let ghost before = self.runners@;
                self.runners[i].status.status = "error".to_owned();
                self.runners[i].status.error = Some(msg.to_owned());
                proof {
                    assert(self.runners@ =~= before.update(i as int, self.runners@[i as int]));
                    lemma_map_update(before, i as int, self.runners@[i as int]);
                    lemma_insert_kept(map_of(before), id@, self.runners@[i as int]);
                }
                true
            },
            None => false,
        }
    }

    /// Sets whether the runner under `id` restarts by itself; turning it off
    /// also stops a runner that is waiting to start. The runner as updated,
    /// when there is one.
    pub fn set_auto_restart(&mut self, id: &str, auto_restart: bool) -> (r: Option<&StoredRunner<S, R>>)
        requires
            old(self).wf(),
        ensures
            final(self).wf(),
            final(self).dir() == old(self).dir(),
            r is Some == old(self)@.contains_key(id@),
            others_kept(old(self)@, final(self)@, id@),
            r matches Some(x) ==> *x == final(self)@[id@],
            r is Some ==> ({
                let before = old(self)@[id@];
                let after = final(self)@[id@];
                if !auto_restart && before.status.status@ == "starting"@ {
                    status_set(
                        StoredRunner {
                            config: RunnerConfig { auto_restart: auto_restart, ..before.config },
                            ..before
                        },
                        after,
                        "stopped"@,
                    )
                } else {
                    restart_flag_set(before, after, auto_restart)
                }
            }),
    {
        proof {
            lemma_map_all(self.runners@);
        }
        match self.find(id) {
            Some(i) => {
                let ghost before = self.runners@;
                self.runners[i].config.auto_restart = auto_restart;
                let starting = "starting".to_owned();
                if !auto_restart && self.runners[i].status.status == starting {
                    self.runners[i].status.status = "stopped".to_owned();
                }
                proof {
                    assert(self.runners@ =~= before.update(i as int, self.runners@[i as int]));
                    lemma_map_update(before, i as int, self.runners@[i as int]);
                    lemma_insert_kept(map_of(before), id@, self.runners@[i as int]);
                    lemma_map_all(self.runners@);
                }
                Some(&self.runners[i])
            },
            None => None,
        }
    }

    /// Shows or hides the runner under `id`. The runner as updated, when there
    /// is one.
    pub fn set_hidden(&mut self, id: &str, hidden: bool) -> (r: Option<&StoredRunner<S, R>>)
        requires
            old(self).wf(),
        ensures
            final(self).wf(),
            final(self).dir() == old(self).dir(),
            r is Some == old(self)@.contains_key(id@),
            others_kept(old(self)@, final(self)@, id@),
            r matches Some(x) ==> *x == final(self)@[id@] && *x == (StoredRunner { hidden, ..old(self)@[id@] }),
    {
        proof {
            lemma_map_all(self.runners@);
        }
        match self.find(id) {
            Some(i) => {
                let ghost before = self.runners@;
                self.runners[i].hidden = hidden;
                proof {
                    assert(self.runners@ =~= before.update(i as int, self.runners@[i as int]));
                    lemma_map_update(before, i as int, self.runners@[i as int]);
                    lemma_insert_kept(map_of(before), id@, self.runners@[i as int]);
                    lemma_map_all(self.runners@);
                }
                Some(&self.runners[i])
            },
            None => None,
        }
    }


    /// The configurations of the runners that are to be restarted: marked
    /// starting and allowed to restart.
    pub fn list_restartable_configs(&self) -> (r: Vec<&RunnerConfig<S>>)
        requires
            self.wf(),
        ensures
            lists_exactly(self@, r@.map_values(|c: &RunnerConfig<S>| c.id@), |x: StoredRunner<S, R>| is_restartable(x)),
            forall|j: int| 0 <= j < r@.len() ==> *r@[j] == self@[#[trigger] r@[j].id@].config,
    {
        let ghost pick = |x: StoredRunner<S, R>| is_restartable(x);
        let ghost s = self.runners@;
        let starting = "starting".to_owned();
        let mut out: Vec<&RunnerConfig<S>> = Vec::new();
        let ghost mut idx: Seq<int> = Seq::empty();
        let mut k: usize = 0;
        while k < self.runners.len()
            invariant
                s == self.runners@,
                k <= s.len(),
                starting@ == "starting"@,
                forall|x: StoredRunner<S, R>| #[trigger] pick(x) == is_restartable(x),
                picked_upto(s, idx, pick, k as int),
                out@.len() == idx.len(),
                forall|j: int| 0 <= j < idx.len() ==> *out@[j] == s[#[trigger] idx[j]].config,
            decreases s.len() - k,
        {
            proof {
                lemma_picked_step(s, idx, pick, k as int);
            }
            let r = &self.runners[k];
            if r.status.status == starting && r.config.auto_restart {
                out.push(&r.config);
                proof {
                    idx = idx.push(k as int);
                }
            }
            k = k + 1;
        }
        proof {
            lemma_picked_keys(s, idx, pick);
            assert(out@.map_values(|c: &RunnerConfig<S>| c.id@) =~= idx.map_values(|i: int| key_of(s[i])));
            assert forall|j: int| 0 <= j < out@.len() implies *out@[j] == self@[#[trigger] out@[j].id@].config by {
                assert(map_of(s)[key_of(s[idx[j]])] == s[idx[j]]);
            }
        }
        out
    }


    /// Stops every live-mode runner that is running; the ids of those it
    /// stopped.
    pub fn stop_all_live(&mut self) -> (r: Vec<String>)
        requires
            old(self).wf(),
        ensures
            final(self).wf(),
            final(self).dir() == old(self).dir(),
            lists_exactly(old(self)@, r@.map_values(|x: String| x@), |x: StoredRunner<S, R>| is_live_running(x)),
            final(self)@.dom() == old(self)@.dom(),
            forall|k: Seq<char>| #[trigger] old(self)@.contains_key(k) ==> if is_live_running(old(self)@[k]) {
                status_set(old(self)@[k], final(self)@[k], "stopped"@)
            } else {
                final(self)@[k] == old(self)@[k]
            },
    {
        let ghost pick = |x: StoredRunner<S, R>| is_live_running(x);
        let ghost s0 = self.runners@;
        let ghost d = self.workspace_dir@;
        let live = "live".to_owned();
        let running = "running".to_owned();
        let mut out: Vec<String> = Vec::new();
        let ghost mut idx: Seq<int> = Seq::empty();
        let mut k: usize = 0;
        while k < self.runners.len()
            invariant
                self.runners@.len() == s0.len(),
                self.workspace_dir@ == d,
                k <= s0.len(),
                live@ == "live"@,
                running@ == "running"@,
                forall|x: StoredRunner<S, R>| #[trigger] pick(x) == is_live_running(x),
                picked_upto(s0, idx, pick, k as int),
                out@.len() == idx.len(),
                forall|j: int| 0 <= j < idx.len() ==> out@[j]@ == key_of(s0[#[trigger] idx[j]]),
                forall|i: int| 0 <= i < s0.len() ==> key_of(#[trigger] self.runners@[i]) == key_of(s0[i]),
                forall|i: int| 0 <= i < k ==> if is_live_running(s0[i]) {
                    status_set(s0[i], #[trigger] self.runners@[i], "stopped"@)
                } else {
                    self.runners@[i] == s0[i]
                },
                forall|i: int| k <= i < s0.len() ==> #[trigger] self.runners@[i] == s0[i],
            decreases s0.len() - k,
        {
            proof {
                lemma_picked_step(s0, idx, pick, k as int);
            }
            if self.runners[k].config.mode == live && self.runners[k].status.status == running {
                let ghost before = self.runners@;
                out.push(self.runners[k].config.id.clone());
                self.runners[k].status.status = "stopped".to_owned();
                proof {
                    idx = idx.push(k as int);
                    assert(self.runners@ =~= before.update(k as int, self.runners@[k as int]));
                }
            }
            k = k + 1;
        }
        proof {
            lemma_picked_keys(s0, idx, pick);
            lemma_map_pointwise(s0, self.runners@);
            assert(out@.map_values(|x: String| x@) =~= idx.map_values(|i: int| key_of(s0[i])));
            assert forall|kk: Seq<char>| #[trigger] map_of(s0).contains_key(kk) implies if is_live_running(map_of(s0)[kk]) {
                status_set(map_of(s0)[kk], map_of(self.runners@)[kk], "stopped"@)
            } else {
                map_of(self.runners@)[kk] == map_of(s0)[kk]
            } by {
                let i = choose|i: int| 0 <= i < s0.len() && key_of(#[trigger] s0[i]) == kk;
                assert(map_of(s0)[key_of(s0[i])] == s0[i]);
                assert(map_of(self.runners@)[key_of(s0[i])] == self.runners@[i]);
            }
        }
        out
    }


    /// Every runner, ordered by start time (oldest first).
    pub fn list(&self) -> (r: Vec<&StoredRunner<S, R>>)
        requires
            self.wf(),
        ensures
            lists_exactly(self@, r@.map_values(|x: &StoredRunner<S, R>| key_of(*x)), |x: StoredRunner<S, R>| true),
            forall|j: int| 0 <= j < r@.len() ==> *r@[j] == self@[key_of(*#[trigger] r@[j])],
            forall|a: int, b: int| 0 <= a < b < r@.len() ==> lex_le(
                #[trigger] r@[a].status.started_at@,
                #[trigger] r@[b].status.started_at@,
            ),
    {
        let ghost s = self.runners@;
        let mut out: Vec<&StoredRunner<S, R>> = Vec::new();
        let ghost mut pos: Seq<int> = Seq::empty();
        let mut k: usize = 0;
        while k < self.runners.len()
            invariant
                s == self.runners@,
                k <= s.len(),
                out@.len() == pos.len(),
                forall|j: int| 0 <= j < pos.len() ==> 0 <= #[trigger] pos[j] < k && *out@[j] == s[pos[j]],
                forall|a: int, b: int| 0 <= a < b < pos.len() ==> pos[a] != pos[b],
                forall|i: int| 0 <= i < k ==> #[trigger] pos.contains(i),
                forall|a: int, b: int| 0 <= a < b < out@.len() ==> lex_le(
                    #[trigger] out@[a].status.started_at@,
                    #[trigger] out@[b].status.started_at@,
                ),
            decreases s.len() - k,
        {
            let x = &self.runners[k];
            let xk = chars_of(x.status.started_at.as_str());
            let mut p: usize = 0;
            while p < out.len() && lex_le_chars(&chars_of(out[p].status.started_at.as_str()), &xk)
                invariant
                    p <= out@.len(),
                    xk@ == x.status.started_at@,
                    forall|a: int| 0 <= a < p ==> lex_le(#[trigger] out@[a].status.started_at@, xk@),
                decreases out@.len() - p,
            {
                p = p + 1;
            }
            proof {
                if p < out@.len() {
                    lemma_lex_total(out@[p as int].status.started_at@, xk@);
                    assert forall|b: int| p <= b < out@.len() implies lex_le(xk@, #[trigger] out@[b].status.started_at@) by {
                        if b > p {
                            lemma_lex_trans(xk@, out@[p as int].status.started_at@, out@[b].status.started_at@);
                        }
                    }
                }
            }
            let ghost old_out = out@;
            let ghost old_pos = pos;
            out.insert(p, x);
            proof {
                pos = pos.insert(p as int, k as int);
                assert forall|i: int| 0 <= i < k + 1 implies #[trigger] pos.contains(i) by {
                    if i == k {
                        assert(pos[p as int] == i);
                    } else {
                        assert(old_pos.contains(i));
                        let j = choose|j: int| 0 <= j < old_pos.len() && old_pos[j] == i;
                        if j < p {
                            assert(pos[j] == i);
                        } else {
                            assert(pos[j + 1] == i);
                        }
                    }
                }
                assert forall|a: int, b: int| 0 <= a < b < out@.len() implies lex_le(
                    #[trigger] out@[a].status.started_at@,
                    #[trigger] out@[b].status.started_at@,
                ) by {
                    if a < p && b == p {
                    } else if a < p && b > p {
                        assert(out@[b] == old_out[b - 1]);
                        if (p as int) < old_out.len() {
                            lemma_lex_trans(out@[a].status.started_at@, xk@, old_out[b - 1].status.started_at@);
                        }
                    } else if a == p {
                        assert(out@[b] == old_out[b - 1]);
                    } else if a > p {
                        assert(out@[a] == old_out[a - 1]);
                        assert(out@[b] == old_out[b - 1]);
                    }
                }
            }
            k = k + 1;
        }
        proof {
            lemma_map_all(s);
            let keys = out@.map_values(|x: &StoredRunner<S, R>| key_of(*x));
            assert forall|j: int| 0 <= j < out@.len() implies *out@[j] == map_of(s)[key_of(*#[trigger] out@[j])] by {
                lemma_map_at(s, pos[j]);
            }
            assert forall|j: int| 0 <= j < keys.len() implies #[trigger] map_of(s).contains_key(keys[j]) by {
                lemma_map_at(s, pos[j]);
            }
            assert forall|kk: Seq<char>| #[trigger] map_of(s).contains_key(kk) implies keys.contains(kk) by {
                let i = choose|i: int| 0 <= i < s.len() && key_of(#[trigger] s[i]) == kk;
                assert(pos.contains(i));
                let j = choose|j: int| 0 <= j < pos.len() && pos[j] == i;
                assert(keys[j] == kk);
            }
            assert forall|a: int, b: int| 0 <= a < b < keys.len() implies keys[a] != keys[b] by {
                assert(pos[a] != pos[b]);
                if pos[a] < pos[b] {
                    assert(key_of(s[pos[a]]) != key_of(s[pos[b]]));
                } else {
                    assert(key_of(s[pos[b]]) != key_of(s[pos[a]]));
                }
            }
        }
        out
    }


    /// Records the token ids of the runner under `id`'s current market; true
    /// when there is one.
    pub fn set_poly_token_ids(&mut self, id: &str, yes_token_id: String, no_token_id: String) -> (r: bool)
        requires
            old(self).wf(),
        ensures
            final(self).wf(),
            final(self).dir() == old(self).dir(),
            r == old(self)@.contains_key(id@),
            others_kept(old(self)@, final(self)@, id@),
            r ==> final(self)@[id@] == (StoredRunner {
                config: RunnerConfig {
                    poly_token_id: Some(yes_token_id),
                    poly_no_token_id: Some(no_token_id),
                    ..old(self)@[id@].config
                },
                ..old(self)@[id@]
            }),
    {
        proof {
            lemma_map_all(self.runners@);
        }
        match self.find(id) {
            Some(i) => {
                let ghost before = self.runners@;
                self.runners[i].config.poly_token_id = Some(yes_token_id);
                self.runners[i].config.poly_no_token_id = Some(no_token_id);
                proof {
                    assert(self.runners@ =~= before.update(i as int, self.runners@[i as int]));
                    lemma_map_update(before, i as int, self.runners@[i as int]);
                    lemma_insert_kept(map_of(before), id@, self.runners@[i as int]);
                }
                true
            },
            None => false,
        }
    }

    /// Records the wallet address of the runner under `id`; true when there
    /// is one.
    pub fn set_wallet_address(&mut self, id: &str, addr: String) -> (r: bool)
        requires
            old(self).wf(),
        ensures
            final(self).wf(),
            final(self).dir() == old(self).dir(),
            r == old(self)@.contains_key(id@),
            others_kept(old(self)@, final(self)@, id@),
            r ==> final(self)@[id@] == (StoredRunner {
                config: RunnerConfig { wallet_address: Some(addr), ..old(self)@[id@].config },
                ..old(self)@[id@]
            }),
    {
        proof {
            lemma_map_all(self.runners@);
        }
        match self.find(id) {
            Some(i) => {
                let ghost before = self.runners@;
                self.runners[i].config.wallet_address = Some(addr);
                proof {
                    assert(self.runners@ =~= before.update(i as int, self.runners@[i as int]));
                    lemma_map_update(before, i as int, self.runners@[i as int]);
                    lemma_insert_kept(map_of(before), id@, self.runners@[i as int]);
                }
                true
            },
            None => false,
        }
    }

    /// Stores `result` as the runner under `id`'s latest result, ticked at
    /// `now`; true when there is one.
    pub fn record_result(&mut self, id: &str, result: R, now: String) -> (r: bool)
        requires
            old(self).wf(),
        ensures
            final(self).wf(),
            final(self).dir() == old(self).dir(),
            r == old(self)@.contains_key(id@),
            others_kept(old(self)@, final(self)@, id@),
            r ==> final(self)@[id@] == (StoredRunner {
                result: Some(result),
                status: RunnerStatus { last_tick_at: Some(now), ..old(self)@[id@].status },
                ..old(self)@[id@]
            }),
    {
        proof {
            lemma_map_all(self.runners@);
        }
        match self.find(id) {
            Some(i) => {
                let ghost before = self.runners@;
                self.runners[i].result = Some(result);
                self.runners[i].status.last_tick_at = Some(now);
                proof {
                    assert(self.runners@ =~= before.update(i as int, self.runners@[i as int]));
                    lemma_map_update(before, i as int, self.runners@[i as int]);
                    lemma_insert_kept(map_of(before), id@, self.runners@[i as int]);
                }
                true
            },
            None => false,
        }
    }

    /// Forgets the tick times of the runner under `id`; true when there is
    /// one.
    pub fn clear_tick_times(&mut self, id: &str) -> (r: bool)
        requires
            old(self).wf(),
        ensures
            final(self).wf(),
            final(self).dir() == old(self).dir(),
            r == old(self)@.contains_key(id@),
            others_kept(old(self)@, final(self)@, id@),
            r ==> final(self)@[id@] == (StoredRunner {
                status: RunnerStatus { last_tick_at: None, next_tick_at: None, ..old(self)@[id@].status },
                ..old(self)@[id@]
            }),
    {
        proof {
            lemma_map_all(self.runners@);
        }
        match self.find(id) {
            Some(i) => {
                let ghost before = self.runners@;
                self.runners[i].status.last_tick_at = None;
                self.runners[i].status.next_tick_at = None;
                proof {
                    assert(self.runners@ =~= before.update(i as int, self.runners@[i as int]));
                    lemma_map_update(before, i as int, self.runners@[i as int]);
                    lemma_insert_kept(map_of(before), id@, self.runners@[i as int]);
                }
                true
            },
            None => false,
        }
    }

    /// Takes back saved runners, in order (a later one replaces an earlier one
    /// of the same id); a runner saved running or starting comes back starting
    /// when it may restart by itself and stopped otherwise.
    pub fn restore(&mut self, runners: Vec<StoredRunner<S, R>>)
        requires
            old(self).wf(),
        ensures
            final(self).wf(),
            final(self).dir() == old(self).dir(),
            forall|k: Seq<char>| #[trigger] final(self)@.contains_key(k) <==> (old(self)@.contains_key(k) || has_key(runners@, k)),
            forall|k: Seq<char>| #[trigger] has_key(runners@, k) ==> restored(runners@[last_index(runners@, k)], final(self)@[k]),
            forall|k: Seq<char>| #[trigger] old(self)@.contains_key(k) && !has_key(runners@, k) ==> final(self)@[k] == old(self)@[k],
    {
        let ghost s = runners@;
        let ghost m0 = self@;
        let running = "running".to_owned();
        let starting = "starting".to_owned();
        let mut runners = runners;
        let n: usize = runners.len();
        let mut t: usize = 0;
        proof {
            assert(s.take(0) =~= Seq::<StoredRunner<S, R>>::empty());
            assert(s.skip(0) =~= s);
        }
        while runners.len() > 0
            invariant
                t <= s.len(),
                s.len() == n,
                runners@ == s.skip(t as int),
                running@ == "running"@,
                starting@ == "starting"@,
                self.wf(),
                self.dir() == old(self).dir(),
                m0 == old(self)@,
                forall|k: Seq<char>| #[trigger] self@.contains_key(k) <==> (m0.contains_key(k) || has_key(s.take(t as int), k)),
                forall|k: Seq<char>| #[trigger] has_key(s.take(t as int), k) ==> restored(s[last_index(s.take(t as int), k)], self@[k]),
                forall|k: Seq<char>| #[trigger] m0.contains_key(k) && !has_key(s.take(t as int), k) ==> self@[k] == m0[k],
            decreases runners@.len(),
        {
            assert(s.skip(t as int).len() == s.len() - t);
            assert(t < s.len());
            let mut r = runners.remove(0);
            proof {
                assert(runners@ =~= s.skip(t as int + 1));
            }
            let ghost saved = r;
            if r.status.status == running || r.status.status == starting {
                r.status.status = if r.config.auto_restart {
                    "starting".to_owned()
                } else {
                    "stopped".to_owned()
                };
            }
            let ghost before = self@;
            self.upsert(r);
            proof {
                let p = s.take(t as int);
                let q = s.take(t as int + 1);
                assert(q.drop_last() =~= p);
                assert(q.last() == saved);
                assert forall|k: Seq<char>| has_key(q, k) <==> (has_key(p, k) || key_of(saved) == k) by {
                    if has_key(q, k) {
                        let i = choose|i: int| 0 <= i < q.len() && key_of(#[trigger] q[i]) == k;
                        if i < t {
                            assert(p[i] == q[i]);
                        }
                    }
                    if has_key(p, k) {
                        let i = choose|i: int| 0 <= i < p.len() && key_of(#[trigger] p[i]) == k;
                        assert(q[i] == p[i]);
                    }
                    if key_of(saved) == k {
                        assert(q[t as int] == saved);
                    }
                }
                assert forall|k: Seq<char>| #[trigger] has_key(q, k) implies restored(s[last_index(q, k)], self@[k]) by {
                    lemma_last_index(p, k);
                    if key_of(saved) != k {
                        assert(last_index(q, k) == last_index(p, k));
                        assert(p[last_index(p, k)] == s[last_index(p, k)]);
                    }
                }
            }
            t = t + 1;
        }
        proof {
            assert(s.take(t as int) =~= s);
        }
    }


    /// Appends `msg` to the log of the runner under `id` (kept in its error
    /// note, cut to its last lines); true when there is one.
    pub fn append_log(&mut self, id: &str, msg: &str) -> (r: bool)
        requires
            old(self).wf(),
        ensures
            final(self).wf(),
            final(self).dir() == old(self).dir(),
            r == old(self)@.contains_key(id@),
            others_kept(old(self)@, final(self)@, id@),
            r ==> note_set(
                old(self)@[id@],
                final(self)@[id@],
                rolled_log_of(
                    match old(self)@[id@].status.error {
                        Some(e) => e@,
                        None => Seq::empty(),
                    },
                    msg@,
                ),
            ),
    {
        proof {
            lemma_map_all(self.runners@);
            reveal_strlit("");
        }
        match self.find(id) {
            Some(i) => {
                let ghost before = self.runners@;
                let log = match &self.runners[i].status.error {
                    Some(e) => rolled_log(e.as_str(), msg),
                    None => rolled_log("", msg),
                };
                self.runners[i].status.error = Some(log);
                proof {
                    assert(self.runners@ =~= before.update(i as int, self.runners@[i as int]));
                    lemma_map_update(before, i as int, self.runners@[i as int]);
                    lemma_insert_kept(map_of(before), id@, self.runners@[i as int]);
                }
                true
            },
            None => false,
        }
    }


    /// Whether the runner under `id` failed and may restart by itself: its
    /// status is error and its restart flag is set (false when there is no
    /// such runner).
    pub fn should_auto_restart(&self, id: &str) -> (r: bool)
        requires
            self.wf(),
        ensures
            r == (self@.contains_key(id@) && self@[id@].status.status@ == "error"@ && self@[id@].config.auto_restart),
    {
        match self.get(id) {
            Some(x) => {
                let error = "error".to_owned();
                x.status.status == error && x.config.auto_restart
            },
            None => false,
        }
    }

    /// Marks the runner under `id` starting again after a failure, with the
    /// note `Auto-restart <attempt>/<MAX> after error`; true when there is one.
    pub fn mark_auto_restart(&mut self, id: &str, attempt: u32) -> (r: bool)
        requires
            old(self).wf(),
        ensures
            final(self).wf(),
            final(self).dir() == old(self).dir(),
            r == old(self)@.contains_key(id@),
            others_kept(old(self)@, final(self)@, id@),
            r ==> status_note_set(
                old(self)@[id@],
                final(self)@[id@],
                "starting"@,
                Some("Auto-restart "@ + decimal(attempt as nat) + "/"@ + decimal(crate::windows::MAX_AUTO_RESTARTS as nat)
                    + " after error"@),
            ),
    {
        proof {
            lemma_map_all(self.runners@);
        }
        match self.find(id) {
            Some(i) => {
                let ghost before = self.runners@;
                let mut note = String::new();
                push_text(&mut note, "Auto-restart ");
                push_decimal(&mut note, attempt as u64);
                push_text(&mut note, "/");
                push_decimal(&mut note, crate::windows::MAX_AUTO_RESTARTS as u64);
                push_text(&mut note, " after error");
                self.runners[i].status.status = "starting".to_owned();
                self.runners[i].status.error = Some(note);
                proof {
                    assert(self.runners@ =~= before.update(i as int, self.runners@[i as int]));
                    lemma_map_update(before, i as int, self.runners@[i as int]);
                    lemma_insert_kept(map_of(before), id@, self.runners@[i as int]);
                }
                true
            },
            None => false,
        }
    }

    /// Clears the error note of the runner under `id`; true when there is one.
    pub fn clear_error(&mut self, id: &str) -> (r: bool)
        requires
            old(self).wf(),
        ensures
            final(self).wf(),
            final(self).dir() == old(self).dir(),
            r == old(self)@.contains_key(id@),
            others_kept(old(self)@, final(self)@, id@),
            r ==> final(self)@[id@] == (StoredRunner {
                status: RunnerStatus { error: None, ..old(self)@[id@].status },
                ..old(self)@[id@]
            }),
    {
        proof {
            lemma_map_all(self.runners@);
        }
        match self.find(id) {
            Some(i) => {
                let ghost before = self.runners@;
                self.runners[i].status.error = None;
                proof {
                    assert(self.runners@ =~= before.update(i as int, self.runners@[i as int]));
                    lemma_map_update(before, i as int, self.runners@[i as int]);
                    lemma_insert_kept(map_of(before), id@, self.runners@[i as int]);
                }
                true
            },
            None => false,
        }
    }

    /// Switches the runner under `id` to the mode `mode` (the loss guards
    /// switch a live runner to paper); true when there is one.
    pub fn set_mode(&mut self, id: &str, mode: &str) -> (r: bool)
        requires
            old(self).wf(),
        ensures
            final(self).wf(),
            final(self).dir() == old(self).dir(),
            r == old(self)@.contains_key(id@),
            others_kept(old(self)@, final(self)@, id@),
            r ==> final(self)@[id@].config.mode@ == mode@,
            r ==> final(self)@[id@] == (StoredRunner {
                config: RunnerConfig { mode: final(self)@[id@].config.mode, ..old(self)@[id@].config },
                ..old(self)@[id@]
            }),
    {
        proof {
            lemma_map_all(self.runners@);
        }
        match self.find(id) {
            Some(i) => {
                let ghost before = self.runners@;
                self.runners[i].config.mode = mode.to_owned();
                proof {
                    assert(self.runners@ =~= before.update(i as int, self.runners@[i as int]));
                    lemma_map_update(before, i as int, self.runners@[i as int]);
                    lemma_insert_kept(map_of(before), id@, self.runners@[i as int]);
                }
                true
            },
            None => false,
        }
    }

    /// Registers a run of `config` started at `now`: the runner is starting,
    /// shown, with no tick times and no error, and keeps the result of an
    /// earlier run under the same id.
    pub fn begin_run(&mut self, config: RunnerConfig<S>, now: String)
        requires
            old(self).wf(),
        ensures
            final(self).wf(),
            final(self).dir() == old(self).dir(),
            final(self)@.dom() == old(self)@.dom().insert(config.id@),
            forall|k: Seq<char>| #[trigger] old(self)@.contains_key(k) && k != config.id@ ==> final(self)@[k] == old(self)@[k],
            ({
                let x = final(self)@[config.id@];
                &&& x.config == config
                &&& x.status.id@ == config.id@
                &&& x.status.status@ == "starting"@
                &&& x.status.started_at@ == now@
                &&& x.status.last_tick_at is None
                &&& x.status.next_tick_at is None
                &&& x.status.error is None
                &&& x.hidden == false
                &&& x.result == (if old(self)@.contains_key(config.id@) { old(self)@[config.id@].result } else { None })
            }),
    {
        proof {
            lemma_map_all(self.runners@);
        }
        let previous = match self.find(config.id.as_str()) {
            Some(i) => {
                let ghost before = self.runners@;
                let taken = self.runners[i].result.take();
                proof {
                    assert(self.runners@ =~= before.update(i as int, self.runners@[i as int]));
                    lemma_map_update(before, i as int, self.runners@[i as int]);
                }
                taken
            },
            None => None,
        };
        let status = RunnerStatus {
            id: config.id.clone(),
            status: "starting".to_owned(),
            started_at: now,
            last_tick_at: None,
            next_tick_at: None,
            error: None,
        };
        let runner = StoredRunner { config, status, result: previous, hidden: false };
        self.upsert(runner);
        proof {
            assert(self@.dom() =~= old(self)@.dom().insert(runner.config.id@));
        }
    }


    /// Replaces the settings of the runner under `id`. The runner as updated,
    /// when there is one.
    pub fn set_settings(&mut self, id: &str, settings: S) -> (r: Option<&StoredRunner<S, R>>)
        requires
            old(self).wf(),
        ensures
            final(self).wf(),
            final(self).dir() == old(self).dir(),
            r is Some == old(self)@.contains_key(id@),
            others_kept(old(self)@, final(self)@, id@),
            r matches Some(x) ==> *x == final(self)@[id@] && *x == (StoredRunner {
                config: RunnerConfig { settings, ..old(self)@[id@].config },
                ..old(self)@[id@]
            }),
    {
        proof {
            lemma_map_all(self.runners@);
        }
        match self.find(id) {
            Some(i) => {
                let ghost before = self.runners@;
                self.runners[i].config.settings = settings;
                proof {
                    assert(self.runners@ =~= before.update(i as int, self.runners@[i as int]));
                    lemma_map_update(before, i as int, self.runners@[i as int]);
                    lemma_insert_kept(map_of(before), id@, self.runners@[i as int]);
                    lemma_map_all(self.runners@);
                }
                Some(&self.runners[i])
            },
            None => None,
        }
    }


    /// Publishes `result` as the latest result of the runner under `id` and
    /// marks it running; true when there is one.
    pub fn publish_result(&mut self, id: &str, result: R) -> (r: bool)
        requires
            old(self).wf(),
        ensures
            final(self).wf(),
            final(self).dir() == old(self).dir(),
            r == old(self)@.contains_key(id@),
            others_kept(old(self)@, final(self)@, id@),
            r ==> final(self)@[id@].result == Some(result),
            r ==> status_set(
                StoredRunner { result: Some(result), ..old(self)@[id@] },
                final(self)@[id@],
                "running"@,
            ),
    {
        proof {
            lemma_map_all(self.runners@);
        }
        match self.find(id) {
            Some(i) => {
                let ghost before = self.runners@;
                self.runners[i].result = Some(result);
                self.runners[i].status.status = "running".to_owned();
                proof {
                    assert(self.runners@ =~= before.update(i as int, self.runners@[i as int]));
                    lemma_map_update(before, i as int, self.runners@[i as int]);
                    lemma_insert_kept(map_of(before), id@, self.runners@[i as int]);
                }
                true
            },
            None => false,
        }
    }

}


/// A runner read back after it was stored is the runner that was stored, and
/// storing it leaves every other runner as it was.
pub proof fn law_get_after_upsert<S, R>(
    before: Map<Seq<char>, StoredRunner<S, R>>,
    after: Map<Seq<char>, StoredRunner<S, R>>,
    runner: StoredRunner<S, R>,
)
    requires
        after == before.insert(key_of(runner), runner),
    ensures
        after.contains_key(key_of(runner)),
        after[key_of(runner)] == runner,
        forall|k: Seq<char>| k != key_of(runner) ==> (#[trigger] after.contains_key(k) <==> before.contains_key(k)),
        forall|k: Seq<char>| k != key_of(runner) && before.contains_key(k) ==> #[trigger] after[k] == before[k],
{
}

/// A deleted runner is gone, and the others stay.
pub proof fn law_get_after_delete<S, R>(
    before: Map<Seq<char>, StoredRunner<S, R>>,
    after: Map<Seq<char>, StoredRunner<S, R>>,
    id: Seq<char>,
)
    requires
        after == before.remove(id),
    ensures
        !after.contains_key(id),
        forall|k: Seq<char>| k != id ==> (#[trigger] after.contains_key(k) <==> before.contains_key(k)),
        forall|k: Seq<char>| k != id && before.contains_key(k) ==> #[trigger] after[k] == before[k],
{
}

/// A stopped runner is neither waiting to restart nor running live.
pub proof fn law_stopped_is_idle<S, R>(before: StoredRunner<S, R>, after: StoredRunner<S, R>)
    requires
        status_set(before, after, "stopped"@),
    ensures
        !is_restartable(after),
        !is_live_running(after),
{
    reveal_strlit("stopped");
    reveal_strlit("starting");
    reveal_strlit("running");
    assert("stopped"@[2] != "starting"@[2]);
    assert("stopped"@[0] != "running"@[0]);
    assert("starting"@[0] != "running"@[0]);
}

/// A runner whose automatic restart was turned off is not restarted.
pub proof fn law_no_restart_when_turned_off<S, R>(before: StoredRunner<S, R>, after: StoredRunner<S, R>)
    requires
        after.config.auto_restart == false,
    ensures
        !is_restartable(after),
{
}

/// A runner marked starting is restarted exactly when it may restart by
/// itself.
pub proof fn law_starting_restarts_when_allowed<S, R>(before: StoredRunner<S, R>, after: StoredRunner<S, R>)
    requires
        status_note_set(before, after, "starting"@, None),
    ensures
        is_restartable(after) == before.config.auto_restart,
{
}

/// Once every live runner that was running has been stopped, none is
/// running live.
pub proof fn law_none_live_after_stop_all<S, R>(
    before: Map<Seq<char>, StoredRunner<S, R>>,
    after: Map<Seq<char>, StoredRunner<S, R>>,
)
    requires
        after.dom() == before.dom(),
        forall|k: Seq<char>| #[trigger] before.contains_key(k) ==> if is_live_running(before[k]) {
            status_set(before[k], after[k], "stopped"@)
        } else {
            after[k] == before[k]
        },
    ensures
        forall|k: Seq<char>| #[trigger] after.contains_key(k) ==> !is_live_running(after[k]),
{
    assert forall|k: Seq<char>| #[trigger] after.contains_key(k) implies !is_live_running(after[k]) by {
        assert(before.contains_key(k));
        if is_live_running(before[k]) {
            law_stopped_is_idle(before[k], after[k]);
        }
    }
}

/// A reloaded runner is never running, and it is restarted exactly when it
/// was running or starting when saved and may restart by itself.
pub proof fn law_restored_not_running<S, R>(saved: StoredRunner<S, R>, after: StoredRunner<S, R>)
    requires
        restored(saved, after),
    ensures
        after.status.status@ != "running"@,
        is_restartable(after) <==> ((saved.status.status@ == "running"@ || saved.status.status@ == "starting"@)
            && saved.config.auto_restart),
        after.config == saved.config,
{
    reveal_strlit("stopped");
    reveal_strlit("starting");
    reveal_strlit("running");
    assert("stopped"@[2] != "starting"@[2]);
    assert("stopped"@[0] != "running"@[0]);
    assert("starting"@[0] != "running"@[0]);
}

} // verus!
