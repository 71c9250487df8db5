//! Market symbol conventions: Binance pairs, Hyperliquid coins, Polymarket
//! slugs and trade side labels.
use vstd::prelude::*;
use crate::text::{
    chars_of, contains, push_char, ends_with, has_infix, has_prefix, has_suffix, lower_of, same_as, starts_with,
    string_of, strip_suffix_all, to_lower, to_upper, trim_suffix_all, upper_of,
};

verus! {

/// The Hyperliquid coin of a Binance-style pair: every trailing `USDT`, then
/// every trailing `USDC`, then every trailing `USD` removed.
pub open spec fn hl_coin_of(symbol: Seq<char>) -> Seq<char> {
    strip_suffix_all(strip_suffix_all(strip_suffix_all(symbol, "USDT"@), "USDC"@), "USD"@)
}

/// Convert a Binance-style symbol (e.g. "BTCUSDT") to a Hyperliquid coin ("BTC").
pub fn binance_symbol_to_hl_coin(symbol: &str) -> (r: String)
    ensures
        r@ == hl_coin_of(symbol@),
{
    proof {
        reveal_strlit("USDT");
        reveal_strlit("USDC");
        reveal_strlit("USD");
    }
    let s = chars_of(symbol);
    let a = trim_suffix_all(&s, &chars_of("USDT"));
    let b = trim_suffix_all(&a, &chars_of("USDC"));
    let c = trim_suffix_all(&b, &chars_of("USD"));
    string_of(&c)
}

/// The asset `key` (lower case) is named by the lower-cased slug `l`: the slug
/// starts with it or holds it between dashes.
pub open spec fn names_asset(l: Seq<char>, key: Seq<char>) -> bool {
    has_prefix(l, key) || has_infix(l, seq!['-'] + key + seq!['-'])
}

/// The Binance pair that backs a Polymarket binary series: the upper-cased
/// symbol when it already is a pair (ends in `USDT`, `BTC` or `ETH`); else the
/// pair of the first asset, in the order btc, eth, sol, xrp, doge, hype, bnb,
/// that the lower-cased slug names; else the upper-cased symbol unchanged.
pub open spec fn polymarket_binance_pair(symbol: Seq<char>) -> Seq<char> {
    let s = upper_of(symbol);
    let l = lower_of(symbol);
    if has_suffix(s, "USDT"@) || has_suffix(s, "BTC"@) || has_suffix(s, "ETH"@) {
        s
    } else if names_asset(l, "btc"@) {
        "BTCUSDT"@
    } else if names_asset(l, "eth"@) {
        "ETHUSDT"@
    } else if names_asset(l, "sol"@) {
        "SOLUSDT"@
    } else if names_asset(l, "xrp"@) {
        "XRPUSDT"@
    } else if names_asset(l, "doge"@) {
        "DOGEUSDT"@
    } else if names_asset(l, "hype"@) {
        "HYPEUSDT"@
    } else if names_asset(l, "bnb"@) {
        "BNBUSDT"@
    } else {
        s
    }
}

/// The symbol is not yet a Binance pair: its upper-cased form ends in none of
/// `USDT`, `BTC`, `ETH`.
pub open spec fn not_a_pair(symbol: Seq<char>) -> bool {
    let s = upper_of(symbol);
    !(has_suffix(s, "USDT"@) || has_suffix(s, "BTC"@) || has_suffix(s, "ETH"@))
}

/// The lower-cased slug names one of the assets that have a Binance pair.
pub open spec fn names_listed_asset(symbol: Seq<char>) -> bool {
    let l = lower_of(symbol);
    names_asset(l, "btc"@) || names_asset(l, "eth"@) || names_asset(l, "sol"@) || names_asset(l, "xrp"@)
        || names_asset(l, "doge"@) || names_asset(l, "hype"@) || names_asset(l, "bnb"@)
}

/// A Polymarket slug maps to the USDT pair of the first asset it names, in the
/// order btc, eth, sol, xrp, doge, hype, bnb; a symbol that already is a pair,
/// or a slug naming none of them, stays as its upper-cased form. So a slug
/// that names a listed asset always maps to a pair ending in `USDT`.
pub proof fn law_polymarket_pair(symbol: Seq<char>)
    ensures
        !not_a_pair(symbol) ==> polymarket_binance_pair(symbol) == upper_of(symbol),
        not_a_pair(symbol) && !names_listed_asset(symbol) ==> polymarket_binance_pair(symbol) == upper_of(symbol),
        not_a_pair(symbol) && names_listed_asset(symbol) ==> has_suffix(polymarket_binance_pair(symbol), "USDT"@),
        not_a_pair(symbol) && names_asset(lower_of(symbol), "btc"@) ==> polymarket_binance_pair(symbol) == "BTCUSDT"@,
        not_a_pair(symbol) && !names_asset(lower_of(symbol), "btc"@) && names_asset(lower_of(symbol), "eth"@)
            ==> polymarket_binance_pair(symbol) == "ETHUSDT"@,
        not_a_pair(symbol) && !names_asset(lower_of(symbol), "btc"@) && !names_asset(lower_of(symbol), "eth"@)
            && names_asset(lower_of(symbol), "sol"@) ==> polymarket_binance_pair(symbol) == "SOLUSDT"@,
        not_a_pair(symbol) && !names_asset(lower_of(symbol), "btc"@) && !names_asset(lower_of(symbol), "eth"@)
            && !names_asset(lower_of(symbol), "sol"@) && names_asset(lower_of(symbol), "xrp"@)
            ==> polymarket_binance_pair(symbol) == "XRPUSDT"@,
        not_a_pair(symbol) && !names_asset(lower_of(symbol), "btc"@) && !names_asset(lower_of(symbol), "eth"@)
            && !names_asset(lower_of(symbol), "sol"@) && !names_asset(lower_of(symbol), "xrp"@) && names_asset(
            lower_of(symbol),
            "doge"@,
        ) ==> polymarket_binance_pair(symbol) == "DOGEUSDT"@,
        not_a_pair(symbol) && !names_asset(lower_of(symbol), "btc"@) && !names_asset(lower_of(symbol), "eth"@)
            && !names_asset(lower_of(symbol), "sol"@) && !names_asset(lower_of(symbol), "xrp"@) && !names_asset(
            lower_of(symbol),
            "doge"@,
        ) && names_asset(lower_of(symbol), "hype"@) ==> polymarket_binance_pair(symbol) == "HYPEUSDT"@,
        not_a_pair(symbol) && !names_asset(lower_of(symbol), "btc"@) && !names_asset(lower_of(symbol), "eth"@)
            && !names_asset(lower_of(symbol), "sol"@) && !names_asset(lower_of(symbol), "xrp"@) && !names_asset(
            lower_of(symbol),
            "doge"@,
        ) && !names_asset(lower_of(symbol), "hype"@) && names_asset(lower_of(symbol), "bnb"@)
            ==> polymarket_binance_pair(symbol) == "BNBUSDT"@,
{
    reveal_strlit("USDT");
    reveal_strlit("BTCUSDT");
    reveal_strlit("ETHUSDT");
    reveal_strlit("SOLUSDT");
    reveal_strlit("XRPUSDT");
    reveal_strlit("DOGEUSDT");
    reveal_strlit("HYPEUSDT");
    reveal_strlit("BNBUSDT");
    let r = polymarket_binance_pair(symbol);
    if not_a_pair(symbol) && names_listed_asset(symbol) {
        assert(r.subrange(r.len() - 4, r.len() as int) =~= "USDT"@);
    }
}

/// Whether the lower-cased slug `l` names the asset `key`.
fn slug_names(l: &Vec<char>, key: &str) -> (r: bool)
    ensures
        r == names_asset(l@, key@),
{
    let k = chars_of(key);
    if starts_with(l, &k) {
        return true;
    }
    let mut dashed: Vec<char> = Vec::new();
    dashed.push('-');
    let mut i: usize = 0;
    while i < k.len()
        invariant
            i <= k.len(),
            dashed@ == seq!['-'] + k@.subrange(0, i as int),
        decreases k.len() - i,
    {
        dashed.push(k[i]);
        i = i + 1;
    }
    dashed.push('-');
    assert(k@.subrange(0, k@.len() as int) == k@);
    assert(dashed@ == seq!['-'] + key@ + seq!['-']);
    contains(l, &dashed)
}

/// Extracts the Binance trading pair for a polymarket_binary runner. The symbol
/// may be a Polymarket slug (btc-updown-5m-...) or already a Binance pair
/// (BTCUSDT).
pub fn binance_symbol_for_polymarket(symbol: &str) -> (r: String)
    ensures
        r@ == polymarket_binance_pair(symbol@),
        not_a_pair(symbol@) && names_listed_asset(symbol@) ==> has_suffix(r@, "USDT"@),
        not_a_pair(symbol@) && !names_listed_asset(symbol@) ==> r@ == upper_of(symbol@),
{
    proof {
        law_polymarket_pair(symbol@);
    }
    let s = to_upper(symbol);
    let sc = chars_of(s.as_str());
    if ends_with(&sc, &chars_of("USDT")) || ends_with(&sc, &chars_of("BTC")) || ends_with(
        &sc,
        &chars_of("ETH"),
    ) {
        return s;
    }
    let lower = to_lower(symbol);
    let l = chars_of(lower.as_str());
    if slug_names(&l, "btc") {
        return string_of(&chars_of("BTCUSDT"));
    }
    if slug_names(&l, "eth") {
        return string_of(&chars_of("ETHUSDT"));
    }
    if slug_names(&l, "sol") {
        return string_of(&chars_of("SOLUSDT"));
    }
    if slug_names(&l, "xrp") {
        return string_of(&chars_of("XRPUSDT"));
    }
    if slug_names(&l, "doge") {
        return string_of(&chars_of("DOGEUSDT"));
    }
    if slug_names(&l, "hype") {
        return string_of(&chars_of("HYPEUSDT"));
    }
    if slug_names(&l, "bnb") {
        return string_of(&chars_of("BNBUSDT"));
    }
    s
}

/// The side labels of binary bets: `bet_yes`, `bet_no`, `yes`, `no`, and any
/// label starting with `yes_` or `no_`.
pub open spec fn binary_side(side: Seq<char>) -> bool {
    side == "bet_yes"@ || side == "bet_no"@ || side == "yes"@ || side == "no"@ || has_prefix(
        side,
        "yes_"@,
    ) || has_prefix(side, "no_"@)
}

/// True if a trade's `side` label denotes a BINARY bet the validator can use.
/// Engines disagree on the label: clob_1hz/clob_events emit `bet_yes`/`bet_no`,
/// the strategy-core engine paths emit `yes`/`no`, and the on_candle path emits
/// `{yes|no}_{win|loss}`. Crypto buy/sell sides are not binary.
pub fn is_binary_side(side: &str) -> (r: bool)
    ensures
        r == binary_side(side@),
{
    let s = chars_of(side);
    same_as(&s, "bet_yes") || same_as(&s, "bet_no") || same_as(&s, "yes") || same_as(&s, "no")
        || starts_with(&s, &chars_of("yes_")) || starts_with(&s, &chars_of("no_"))
}

/// The bytes `c` takes in UTF-8.
pub open spec fn utf8_width(c: char) -> nat {
    let u = c as u32;
    if u < 0x80 {
        1
    } else if u < 0x800 {
        2
    } else if u < 0x10000 {
        3
    } else {
        4
    }
}

/// The bytes `s` takes in UTF-8, what `str::len` counts.
pub open spec fn utf8_len(s: Seq<char>) -> nat
    decreases s.len(),
{
    if s.len() == 0 {
        0
    } else {
        utf8_len(s.drop_last()) + utf8_width(s.last())
    }
}

/// Every character of `s` is an ASCII digit.
pub open spec fn all_ascii_digits(s: Seq<char>) -> bool {
    forall|i: int| 0 <= i < s.len() ==> '0' <= #[trigger] s[i] <= '9'
}

/// A Polymarket market is given by its token id rather than a slug: all
/// ASCII digits, or `0x` and hex, and longer than 20 bytes either way.
pub open spec fn token_id_like(s: Seq<char>) -> bool {
    (all_ascii_digits(s) || has_prefix(s, "0x"@)) && utf8_len(s) > 20
}

/// A slug still unresolved after the event lookup: not all ASCII digits, or
/// shorter than 20 bytes; the market lookup is tried then.
pub open spec fn needs_market_lookup_of(s: Seq<char>) -> bool {
    !all_ascii_digits(s) || utf8_len(s) < 20
}

fn char_width(c: char) -> (r: usize)
    ensures
        r == utf8_width(c),
{
    let u = c as u32;
    if u < 0x80 {
        1
    } else if u < 0x800 {
        2
    } else if u < 0x10000 {
        3
    } else {
        4
    }
}

/// The UTF-8 length and the all-digits test of `v`.
fn scan_chars(v: &Vec<char>) -> (r: (usize, bool))
    requires
        v@.len() <= usize::MAX / 4,
    ensures
        r.0 == utf8_len(v@),
        r.1 == all_ascii_digits(v@),
{
    let mut len: usize = 0;
    let mut digits = true;
    let mut i: usize = 0;
    while i < v.len()
        invariant
            i <= v@.len(),
            v@.len() <= usize::MAX / 4,
            len == utf8_len(v@.take(i as int)),
            len <= 4 * i,
            digits == all_ascii_digits(v@.take(i as int)),
        decreases v@.len() - i,
    {
        proof {
            assert(v@.take(i as int + 1).drop_last() =~= v@.take(i as int));
        }
        let c = v[i];
        len = len + char_width(c);
        if !('0' <= c && c <= '9') {
            digits = false;
        }
        i = i + 1;
        proof {
            let t = v@.take(i as int);
            assert(t.last() == c);
            if digits {
                assert forall|k: int| 0 <= k < t.len() implies '0' <= #[trigger] t[k] <= '9' by {
                    if k < t.len() - 1 {
                        assert(t[k] == v@.take(i as int - 1)[k]);
                    }
                }
            } else if '0' <= c && c <= '9' {
                let p = v@.take(i as int - 1);
                let k = choose|k: int| 0 <= k < p.len() && !('0' <= #[trigger] p[k] <= '9');
                assert(t[k] == p[k]);
            }
        }
    }
    assert(v@.take(i as int) =~= v@);
    (len, digits)
}

/// Whether the market `id` is a token id rather than a slug (see
/// `token_id_like`).
pub fn looks_like_token_id(id: &str) -> (r: bool)
    ensures
        r == token_id_like(id@),
{
    let v = chars_of(id);
    if v.len() > usize::MAX / 4 {
        proof {
            lemma_utf8_len_at_least(v@);
        }
        let zx = chars_of("0x");
        proof {
            reveal_strlit("0x");
        }
        return all_digits_of(&v) || starts_with(&v, &zx);
    }
    let (len, digits) = scan_chars(&v);
    let zx = chars_of("0x");
    proof {
        reveal_strlit("0x");
    }
    (digits || starts_with(&v, &zx)) && len > 20
}

/// Whether the event lookup left `resolved` a slug, so that the market
/// lookup is tried (see `needs_market_lookup_of`).
pub fn needs_market_lookup(resolved: &str) -> (r: bool)
    ensures
        r == needs_market_lookup_of(resolved@),
{
    let v = chars_of(resolved);
    if v.len() > usize::MAX / 4 {
        proof {
            lemma_utf8_len_at_least(v@);
        }
        return !all_digits_of(&v);
    }
    let (len, digits) = scan_chars(&v);
    !digits || len < 20
}

proof fn lemma_utf8_len_at_least(s: Seq<char>)
    ensures
        utf8_len(s) >= s.len(),
    decreases s.len(),
{
    if s.len() > 0 {
        lemma_utf8_len_at_least(s.drop_last());
    }
}

fn all_digits_of(v: &Vec<char>) -> (r: bool)
    ensures
        r == all_ascii_digits(v@),
{
    let mut i: usize = 0;
    while i < v.len()
        invariant
            i <= v@.len(),
            forall|k: int| 0 <= k < i ==> '0' <= #[trigger] v@[k] <= '9',
        decreases v@.len() - i,
    {
        if !('0' <= v[i] && v[i] <= '9') {
            return false;
        }
        i = i + 1;
    }
    true
}

/// The longest prefix of `s` that takes at most `n` bytes in UTF-8.
pub open spec fn bytes_prefix(s: Seq<char>, n: int) -> Seq<char>
    decreases s.len(),
{
    if s.len() == 0 || utf8_width(s[0]) > n {
        Seq::empty()
    } else {
        seq![s[0]] + bytes_prefix(s.skip(1), n - utf8_width(s[0]))
    }
}

/// `s` can be cut after `n` bytes: it is no longer, or some prefix of it
/// takes exactly `n` bytes.
pub open spec fn cuts_at(s: Seq<char>, n: int) -> bool {
    utf8_len(s) <= n || exists|k: int| 0 <= k <= s.len() && utf8_len(#[trigger] s.take(k)) == n
}

/// The short form of a market id used in cache file names: its first 16
/// bytes (all of it when shorter). The cut must fall between characters.
pub fn short_id(id: &str) -> (r: String)
    requires
        cuts_at(id@, 16),
    ensures
        r@ == bytes_prefix(id@, 16),
{
    let v = chars_of(id);
    let mut out = String::new();
    let mut budget: usize = 16;
    let mut i: usize = 0;
    let mut done = false;
    assert(v@.skip(0) =~= v@);
    while i < v.len() && !done
        invariant
            i <= v@.len(),
            budget <= 16,
            done ==> bytes_prefix(v@.skip(i as int), budget as int) == Seq::<char>::empty(),
            out@ + bytes_prefix(v@.skip(i as int), budget as int) == bytes_prefix(v@, 16),
        decreases v@.len() - i + (if done { 0int } else { 1int }),
    {
        let c = v[i];
        let w = char_width(c);
        let ghost rest = v@.skip(i as int);
        assert(rest[0] == c);
        if w > budget {
            done = true;
        } else {
            let ghost before = out@;
            push_char(&mut out, c);
            budget = budget - w;
            i = i + 1;
            proof {
                assert(rest.skip(1) =~= v@.skip(i as int));
                let tail = bytes_prefix(v@.skip(i as int), budget as int);
                assert(bytes_prefix(rest, (budget + w) as int) == seq![c] + tail);
                assert(out@ + tail =~= before + (seq![c] + tail));
            }
        }
    }
    proof {
        if !done {
            assert(v@.skip(i as int).len() == 0);
        }
        assert(out@ =~= bytes_prefix(v@, 16));
    }
    out
}

} // verus!
