//! Binance USD-M futures requests: the HMAC-SHA256 signature every private
//! request carries, and the query strings and URLs of the order, position and
//! account endpoints.
use vstd::prelude::*;
use hmac::{Hmac, Mac};
use sha2::Sha256;
use vstd::utf8::encode_utf8;
use crate::text::{decimal, push_decimal, push_text, to_upper, upper_of};

verus! {

/// The REST endpoint of Binance USD-M futures.
pub const BASE_URL: &'static str = "https://fapi.binance.com";

/// The HMAC-SHA256 tag of `msg` under the key `key`.
pub uninterp spec fn hmac_sha256(key: Seq<u8>, msg: Seq<u8>) -> Seq<u8>;

/// HMAC-SHA256 from the `hmac` and `sha2` crates (`Hmac::<Sha256>`, keyed
/// with `new_from_slice`, fed with `update`, read with `finalize`). Claimed:
/// the tag is `hmac_sha256` of the key and the message, and it is 32 bytes
/// long (the SHA-256 output size). `new_from_slice` accepts a key of any
/// length for HMAC, so the `expect` never fires.
#[verifier::external_body]
fn hmac_sha256_tag(key: &[u8], msg: &[u8]) -> (r: Vec<u8>)
    ensures
        r@ == hmac_sha256(key@, msg@),
        r@.len() == 32,
{
    let mut mac = Hmac::<Sha256>::new_from_slice(key).expect("HMAC takes a key of any length");
    mac.update(msg);
    mac.finalize().into_bytes().to_vec()
}

/// The lower-case hexadecimal digit of `n` (0..15).
pub open spec fn hex_digit(n: int) -> char {
    if n < 10 {
        (48 + n) as char
    } else {
        (87 + n) as char
    }
}

/// Each byte as two lower-case hexadecimal digits, high nibble first.
pub open spec fn hex_lower(b: Seq<u8>) -> Seq<char>
    decreases b.len(),
{
    if b.len() == 0 {
        Seq::empty()
    } else {
        seq![hex_digit(b[0] as int / 16), hex_digit(b[0] as int % 16)] + hex_lower(b.drop_first())
    }
}

/// Two digits per byte.
pub proof fn lemma_hex_len(b: Seq<u8>)
    ensures
        hex_lower(b).len() == 2 * b.len(),
    decreases b.len(),
{
    if b.len() > 0 {
        lemma_hex_len(b.drop_first());
    }
}

/// `hex::encode`: each byte as two digits from the table
/// `0123456789abcdef`, high nibble first (the crate's `BytesToHexChars`).
#[verifier::external_body]
fn hex_encode(bytes: &[u8]) -> (r: String)
    ensures
        r@ == hex_lower(bytes@),
{
    hex::encode(bytes)
}

/// The signature of a request: the hex HMAC-SHA256 of the query string's
/// UTF-8 bytes under the API secret's UTF-8 bytes.
pub open spec fn signature_of(query: Seq<char>, secret: Seq<char>) -> Seq<char> {
    hex_lower(hmac_sha256(encode_utf8(secret), encode_utf8(query)))
}

/// Signs a query string with the API secret: 64 lower-case hex digits.
pub fn sign_query(query: &str, secret: &str) -> (r: String)
    ensures
        r@ == signature_of(query@, secret@),
        r@.len() == 64,
{
    let tag = hmac_sha256_tag(secret.as_bytes(), query.as_bytes());
    proof {
        lemma_hex_len(tag@);
    }
    hex_encode(tag.as_slice())
}

/// The query of a market order: upper-cased symbol, side, quantity (already
/// formatted), timestamp, a 5000 ms receive window, and the reduce-only flag
/// when set.
pub open spec fn order_query_of(symbol: Seq<char>, side: Seq<char>, quantity: Seq<char>, ts: nat, reduce_only: bool) -> Seq<char> {
    "symbol="@ + upper_of(symbol) + "&side="@ + side + "&type=MARKET&quantity="@ + quantity + "&timestamp="@
        + decimal(ts) + "&recvWindow=5000"@ + (if reduce_only { "&reduceOnly=true"@ } else { Seq::empty() })
}

/// The query string of a market order.
pub fn order_query(symbol: &str, side: &str, quantity: &str, timestamp: u64, reduce_only: bool) -> (r: String)
    ensures
        r@ == order_query_of(symbol@, side@, quantity@, timestamp as nat, reduce_only),
{
    let mut q = String::new();
    push_text(&mut q, "symbol=");
    let upper = to_upper(symbol);
    push_text(&mut q, upper.as_str());
    push_text(&mut q, "&side=");
    push_text(&mut q, side);
    push_text(&mut q, "&type=MARKET&quantity=");
    push_text(&mut q, quantity);
    push_text(&mut q, "&timestamp=");
    push_decimal(&mut q, timestamp);
    push_text(&mut q, "&recvWindow=5000");
    if reduce_only {
        push_text(&mut q, "&reduceOnly=true");
    }
    assert(q@ =~= order_query_of(symbol@, side@, quantity@, timestamp as nat, reduce_only));
    q
}

/// The query of a position lookup: upper-cased symbol, timestamp and a
/// 5000 ms receive window.
pub open spec fn position_query_of(symbol: Seq<char>, ts: nat) -> Seq<char> {
    "symbol="@ + upper_of(symbol) + "&timestamp="@ + decimal(ts) + "&recvWindow=5000"@
}

/// The query string of a position lookup.
pub fn position_query(symbol: &str, timestamp: u64) -> (r: String)
    ensures
        r@ == position_query_of(symbol@, timestamp as nat),
{
    let mut q = String::new();
    push_text(&mut q, "symbol=");
    let upper = to_upper(symbol);
    push_text(&mut q, upper.as_str());
    push_text(&mut q, "&timestamp=");
    push_decimal(&mut q, timestamp);
    push_text(&mut q, "&recvWindow=5000");
    assert(q@ =~= position_query_of(symbol@, timestamp as nat));
    q
}

/// The query string of an account check: timestamp and a 5000 ms receive
/// window.
pub fn account_query(timestamp: u64) -> (r: String)
    ensures
        r@ == "timestamp="@ + decimal(timestamp as nat) + "&recvWindow=5000"@,
{
    let mut q = String::new();
    push_text(&mut q, "timestamp=");
    push_decimal(&mut q, timestamp);
    push_text(&mut q, "&recvWindow=5000");
    q
}

/// The full URL of a signed request to `path`: the endpoint, the query and
/// its signature.
pub fn signed_url(path: &str, query: &str, secret: &str) -> (r: String)
    ensures
        r@ == BASE_URL@ + path@ + "?"@ + query@ + "&signature="@ + signature_of(query@, secret@),
{
    let mut u = String::new();
    push_text(&mut u, BASE_URL);
    push_text(&mut u, path);
    push_text(&mut u, "?");
    push_text(&mut u, query);
    push_text(&mut u, "&signature=");
    let sig = sign_query(query, secret);
    push_text(&mut u, sig.as_str());
    u
}

/// The side of the order that closes a position: sell a long one, buy back
/// a short one.
pub fn closing_side(is_long: bool) -> (r: &'static str)
    ensures
        r@ == (if is_long { "SELL"@ } else { "BUY"@ }),
{
    if is_long {
        "SELL"
    } else {
        "BUY"
    }
}

/// The index of the open position of `symbol` among the reported ones:
/// `positions` holds each one's symbol and whether its amount is nonzero; the
/// first whose symbol equals the upper-cased `symbol` and whose amount is
/// nonzero.
pub fn find_open_position(positions: &Vec<(String, bool)>, symbol: &str) -> (r: Option<usize>)
    ensures
        match r {
            Some(i) => i < positions@.len() && positions@[i as int].0@ == upper_of(symbol@) && positions@[i as int].1
                && forall|j: int| 0 <= j < i ==> !(positions@[j].0@ == upper_of(symbol@) && positions@[j].1),
            None => forall|j: int| 0 <= j < positions@.len() ==> !(positions@[j].0@ == upper_of(symbol@) && positions@[j].1),
        },
{
    let upper = to_upper(symbol);
    let mut i: usize = 0;
    while i < positions.len()
        invariant
            i <= positions@.len(),
            upper@ == upper_of(symbol@),
            forall|j: int| 0 <= j < i ==> !(positions@[j].0@ == upper_of(symbol@) && positions@[j].1),
        decreases positions@.len() - i,
    {
        if positions[i].1 && positions[i].0 == upper {
            return Some(i);
        }
        i = i + 1;
    }
    None
}

/// The system clock's time, `std::time::SystemTime`; opaque here.
#[verifier::external_type_specification]
#[verifier::external_body]
pub struct ExSystemTime(std::time::SystemTime);

/// `SystemTime::now`: the system clock's current time. Nothing is claimed
/// of it: it is the time.
#[verifier::external_body]
fn system_now() -> (r: std::time::SystemTime)
{
    std::time::SystemTime::now()
}

/// `SystemTime::duration_since(UNIX_EPOCH)`: how long after the Unix epoch
/// `t` lies, none when it lies before (the error is dropped). Nothing is
/// claimed of the duration: the time is opaque here.
#[verifier::external_body]
fn since_epoch(t: &std::time::SystemTime) -> (r: Option<std::time::Duration>)
{
    t.duration_since(std::time::UNIX_EPOCH).ok()
}

/// `Duration::as_millis`: the whole milliseconds of `d`. Nothing is claimed
/// of the count: the duration is opaque here.
#[verifier::external_body]
fn duration_millis(d: &std::time::Duration) -> (r: u128)
{
    d.as_millis()
}

/// Milliseconds since the Unix epoch on the system clock; none when the
/// clock is set before 1970.
fn unix_millis() -> Option<u128> {
    let now = system_now();
    match since_epoch(&now) {
        Some(d) => Some(duration_millis(&d)),
        None => None,
    }
}

/// The request timestamp for a clock reading of `clock` milliseconds since
/// the Unix epoch: the reading truncated to 64 bits, and 0 where there is no
/// reading (a clock set before 1970).
pub open spec fn timestamp_of(clock: Option<u128>) -> u64 {
    match clock {
        Some(ms) => (ms % 0x1_0000_0000_0000_0000) as u64,
        None => 0,
    }
}

/// The request timestamp for a clock reading: the milliseconds truncated to
/// 64 bits, or 0 where the clock gave no reading.
pub fn timestamp_from_clock(clock: Option<u128>) -> (r: u64)
    ensures
        r == timestamp_of(clock),
{
    match clock {
        Some(ms) => {
            let t = #[verifier::truncate] (ms as u64);
            assert(t == (ms % 0x1_0000_0000_0000_0000) as u64) by (bit_vector)
                requires
                    t == #[verifier::truncate] (ms as u64),
            ;
            t
        },
        None => 0,
    }
}

/// The request timestamp: milliseconds since the Unix epoch, truncated to
/// 64 bits; 0 when the clock is set before 1970. What the clock reads is not
/// known here; `timestamp_from_clock` states what is made of any reading.
pub fn timestamp_ms() -> (r: u64)
{
    timestamp_from_clock(unix_millis())
}

} // verus!
