//! Character-sequence helpers: the string operations the trading tools rely on
//! (prefix / suffix tests, substring search, suffix trimming, replacement,
//! whitespace trimming, unsigned decimal parsing), each stated over `Seq<char>`.
use vstd::prelude::*;

verus! {

// ── Specifications ──────────────────────────────────────────────────────────

/// `a` comes no later than `b` when both are compared character by
/// character by code point, a proper prefix first.
pub open spec fn lex_le(a: Seq<char>, b: Seq<char>) -> bool
    decreases a.len(),
{
    if a.len() == 0 {
        true
    } else if b.len() == 0 {
        false
    } else if a[0] != b[0] {
        (a[0] as int) < (b[0] as int)
    } else {
        lex_le(a.drop_first(), b.drop_first())
    }
}

/// Of two sequences one comes no later than the other.
pub proof fn lemma_lex_total(a: Seq<char>, b: Seq<char>)
    ensures
        lex_le(a, b) || lex_le(b, a),
    decreases a.len(),
{
    if a.len() > 0 && b.len() > 0 && a[0] == b[0] {
        lemma_lex_total(a.drop_first(), b.drop_first());
    }
}

/// The order is transitive.
pub proof fn lemma_lex_trans(a: Seq<char>, b: Seq<char>, c: Seq<char>)
    requires
        lex_le(a, b),
        lex_le(b, c),
    ensures
        lex_le(a, c),
    decreases a.len(),
{
    if a.len() > 0 && b.len() > 0 && c.len() > 0 && a[0] == b[0] && b[0] == c[0] {
        lemma_lex_trans(a.drop_first(), b.drop_first(), c.drop_first());
    }
}

/// The character of the decimal digit `d`.
pub open spec fn digit_char(d: int) -> char {
    (48 + d) as char
}

/// The decimal numeral of `n`, without leading zeros.
pub open spec fn decimal(n: nat) -> Seq<char>
    decreases n,
{
    if n < 10 {
        seq![digit_char(n as int)]
    } else {
        decimal(n / 10).push(digit_char((n % 10) as int))
    }
}

/// `p` is a prefix of `s`.
pub open spec fn has_prefix(s: Seq<char>, p: Seq<char>) -> bool {
    p.len() <= s.len() && s.subrange(0, p.len() as int) == p
}

/// `p` is a suffix of `s`.
pub open spec fn has_suffix(s: Seq<char>, p: Seq<char>) -> bool {
    p.len() <= s.len() && s.subrange(s.len() - p.len(), s.len() as int) == p
}

/// `p` occurs in `s` starting at position `i`.
pub open spec fn occurs_at(s: Seq<char>, p: Seq<char>, i: int) -> bool {
    0 <= i && i + p.len() <= s.len() && s.subrange(i, i + p.len()) == p
}

/// `p` occurs somewhere in `s`.
pub open spec fn has_infix(s: Seq<char>, p: Seq<char>) -> bool {
    exists|i: int| occurs_at(s, p, i)
}

/// Repeatedly removes the suffix `p` from `s` (what `str::trim_end_matches`
/// does with a non-empty string pattern).
pub open spec fn strip_suffix_all(s: Seq<char>, p: Seq<char>) -> Seq<char>
    decreases s.len(),
{
    if p.len() > 0 && has_suffix(s, p) {
        strip_suffix_all(s.subrange(0, s.len() - p.len()), p)
    } else {
        s
    }
}

/// `s` with every leading occurrence of `p` removed, one after another
/// (what `str::trim_start_matches` does with a non-empty pattern).
pub open spec fn strip_prefix_all(s: Seq<char>, p: Seq<char>) -> Seq<char>
    decreases s.len(),
{
    if p.len() > 0 && has_prefix(s, p) {
        strip_prefix_all(s.subrange(p.len() as int, s.len() as int), p)
    } else {
        s
    }
}

/// Replaces every non-overlapping occurrence of `from`, scanning from the left,
/// by `to` (what `str::replace` does with a non-empty pattern).
pub open spec fn replace_all(s: Seq<char>, from: Seq<char>, to: Seq<char>) -> Seq<char>
    decreases s.len(),
{
    if s.len() == 0 || from.len() == 0 {
        s
    } else if has_prefix(s, from) {
        to + replace_all(s.subrange(from.len() as int, s.len() as int), from, to)
    } else {
        seq![s[0]] + replace_all(s.subrange(1, s.len() as int), from, to)
    }
}

/// The Unicode `White_Space` characters (what `char::is_whitespace` accepts).
pub open spec fn is_white(c: char) -> bool {
    let u = c as u32;
    (0x09 <= u && u <= 0x0d) || u == 0x20 || u == 0x85 || u == 0xa0 || u == 0x1680 || (0x2000
        <= u && u <= 0x200a) || u == 0x2028 || u == 0x2029 || u == 0x202f || u == 0x205f || u
        == 0x3000
}

/// Number of leading white-space characters of `s`.
pub open spec fn lead_white(s: Seq<char>) -> nat
    decreases s.len(),
{
    if s.len() > 0 && is_white(s[0]) {
        1 + lead_white(s.subrange(1, s.len() as int))
    } else {
        0
    }
}

/// Number of trailing white-space characters of `s`.
pub open spec fn trail_white(s: Seq<char>) -> nat
    decreases s.len(),
{
    if s.len() > 0 && is_white(s[s.len() - 1]) {
        1 + trail_white(s.subrange(0, s.len() - 1))
    } else {
        0
    }
}

/// `s` without leading and trailing white space (what `str::trim` returns).
pub open spec fn trimmed(s: Seq<char>) -> Seq<char> {
    let a = lead_white(s) as int;
    let rest = s.subrange(a, s.len() as int);
    rest.subrange(0, rest.len() - trail_white(rest))
}

/// `c` is an ASCII decimal digit.
pub open spec fn is_digit(c: char) -> bool {
    '0' <= c && c <= '9'
}

/// Value of a sequence of ASCII decimal digits.
pub open spec fn digits_value(s: Seq<char>) -> int
    decreases s.len(),
{
    if s.len() == 0 {
        0
    } else {
        digits_value(s.subrange(0, s.len() - 1)) * 10 + ((s[s.len() - 1] as u32) - ('0' as u32))
    }
}

/// All characters of `s` are ASCII digits, and there is at least one.
pub open spec fn all_digits(s: Seq<char>) -> bool {
    s.len() > 0 && forall|i: int| 0 <= i < s.len() ==> is_digit(#[trigger] s[i])
}

/// What `str::parse` gives for an unsigned integer type whose largest value is
/// `max`: an optional `+`, then one or more ASCII digits, with a value not above
/// `max`.
pub open spec fn parse_unsigned(s: Seq<char>, max: int) -> Option<int> {
    let body = if s.len() > 0 && s[0] == '+' {
        s.subrange(1, s.len() as int)
    } else {
        s
    };
    if all_digits(body) && digits_value(body) <= max {
        Some(digits_value(body))
    } else {
        None
    }
}

/// What `str::to_uppercase` returns for a string with characters `s` (the
/// Unicode upper-case mapping, which may change the length).
pub uninterp spec fn upper_of(s: Seq<char>) -> Seq<char>;

/// What `str::to_lowercase` returns for a string with characters `s` (the
/// Unicode lower-case mapping, which may change the length).
pub uninterp spec fn lower_of(s: Seq<char>) -> Seq<char>;

// ── Lemmas ──────────────────────────────────────────────────────────────────

proof fn lemma_digits_value_nonneg(s: Seq<char>)
    requires
        forall|i: int| 0 <= i < s.len() ==> is_digit(#[trigger] s[i]),
    ensures
        digits_value(s) >= 0,
    decreases s.len(),
{
    if s.len() > 0 {
        let t = s.subrange(0, s.len() - 1);
        assert forall|i: int| 0 <= i < t.len() implies is_digit(#[trigger] t[i]) by {
            assert(t[i] == s[i]);
        }
        lemma_digits_value_nonneg(t);
        assert(is_digit(s[s.len() - 1]));
    }
}

proof fn lemma_digits_value_prefix_le(s: Seq<char>, k: int)
    requires
        0 <= k <= s.len(),
        forall|i: int| 0 <= i < s.len() ==> is_digit(#[trigger] s[i]),
    ensures
        digits_value(s.subrange(0, k)) <= digits_value(s),
    decreases s.len() - k,
{
    if k < s.len() {
        lemma_digits_value_prefix_le(s, k + 1);
        let t = s.subrange(0, k + 1);
        assert(t.subrange(0, k) == s.subrange(0, k));
        assert(t[k] == s[k]);
        assert(is_digit(s[k]));
        let u = s.subrange(0, k);
        assert forall|i: int| 0 <= i < u.len() implies is_digit(#[trigger] u[i]) by {
            assert(u[i] == s[i]);
        }
        lemma_digits_value_nonneg(u);
    } else {
        assert(s.subrange(0, k) == s);
    }
}

// ── Executable helpers ──────────────────────────────────────────────────────

/// Appends one character to a `String` (`String::push`).
#[verifier::external_body]
pub(crate) fn push_char(s: &mut String, c: char)
    ensures
        final(s)@ == old(s)@.push(c),
{
    s.push(c);
}

/// Whether `c` is white space as `char::is_whitespace` counts it: one of the
/// Unicode `White_Space` characters, listed in `is_white`.
fn char_is_whitespace(c: char) -> (r: bool)
    ensures
        r == is_white(c),
{
    let u = c as u32;
    (0x09 <= u && u <= 0x0d) || u == 0x20 || u == 0x85 || u == 0xa0 || u == 0x1680 || (0x2000 <= u && u
        <= 0x200a) || u == 0x2028 || u == 0x2029 || u == 0x202f || u == 0x205f || u == 0x3000
}

/// `str::to_uppercase`: the result is named `upper_of` of the argument's
/// characters; nothing more is claimed of the Unicode mapping.
#[verifier::external_body]
pub(crate) fn to_upper(s: &str) -> (r: String)
    ensures
        r@ == upper_of(s@),
{
    s.to_uppercase()
}

/// `str::to_lowercase`: the result is named `lower_of` of the argument's
/// characters; nothing more is claimed of the Unicode mapping.
#[verifier::external_body]
pub(crate) fn to_lower(s: &str) -> (r: String)
    ensures
        r@ == lower_of(s@),
{
    s.to_lowercase()
}

/// Whether two character sequences are equal.
pub fn same_chars(a: &Vec<char>, b: &Vec<char>) -> (r: bool)
    ensures
        r == (a@ == b@),
{
    if a.len() != b.len() {
        return false;
    }
    let mut i: usize = 0;
    while i < a.len()
        invariant
            a.len() == b.len(),
            i <= a.len(),
            forall|k: int| 0 <= k < i ==> a@[k] == b@[k],
        decreases a.len() - i,
    {
        if a[i] != b[i] {
            return false;
        }
        i = i + 1;
    }
    assert(a@ =~= b@);
    true
}

/// Whether `a` comes no later than `b` in code-point order.
pub fn lex_le_chars(a: &Vec<char>, b: &Vec<char>) -> (r: bool)
    ensures
        r == lex_le(a@, b@),
{
    let mut i: usize = 0;
    assert(a@.skip(0) =~= a@);
    assert(b@.skip(0) =~= b@);
    while i < a.len() && i < b.len()
        invariant
            i <= a@.len(),
            i <= b@.len(),
            lex_le(a@, b@) == lex_le(a@.skip(i as int), b@.skip(i as int)),
        decreases a@.len() - i,
    {
        if a[i] != b[i] {
            assert(a@.skip(i as int)[0] == a@[i as int]);
            assert(b@.skip(i as int)[0] == b@[i as int]);
            return a[i] < b[i];
        }
        assert(a@.skip(i as int).drop_first() =~= a@.skip(i as int + 1));
        assert(b@.skip(i as int).drop_first() =~= b@.skip(i as int + 1));
        i = i + 1;
    }
    i == a.len()
}

/// Appends the characters of `part` to `s`.
pub fn push_text(s: &mut String, part: &str)
    ensures
        final(s)@ == old(s)@ + part@,
{
    let v = chars_of(part);
    let mut i: usize = 0;
    let ghost start = s@;
    while i < v.len()
        invariant
            i <= v.len(),
            v@ == part@,
            s@ == start + v@.subrange(0, i as int),
        decreases v.len() - i,
    {
        push_char(s, v[i]);
        i = i + 1;
    }
    assert(v@.subrange(0, v@.len() as int) == v@);
}

/// Appends the decimal numeral of `n` to `s`.
pub fn push_decimal(s: &mut String, n: u64)
    ensures
        final(s)@ == old(s)@ + decimal(n as nat),
    decreases n,
{
    if n >= 10 {
        push_decimal(s, n / 10);
    }
    let d: u8 = (n % 10) as u8;
    let c = (48u8 + d) as char;
    push_char(s, c);
    assert(s@ =~= old(s)@ + decimal(n as nat));
}

/// The decimal numeral of `n`.
pub fn decimal_string(n: u64) -> (r: String)
    ensures
        r@ == decimal(n as nat),
{
    let mut s = String::new();
    push_decimal(&mut s, n);
    assert(s@ =~= decimal(n as nat));
    s
}

/// Whether the characters of `a` equal those of the string slice `b`.
pub fn same_as(a: &Vec<char>, b: &str) -> (r: bool)
    ensures
        r == (a@ == b@),
{
    let bv = chars_of(b);
    same_chars(a, &bv)
}

/// The characters of a string slice, in order.
pub fn chars_of(s: &str) -> (v: Vec<char>)
    ensures
        v@ == s@,
{
    let mut v: Vec<char> = Vec::new();
    for c in it: s.chars()
        invariant
            v@ == it.seq().take(it.index() as int),
    {
        v.push(c);
    }
    v
}

/// The string made of the characters of `v`, in order.
pub fn string_of(v: &Vec<char>) -> (s: String)
    ensures
        s@ == v@,
{
    let mut s = String::new();
    let mut i: usize = 0;
    while i < v.len()
        invariant
            i <= v.len(),
            s@ == v@.subrange(0, i as int),
        decreases v.len() - i,
    {
        push_char(&mut s, v[i]);
        i = i + 1;
        assert(s@ == v@.subrange(0, i as int));
    }
    s
}

/// Whether `p` occurs in `s` at position `at`.
pub fn matches_at(s: &Vec<char>, p: &Vec<char>, at: usize) -> (r: bool)
    ensures
        r == occurs_at(s@, p@, at as int),
{
    if at > s.len() || p.len() > s.len() - at {
        return false;
    }
    let mut j: usize = 0;
    while j < p.len()
        invariant
            at + p.len() <= s.len(),
            j <= p.len(),
            forall|k: int| 0 <= k < j ==> s@[at + k] == p@[k],
        decreases p.len() - j,
    {
        if s[at + j] != p[j] {
            assert(s@.subrange(at as int, at + p.len())[j as int] != p@[j as int]);
            return false;
        }
        j = j + 1;
    }
    assert(s@.subrange(at as int, at + p.len()) =~= p@);
    true
}

/// Whether `s` begins with `p`.
pub fn starts_with(s: &Vec<char>, p: &Vec<char>) -> (r: bool)
    ensures
        r == has_prefix(s@, p@),
{
    matches_at(s, p, 0)
}

/// Whether `s` ends with `p`.
pub fn ends_with(s: &Vec<char>, p: &Vec<char>) -> (r: bool)
    ensures
        r == has_suffix(s@, p@),
{
    if p.len() > s.len() {
        false
    } else {
        matches_at(s, p, s.len() - p.len())
    }
}

/// Whether `p` occurs anywhere in `s`.
pub fn contains(s: &Vec<char>, p: &Vec<char>) -> (r: bool)
    ensures
        r == has_infix(s@, p@),
{
    if p.len() > s.len() {
        assert forall|i: int| !occurs_at(s@, p@, i) by {}
        return false;
    }
    let last = s.len() - p.len();
    let mut i: usize = 0;
    while i < last
        invariant
            last == s.len() - p.len(),
            i <= last,
            forall|k: int| 0 <= k < i ==> !occurs_at(s@, p@, k),
        decreases last - i,
    {
        if matches_at(s, p, i) {
            return true;
        }
        i = i + 1;
    }
    if matches_at(s, p, last) {
        return true;
    }
    assert forall|k: int| !occurs_at(s@, p@, k) by {
        if 0 <= k < i {
        }
    }
    false
}

/// `s` with every trailing copy of the non-empty suffix `p` removed.
pub fn trim_suffix_all(s: &Vec<char>, p: &Vec<char>) -> (r: Vec<char>)
    requires
        p@.len() > 0,
    ensures
        r@ == strip_suffix_all(s@, p@),
{
    let mut end: usize = s.len();
    assert(s@.subrange(0, end as int) == s@);
    while p.len() <= end && matches_at(s, p, end - p.len())
        invariant
            end <= s.len(),
            p@.len() > 0,
            strip_suffix_all(s@.subrange(0, end as int), p@) == strip_suffix_all(s@, p@),
        decreases end,
    {
        proof {
            let t = s@.subrange(0, end as int);
            assert(t.subrange(t.len() - p@.len(), t.len() as int) == s@.subrange(
                end - p@.len(),
                end as int,
            ));
            assert(has_suffix(t, p@));
            assert(t.subrange(0, t.len() - p@.len()) == s@.subrange(0, end - p@.len()));
        }
        end = end - p.len();
    }
    proof {
        let t = s@.subrange(0, end as int);
        if p@.len() <= t.len() {
            assert(t.subrange(t.len() - p@.len(), t.len() as int) == s@.subrange(
                end - p@.len(),
                end as int,
            ));
        }
        assert(!has_suffix(t, p@));
    }
    let mut r: Vec<char> = Vec::new();
    let mut i: usize = 0;
    while i < end
        invariant
            end <= s.len(),
            i <= end,
            r@ == s@.subrange(0, i as int),
        decreases end - i,
    {
        r.push(s[i]);
        i = i + 1;
    }
    r
}

proof fn lemma_replace_step(s: Seq<char>, from: Seq<char>, to: Seq<char>, i: int)
    requires
        0 <= i < s.len(),
        from.len() > 0,
    ensures
        occurs_at(s, from, i) ==> replace_all(s.subrange(i, s.len() as int), from, to) == to
            + replace_all(s.subrange(i + from.len(), s.len() as int), from, to),
        !occurs_at(s, from, i) ==> replace_all(s.subrange(i, s.len() as int), from, to) == seq![
            s[i],
        ] + replace_all(s.subrange(i + 1, s.len() as int), from, to),
{
    let t = s.subrange(i, s.len() as int);
    if from.len() <= t.len() {
        assert(t.subrange(0, from.len() as int) == s.subrange(i, i + from.len()));
    }
    assert(has_prefix(t, from) == occurs_at(s, from, i));
    if occurs_at(s, from, i) {
        assert(t.subrange(from.len() as int, t.len() as int) == s.subrange(
            i + from.len(),
            s.len() as int,
        ));
    } else {
        assert(t.subrange(1, t.len() as int) == s.subrange(i + 1, s.len() as int));
    }
}

/// `s` with every non-overlapping occurrence of the non-empty `from`, found
/// from the left, replaced by `to`.
pub fn replace_all_chars(s: &Vec<char>, from: &Vec<char>, to: &Vec<char>) -> (r: Vec<char>)
    requires
        from@.len() > 0,
    ensures
        r@ == replace_all(s@, from@, to@),
{
    let mut out: Vec<char> = Vec::new();
    let mut i: usize = 0;
    assert(s@.subrange(0, s@.len() as int) == s@);
    assert(out@ + s@ == s@);
    while i < s.len()
        invariant
            i <= s.len(),
            from@.len() > 0,
            replace_all(s@, from@, to@) == out@ + replace_all(
                s@.subrange(i as int, s@.len() as int),
                from@,
                to@,
            ),
        decreases s.len() - i,
    {
        proof {
            lemma_replace_step(s@, from@, to@, i as int);
        }
        if matches_at(s, from, i) {
            let mut j: usize = 0;
            let ghost before = out@;
            while j < to.len()
                invariant
                    j <= to.len(),
                    out@ == before + to@.subrange(0, j as int),
                decreases to.len() - j,
            {
                out.push(to[j]);
                j = j + 1;
            }
            assert(to@.subrange(0, to@.len() as int) == to@);
            i = i + from.len();
        } else {
            out.push(s[i]);
            i = i + 1;
        }
    }
    assert(s@.subrange(s@.len() as int, s@.len() as int) == Seq::<char>::empty());
    out
}

/// The number of leading white-space characters of `s`.
pub fn lead_white_count(s: &Vec<char>) -> (r: usize)
    ensures
        r == lead_white(s@),
        r <= s@.len(),
{
    let mut a: usize = 0;
    assert(s@.subrange(0, s@.len() as int) == s@);
    while a < s.len() && char_is_whitespace(s[a])
        invariant
            a <= s.len(),
            lead_white(s@) == a + lead_white(s@.subrange(a as int, s@.len() as int)),
        decreases s.len() - a,
    {
        proof {
            let t = s@.subrange(a as int, s@.len() as int);
            assert(t.subrange(1, t.len() as int) == s@.subrange(a + 1, s@.len() as int));
        }
        a = a + 1;
    }
    proof {
        let t = s@.subrange(a as int, s@.len() as int);
        if t.len() > 0 {
            assert(t[0] == s@[a as int]);
        }
        assert(lead_white(t) == 0);
    }
    a
}

/// `s` without its leading white space (`str::trim_start`).
pub fn trim_start_chars(s: &Vec<char>) -> (r: Vec<char>)
    ensures
        r@ == s@.skip(lead_white(s@) as int),
{
    let a = lead_white_count(s);
    let mut r: Vec<char> = Vec::new();
    let mut i: usize = a;
    while i < s.len()
        invariant
            a <= i <= s@.len(),
            r@ == s@.subrange(a as int, i as int),
        decreases s@.len() - i,
    {
        r.push(s[i]);
        i = i + 1;
    }
    assert(r@ =~= s@.skip(a as int));
    r
}

/// `s` with every leading occurrence of `p` removed (`str::trim_start_matches`).
pub fn trim_prefix_all(s: &Vec<char>, p: &Vec<char>) -> (r: Vec<char>)
    requires
        p@.len() > 0,
    ensures
        r@ == strip_prefix_all(s@, p@),
{
    let mut start: usize = 0;
    assert(s@.subrange(0, s@.len() as int) == s@);
    while start <= s.len() && matches_at(s, p, start)
        invariant
            start <= s@.len(),
            p@.len() > 0,
            strip_prefix_all(s@.subrange(start as int, s@.len() as int), p@) == strip_prefix_all(s@, p@),
        decreases s@.len() - start,
    {
        proof {
            let t = s@.subrange(start as int, s@.len() as int);
            assert(t.subrange(0, p@.len() as int) == s@.subrange(start as int, start + p@.len()));
            assert(has_prefix(t, p@));
            assert(t.subrange(p@.len() as int, t.len() as int) == s@.subrange(start + p@.len(), s@.len() as int));
        }
        start = start + p.len();
    }
    proof {
        let t = s@.subrange(start as int, s@.len() as int);
        if p@.len() <= t.len() {
            assert(t.subrange(0, p@.len() as int) == s@.subrange(start as int, start + p@.len()));
        }
        assert(!has_prefix(t, p@));
    }
    let mut r: Vec<char> = Vec::new();
    let mut i: usize = start;
    while i < s.len()
        invariant
            start <= i <= s@.len(),
            r@ == s@.subrange(start as int, i as int),
        decreases s@.len() - i,
    {
        r.push(s[i]);
        i = i + 1;
    }
    r
}

/// `s` with leading and trailing white space removed (`str::trim`).
pub fn trim_white(s: &Vec<char>) -> (r: Vec<char>)
    ensures
        r@ == trimmed(s@),
{
    let mut a: usize = 0;
    assert(s@.subrange(0, s@.len() as int) == s@);
    while a < s.len() && char_is_whitespace(s[a])
        invariant
            a <= s.len(),
            lead_white(s@) == a + lead_white(s@.subrange(a as int, s@.len() as int)),
        decreases s.len() - a,
    {
        proof {
            let t = s@.subrange(a as int, s@.len() as int);
            assert(t.subrange(1, t.len() as int) == s@.subrange(a + 1, s@.len() as int));
        }
        a = a + 1;
    }
    proof {
        let t = s@.subrange(a as int, s@.len() as int);
        if t.len() > 0 {
            assert(t[0] == s@[a as int]);
        }
        assert(lead_white(t) == 0);
    }
    let ghost rest = s@.subrange(a as int, s@.len() as int);
    let mut b: usize = s.len();
    while b > a && char_is_whitespace(s[b - 1])
        invariant
            a <= b <= s.len(),
            rest == s@.subrange(a as int, s@.len() as int),
            trail_white(rest) == (s.len() - b) + trail_white(s@.subrange(a as int, b as int)),
        decreases b,
    {
        proof {
            let t = s@.subrange(a as int, b as int);
            assert(t[t.len() - 1] == s@[b - 1]);
            assert(t.subrange(0, t.len() - 1) == s@.subrange(a as int, b - 1));
        }
        b = b - 1;
    }
    proof {
        let t = s@.subrange(a as int, b as int);
        if t.len() > 0 {
            assert(t[t.len() - 1] == s@[b - 1]);
        }
        assert(trail_white(t) == 0);
        assert(rest.subrange(0, rest.len() - trail_white(rest)) == s@.subrange(a as int, b as int));
    }
    let mut r: Vec<char> = Vec::new();
    let mut i: usize = a;
    while i < b
        invariant
            a <= i <= b,
            b <= s.len(),
            r@ == s@.subrange(a as int, i as int),
        decreases b - i,
    {
        r.push(s[i]);
        i = i + 1;
    }
    r
}

/// Parses an unsigned decimal number whose largest value is `max`, the way
/// `str::parse` does for unsigned integer types: an optional `+`, then at least
/// one ASCII digit; `None` on anything else or on a value above `max`.
pub fn parse_unsigned_chars(s: &Vec<char>, max: u64) -> (r: Option<u64>)
    ensures
        match r {
            Some(x) => parse_unsigned(s@, max as int) == Some(x as int),
            None => parse_unsigned(s@, max as int) is None,
        },
{
    let start: usize = if s.len() > 0 && s[0] == '+' {
        1
    } else {
        0
    };
    let ghost body = s@.subrange(start as int, s@.len() as int);
    assert(body == (if s@.len() > 0 && s@[0] == '+' {
        s@.subrange(1, s@.len() as int)
    } else {
        s@
    }));
    if start >= s.len() {
        assert(body.len() == 0);
        return None;
    }
    let mut acc: u64 = 0;
    let mut i: usize = start;
    while i < s.len()
        invariant
            start <= i <= s.len(),
            start < s.len(),
            body == s@.subrange(start as int, s@.len() as int),
            body == (if s@.len() > 0 && s@[0] == '+' {
                s@.subrange(1, s@.len() as int)
            } else {
                s@
            }),
            forall|k: int| 0 <= k < i - start ==> is_digit(#[trigger] body[k]),
            acc == digits_value(body.subrange(0, i - start)),
            acc <= max,
        decreases s.len() - i,
    {
        let c = s[i];
        if !('0' <= c && c <= '9') {
            assert(body[i - start] == c);
            assert(!is_digit(body[i - start]));
            return None;
        }
        let d: u64 = (c as u32 - '0' as u32) as u64;
        let ghost pre = body.subrange(0, i - start);
        let ghost next = body.subrange(0, i - start + 1);
        proof {
            assert(next.subrange(0, next.len() - 1) == pre);
            assert(next[next.len() - 1] == c);
            assert(digits_value(next) == acc * 10 + d);
        }
        if d > max || acc > (max - d) / 10 {
            proof {
                if d <= max {
                    assert(acc * 10 + d > max) by (nonlinear_arith)
                        requires
                            acc > (max - d) / 10,
                            d <= max,
                    ;
                }
                assert forall|k: int| 0 <= k < next.len() implies is_digit(#[trigger] next[k]) by {
                    if k < i - start {
                        assert(next[k] == body[k]);
                    }
                }
                if all_digits(body) {
                    assert forall|k: int| 0 <= k < body.len() implies is_digit(#[trigger] body[k]) by {}
                    lemma_digits_value_prefix_le(body, i - start + 1);
                }
            }
            return None;
        }
        acc = acc * 10 + d;
        i = i + 1;
    }
    assert(body.subrange(0, s@.len() - start) == body);
    Some(acc)
}

} // verus!
