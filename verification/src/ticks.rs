//! The tick recorder's files: which daily files the pruner removes, and the
//! most recent ticks a reader is given.
use vstd::prelude::*;
use crate::text::{chars_of, ends_with, lex_le, lex_le_chars, same_chars, strip_suffix_all, trim_suffix_all};

verus! {

/// `a` comes strictly before `b` in code-point order.
pub open spec fn lex_lt(a: Seq<char>, b: Seq<char>) -> bool {
    lex_le(a, b) && a != b
}

/// Whether the pruner removes the file `name`: pruning is on (a positive
/// retention), it is a `.jsonl` file, and its date (the name without its
/// `.jsonl` endings) sorts before the cutoff day.
pub open spec fn pruned(retain_days: u64, name: Seq<char>, cutoff_day: Seq<char>) -> bool {
    retain_days > 0 && crate::text::has_suffix(name, ".jsonl"@)
        && lex_lt(strip_suffix_all(name, ".jsonl"@), cutoff_day)
}

/// Whether the file `name` is removed when files before `cutoff_day` go.
pub fn prune_selected(retain_days: u64, name: &str, cutoff_day: &str) -> (r: bool)
    ensures
        r == pruned(retain_days, name@, cutoff_day@),
{
    if retain_days == 0 {
        return false;
    }
    let v = chars_of(name);
    let ext = chars_of(".jsonl");
    proof {
        reveal_strlit(".jsonl");
    }
    if !ends_with(&v, &ext) {
        return false;
    }
    let date = trim_suffix_all(&v, &ext);
    let cut = chars_of(cutoff_day);
    lex_le_chars(&date, &cut) && !same_chars(&date, &cut)
}

/// The last `n` items of `items` (all of them when there are fewer).
pub fn keep_last<T>(items: Vec<T>, n: usize) -> (r: Vec<T>)
    ensures
        r@ == if items@.len() > n { items@.skip(items@.len() - n) } else { items@ },
{
    let mut items = items;
    if items.len() > n {
        let at = items.len() - n;
        let tail = items.split_off(at);
        tail
    } else {
        items
    }
}


/// A retention of zero days disables pruning: no file is removed.
pub proof fn law_zero_retention_keeps_all(name: Seq<char>, cutoff_day: Seq<char>)
    ensures
        !pruned(0, name, cutoff_day),
{
}

/// A file dated on or after the cutoff day is kept.
pub proof fn law_recent_files_kept(retain_days: u64, name: Seq<char>, cutoff_day: Seq<char>)
    requires
        lex_le(cutoff_day, strip_suffix_all(name, ".jsonl"@)),
    ensures
        !pruned(retain_days, name, cutoff_day),
{
    let date = strip_suffix_all(name, ".jsonl"@);
    if lex_le(date, cutoff_day) && date != cutoff_day {
        lemma_lex_antisym(date, cutoff_day);
    }
}

proof fn lemma_lex_antisym(a: Seq<char>, b: Seq<char>)
    requires
        lex_le(a, b),
        lex_le(b, a),
    ensures
        a == b,
    decreases a.len(),
{
    if a.len() > 0 && b.len() > 0 {
        if a[0] == b[0] {
            lemma_lex_antisym(a.drop_first(), b.drop_first());
            assert(a =~= seq![a[0]] + a.drop_first());
            assert(b =~= seq![b[0]] + b.drop_first());
        }
    } else if a.len() == 0 && b.len() == 0 {
        assert(a =~= b);
    }
}

} // verus!
