//! The historical-resolution backfill: which cache files it reworks, what
//! resolution a market answer gives, and the tally of what it changed.
use vstd::prelude::*;
use crate::text::{chars_of, ends_with, has_suffix, push_text, same_chars};

verus! {

/// The file name is that of a cache file (its extension is `jsonl`) and, when
/// a series is asked for, its stem is the series or the series prefixed with
/// `min3_`.
pub open spec fn cache_file_selected_of(name: Seq<char>, only_series: Option<Seq<char>>) -> bool {
    let stem = name.take(name.len() - 6);
    has_suffix(name, ".jsonl"@) && name.len() > 6 && match only_series {
        Some(s) => stem == s || stem == "min3_"@ + s,
        None => true,
    }
}

/// Whether the backfill reworks the cache file `name`.
pub fn cache_file_selected(name: &str, only_series: Option<&str>) -> (r: bool)
    ensures
        r == cache_file_selected_of(name@, match only_series {
            Some(s) => Some(s@),
            None => None,
        }),
{
    let v = chars_of(name);
    let ext = chars_of(".jsonl");
    proof {
        reveal_strlit(".jsonl");
    }
    if !(ends_with(&v, &ext) && v.len() > 6) {
        return false;
    }
    let mut stem: Vec<char> = Vec::new();
    let n = v.len() - 6;
    let mut i: usize = 0;
    while i < n
        invariant
            i <= n,
            n <= v@.len(),
            stem@ == v@.take(i as int),
        decreases n - i,
    {
        stem.push(v[i]);
        i = i + 1;
        proof {
            assert(stem@ =~= v@.take(i as int));
        }
    }
    match only_series {
        Some(s) => {
            let mut prefixed = String::new();
            push_text(&mut prefixed, "min3_");
            push_text(&mut prefixed, s);
            same_chars(&stem, &chars_of(s)) || same_chars(&stem, &chars_of(prefixed.as_str()))
        },
        None => true,
    }
}

/// The resolution a market answer gives: `up` when YES won, `down` when NO
/// won, none when the market has not resolved.
pub fn resolution_of(yes_won: Option<bool>) -> (r: Option<String>)
    ensures
        match yes_won {
            Some(true) => r matches Some(x) && x@ == "up"@,
            Some(false) => r matches Some(x) && x@ == "down"@,
            None => r is None,
        },
{
    match yes_won {
        Some(true) => Some("up".to_owned()),
        Some(false) => Some("down".to_owned()),
        None => None,
    }
}

/// How many records the backfill examined, corrected, left as they were, or
/// could not resolve.
pub struct BackfillTally {
    pub examined: usize,
    pub changed: usize,
    pub unchanged: usize,
    pub unknown: usize,
}

impl BackfillTally {
    /// Nothing examined yet.
    pub fn new() -> (r: Self)
        ensures
            r.examined == 0 && r.changed == 0 && r.unchanged == 0 && r.unknown == 0,
    {
        BackfillTally { examined: 0, changed: 0, unchanged: 0, unknown: 0 }
    }

    /// The counts add up: every record examined was corrected, left, or not
    /// resolved.
    pub open spec fn balanced(&self) -> bool {
        self.examined == self.changed + self.unchanged + self.unknown
    }

    /// Counts one record whose stored resolution is `before`, given the
    /// market's answer (`None` when the lookup failed; `Some(None)` when the
    /// market is not resolved). The resolution to store when it changes.
    pub fn step(&mut self, before: &Option<String>, answer: Option<Option<bool>>) -> (r: Option<String>)
        requires
            old(self).balanced(),
            old(self).examined < usize::MAX,
        ensures
            final(self).balanced(),
            final(self).examined == old(self).examined + 1,
            match answer {
                Some(Some(yes_won)) => {
                    let new = if yes_won { "up"@ } else { "down"@ };
                    let same = before matches Some(b) && b@ == new;
                    &&& (same ==> (r is None) && final(self).unchanged == old(self).unchanged + 1
                        && final(self).changed == old(self).changed && final(self).unknown == old(self).unknown)
                    &&& (!same ==> (r matches Some(x) && x@ == new) && final(self).changed == old(self).changed + 1
                        && final(self).unchanged == old(self).unchanged && final(self).unknown == old(self).unknown)
                },
                _ => r is None && final(self).unknown == old(self).unknown + 1
                    && final(self).changed == old(self).changed && final(self).unchanged == old(self).unchanged,
            },
    {
        self.examined = self.examined + 1;
        let new = match answer {
            Some(Some(yes_won)) => resolution_of(Some(yes_won)),
            _ => {
                self.unknown = self.unknown + 1;
                return None;
            },
        };
        let new = match new {
            Some(x) => x,
            None => {
                self.unknown = self.unknown + 1;
                return None;
            },
        };
        let same = match before {
            Some(b) => *b == new,
            None => false,
        };
        if same {
            self.unchanged = self.unchanged + 1;
            None
        } else {
            self.changed = self.changed + 1;
            Some(new)
        }
    }
}

} // verus!
