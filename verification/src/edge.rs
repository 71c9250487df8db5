//! The verdict of the edge validation: whether a runner's resolved trades show
//! a real edge, are consistent with luck, or are too few to judge.
//!
//! The statistical legs themselves (bootstrap interval, random, shuffled and
//! calibration nulls) are floating-point sampling and are computed by the
//! caller; this module decides what their outcomes amount to.
use vstd::prelude::*;

verus! {

/// The fewest resolved trades on which a verdict is given.
pub const MIN_VALIDATION_TRADES: usize = 30;

/// What the validation concludes.
#[derive(Clone, Copy, Debug, PartialEq, Eq, Structural)]
pub enum EdgeVerdict {
    /// Fewer than `MIN_VALIDATION_TRADES` trades.
    Insufficient,
    /// Every leg that applies passed.
    Edge,
    /// Some leg that applies failed.
    NoEdge,
}

/// Which of the four legs passed, and whether the shuffled-outcome leg
/// applies at all (it is blind when the entry prices hardly vary).
#[derive(Clone, Copy, Debug)]
pub struct LegPasses {
    /// The bootstrap interval on the expected value lies above zero.
    pub bootstrap: bool,
    /// The real expected value beats a skill-less bettor at the same prices.
    pub random_null: bool,
    /// The real expected value beats permuted win/loss labels.
    pub shuffle_null: bool,
    /// The real expected value beats a bettor who wins at the entry price.
    pub calibration_null: bool,
    /// The entry prices vary enough for the shuffled leg to mean anything.
    pub shuffle_applicable: bool,
}

/// The legs amount to an edge: the bootstrap, random and calibration legs
/// pass, and the shuffled leg passes wherever it applies.
pub open spec fn shows_edge(legs: LegPasses) -> bool {
    &&& legs.bootstrap
    &&& legs.random_null
    &&& legs.calibration_null
    &&& (legs.shuffle_applicable ==> legs.shuffle_null)
}

/// The verdict on `n` resolved trades whose legs came out as `legs`.
pub open spec fn verdict_of(n: nat, legs: LegPasses) -> EdgeVerdict {
    if n < MIN_VALIDATION_TRADES {
        EdgeVerdict::Insufficient
    } else if shows_edge(legs) {
        EdgeVerdict::Edge
    } else {
        EdgeVerdict::NoEdge
    }
}

/// Too few trades are never judged: below `MIN_VALIDATION_TRADES` the verdict
/// is `Insufficient` whatever the legs; from there on it is `Edge` exactly
/// when the bootstrap, random and calibration legs pass and the shuffled leg
/// passes wherever it applies, and `NoEdge` otherwise.
pub proof fn law_edge_verdict(n: nat, legs: LegPasses)
    ensures
        n < MIN_VALIDATION_TRADES ==> verdict_of(n, legs) == EdgeVerdict::Insufficient,
        n >= MIN_VALIDATION_TRADES ==> (verdict_of(n, legs) == EdgeVerdict::Edge <==> (legs.bootstrap
            && legs.random_null && legs.calibration_null && (legs.shuffle_applicable ==> legs.shuffle_null))),
        n >= MIN_VALIDATION_TRADES ==> verdict_of(n, legs) != EdgeVerdict::Insufficient,
{
}

/// Decides the verdict. An edge is declared only on at least
/// `MIN_VALIDATION_TRADES` trades and only when every applicable leg passed.
pub fn edge_verdict(n: usize, legs: LegPasses) -> (v: EdgeVerdict)
    ensures
        v == verdict_of(n as nat, legs),
        n < MIN_VALIDATION_TRADES ==> v == EdgeVerdict::Insufficient,
        n >= MIN_VALIDATION_TRADES ==> v != EdgeVerdict::Insufficient,
        v == EdgeVerdict::Edge ==> n >= MIN_VALIDATION_TRADES && legs.bootstrap
            && legs.random_null && legs.calibration_null
            && (legs.shuffle_applicable ==> legs.shuffle_null),
{
    if n < MIN_VALIDATION_TRADES {
        EdgeVerdict::Insufficient
    } else if legs.bootstrap && legs.random_null && legs.calibration_null && (!legs.shuffle_applicable
        || legs.shuffle_null) {
        EdgeVerdict::Edge
    } else {
        EdgeVerdict::NoEdge
    }
}

/// The shuffled leg as reported: its own outcome where it applies, and a pass
/// ("not blocking") where it does not.
pub fn shuffle_leg_reported(legs: LegPasses) -> (r: bool)
    ensures
        r == (legs.shuffle_applicable ==> legs.shuffle_null),
{
    if legs.shuffle_applicable {
        legs.shuffle_null
    } else {
        true
    }
}

impl EdgeVerdict {
    /// The verdict's label in reports.
    pub open spec fn label(self) -> Seq<char> {
        match self {
            EdgeVerdict::Insufficient => "INSUFFICIENT"@,
            EdgeVerdict::Edge => "EDGE"@,
            EdgeVerdict::NoEdge => "NO_EDGE"@,
        }
    }

    /// The verdict's label in reports: `INSUFFICIENT`, `EDGE` or `NO_EDGE`.
    pub fn word(&self) -> (s: String)
        ensures
            s@ == self.label(),
    {
        match self {
            EdgeVerdict::Insufficient => {
                proof {
                    reveal_strlit("INSUFFICIENT");
                }
                "INSUFFICIENT".to_owned()
            },
            EdgeVerdict::Edge => {
                proof {
                    reveal_strlit("EDGE");
                }
                "EDGE".to_owned()
            },
            EdgeVerdict::NoEdge => {
                proof {
                    reveal_strlit("NO_EDGE");
                }
                "NO_EDGE".to_owned()
            },
        }
    }
}

} // verus!
