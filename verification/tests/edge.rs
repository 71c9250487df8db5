use trader_claw::edge::{edge_verdict, shuffle_leg_reported, EdgeVerdict, LegPasses, MIN_VALIDATION_TRADES};

fn legs(b: bool, r: bool, s: bool, c: bool, applicable: bool) -> LegPasses {
    LegPasses { bootstrap: b, random_null: r, shuffle_null: s, calibration_null: c, shuffle_applicable: applicable }
}

#[test]
fn too_few_trades_are_insufficient() {
    assert_eq!(MIN_VALIDATION_TRADES, 30);
    assert_eq!(edge_verdict(0, legs(true, true, true, true, true)), EdgeVerdict::Insufficient);
    assert_eq!(edge_verdict(29, legs(true, true, true, true, true)), EdgeVerdict::Insufficient);
    assert_eq!(EdgeVerdict::Insufficient.word(), "INSUFFICIENT");
}

#[test]
fn edge_needs_every_applicable_leg() {
    assert_eq!(edge_verdict(30, legs(true, true, true, true, true)), EdgeVerdict::Edge);
    assert_eq!(edge_verdict(30, legs(false, true, true, true, true)), EdgeVerdict::NoEdge);
    assert_eq!(edge_verdict(30, legs(true, false, true, true, true)), EdgeVerdict::NoEdge);
    assert_eq!(edge_verdict(30, legs(true, true, false, true, true)), EdgeVerdict::NoEdge);
    assert_eq!(edge_verdict(100, legs(true, true, true, false, true)), EdgeVerdict::NoEdge);
    assert_eq!(EdgeVerdict::Edge.word(), "EDGE");
    assert_eq!(EdgeVerdict::NoEdge.word(), "NO_EDGE");
}

#[test]
fn constant_price_skips_the_shuffle_leg() {
    assert_eq!(edge_verdict(40, legs(true, true, false, true, false)), EdgeVerdict::Edge);
    assert!(shuffle_leg_reported(legs(true, true, false, true, false)));
    assert!(!shuffle_leg_reported(legs(true, true, false, true, true)));
    assert!(shuffle_leg_reported(legs(false, false, true, false, true)));
}
