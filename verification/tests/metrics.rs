use stress_ref::metrics::gds::{
    gds_plan, GdsPlan, monotone_steps, no_evidence_reason, paired_evidence, smoothness_rule, MonotoneSteps,
    SmoothnessRule,
};
use stress_ref::metrics::sri::{
    decide_sri, decide_weighted_sri, read_proxy, required_proxies, Proxy, ProxyReading, ProxyReadings,
    SriDecision, WeightedSriDecision,
};

fn all(r: ProxyReading) -> ProxyReadings {
    ProxyReadings { gds: r, arr: r, ist: r, rec: r, cfr: r }
}

fn reason_of(d: SriDecision) -> String {
    match d {
        SriDecision::NotAvailable { reason } => reason,
        other => panic!("expected N/A, got {:?}", other),
    }
}

fn weighted_reason_of(d: WeightedSriDecision) -> String {
    match d {
        WeightedSriDecision::NotAvailable { reason } => reason,
        other => panic!("expected N/A, got {:?}", other),
    }
}

#[test]
fn proxies_in_reporting_order() {
    let names: Vec<&str> = required_proxies().iter().map(|p| p.name()).collect();
    assert_eq!(names, vec!["gds", "arr", "ist", "rec", "cfr"]);
    assert_eq!(Proxy::Ist.name(), "ist");
}

#[test]
fn all_present_proxies_give_geometric_mean() {
    assert!(matches!(decide_sri(&all(ProxyReading::NonZero)), SriDecision::GeometricMean));
}

#[test]
fn one_unavailable_proxy_makes_sri_unavailable() {
    let mut r = all(ProxyReading::NonZero);
    r.arr = ProxyReading::NotAvailable;
    assert_eq!(reason_of(decide_sri(&r)), "SRI N/A because proxies N/A: [\"arr\"]");
}

#[test]
fn zero_proxy_drives_sri_to_zero() {
    let mut r = all(ProxyReading::NonZero);
    r.cfr = ProxyReading::Zero;
    assert!(matches!(decide_sri(&r), SriDecision::Zero));
}

#[test]
fn missing_proxies_are_listed_before_unavailable_ones() {
    let mut r = all(ProxyReading::NonZero);
    r.gds = ProxyReading::Missing;
    r.arr = ProxyReading::NotAvailable;
    r.cfr = ProxyReading::Missing;
    assert_eq!(reason_of(decide_sri(&r)), "missing proxies: [\"gds\", \"cfr\"]");
}

#[test]
fn every_unavailable_proxy_is_listed() {
    let mut r = all(ProxyReading::NotAvailable);
    r.ist = ProxyReading::Zero;
    assert_eq!(
        reason_of(decide_sri(&r)),
        "SRI N/A because proxies N/A: [\"gds\", \"arr\", \"rec\", \"cfr\"]"
    );
}

#[test]
fn unavailability_wins_over_zero() {
    let mut r = all(ProxyReading::Zero);
    r.rec = ProxyReading::NotAvailable;
    assert!(matches!(decide_sri(&r), SriDecision::NotAvailable { .. }));
}

#[test]
fn weighted_reports_first_unusable_proxy() {
    let mut r = all(ProxyReading::NonZero);
    r.arr = ProxyReading::NotAvailable;
    r.rec = ProxyReading::Missing;
    assert_eq!(weighted_reason_of(decide_weighted_sri(&r, true)), "arr is N/A");
    let mut r = all(ProxyReading::NonZero);
    r.ist = ProxyReading::Missing;
    r.cfr = ProxyReading::NotAvailable;
    assert_eq!(weighted_reason_of(decide_weighted_sri(&r, false)), "missing proxy: ist");
}

#[test]
fn weighted_refuses_unbalanced_weights() {
    let mut r = all(ProxyReading::NonZero);
    r.gds = ProxyReading::Zero;
    assert!(matches!(decide_weighted_sri(&r, false), WeightedSriDecision::UnbalancedWeights));
}

#[test]
fn weighted_zero_and_mean() {
    let mut r = all(ProxyReading::NonZero);
    assert!(matches!(
        decide_weighted_sri(&r, true),
        WeightedSriDecision::WeightedGeometricMean
    ));
    r.gds = ProxyReading::Zero;
    assert!(matches!(decide_weighted_sri(&r, true), WeightedSriDecision::Zero));
}

#[test]
fn weighted_and_unweighted_agree_on_availability() {
    let states = [
        ProxyReading::Missing,
        ProxyReading::NotAvailable,
        ProxyReading::Zero,
        ProxyReading::NonZero,
    ];
    for &a in &states {
        for &b in &states {
            let r = ProxyReadings { gds: a, arr: ProxyReading::NonZero, ist: b, rec: a, cfr: b };
            let plain = decide_sri(&r);
            let weighted = decide_weighted_sri(&r, true);
            assert_eq!(
                matches!(plain, SriDecision::NotAvailable { .. }),
                matches!(weighted, WeightedSriDecision::NotAvailable { .. })
            );
            assert_eq!(
                matches!(plain, SriDecision::Zero),
                matches!(weighted, WeightedSriDecision::Zero)
            );
        }
    }
}

#[test]
fn evidence_needs_level_and_rate() {
    let obs = vec![
        (Some(0.1), Some(1.0)),
        (None, Some(0.5)),
        (Some(0.2), None),
        (None, None),
        (Some(0.3), Some(0.25)),
    ];
    assert_eq!(paired_evidence(&obs), vec![(0.1, 1.0), (0.3, 0.25)]);
    let none: Vec<(Option<f64>, Option<f64>)> = vec![(None, None)];
    assert!(paired_evidence(&none).is_empty());
    assert_eq!(no_evidence_reason(), "No (stress_level, completion_rate) evidence found");
}

#[test]
fn monotone_steps_of_decreasing_curve() {
    assert_eq!(
        monotone_steps(&[10, 8, 6]),
        Some(MonotoneSteps { non_increasing: 2, pairs: 2 })
    );
}

#[test]
fn monotone_steps_of_non_monotonic_curve() {
    assert_eq!(
        monotone_steps(&[5, 8, 6]),
        Some(MonotoneSteps { non_increasing: 1, pairs: 2 })
    );
    assert_eq!(
        monotone_steps(&[4, 4, 7, 7]),
        Some(MonotoneSteps { non_increasing: 2, pairs: 3 })
    );
    assert_eq!(monotone_steps(&[3]), None);
    assert_eq!(monotone_steps(&[]), None);
}

#[test]
fn smoothness_rules() {
    assert_eq!(smoothness_rule(&[10, 8, 6]), SmoothnessRule::Entropy { falling: 2 });
    assert_eq!(smoothness_rule(&[10, 10, 4]), SmoothnessRule::Cliff);
    assert_eq!(smoothness_rule(&[10, 4]), SmoothnessRule::Smooth);
    assert_eq!(smoothness_rule(&[1, 1, 1]), SmoothnessRule::Smooth);
    assert_eq!(smoothness_rule(&[1, 2, 3]), SmoothnessRule::Smooth);
    assert_eq!(smoothness_rule(&[5]), SmoothnessRule::Undefined);
}

#[test]
fn gds_plan_orders_curve_and_checks_bounds() {
    assert!(matches!(gds_plan(&[], &[], 10, 20), GdsPlan::NoEvidence));
    match gds_plan(&[3, 1, 2], &[12, 25, 30], 10, 20) {
        GdsPlan::RateOutOfBounds { index } => assert_eq!(index, 1),
        other => panic!("unexpected {:?}", other),
    }
    match gds_plan(&[3, 1, 2], &[10, 20, 15], 10, 20) {
        GdsPlan::Curve { order, monotone, smoothness } => {
            assert_eq!(order, vec![1, 2, 0]);
            // curve in level order: 20, 15, 10
            assert_eq!(monotone, Some(MonotoneSteps { non_increasing: 2, pairs: 2 }));
            assert_eq!(smoothness, SmoothnessRule::Entropy { falling: 2 });
        }
        other => panic!("unexpected {:?}", other),
    }
}

#[test]
fn proxy_entries_are_read() {
    assert_eq!(read_proxy(None, 7), ProxyReading::Missing);
    assert_eq!(read_proxy(Some(None), 7), ProxyReading::NotAvailable);
    assert_eq!(read_proxy(Some(Some(7)), 7), ProxyReading::Zero);
    assert_eq!(read_proxy(Some(Some(8)), 7), ProxyReading::NonZero);
}
