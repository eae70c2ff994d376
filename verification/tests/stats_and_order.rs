use stress_ref::order::{arrange, stable_order};
use stress_ref::stats::{
    critical_value, effect_size_defined, flagged_positions, include_present, median_positions,
    outlier_screen_applies, summary_shape, CriticalValue, SummaryShape,
};

#[test]
fn stable_order_sorts_by_key_and_keeps_ties() {
    let keys = [30u64, 10, 20, 10, 30, 0];
    let order = stable_order(&keys);
    assert_eq!(order, vec![5, 1, 3, 2, 0, 4]);
    assert!(stable_order(&[]).is_empty());
}

#[test]
fn arrange_follows_order() {
    let levels = [0.3, 0.1, 0.2];
    let order = stable_order(&[3, 1, 2]);
    assert_eq!(arrange(&levels, &order), vec![0.1, 0.2, 0.3]);
}

#[test]
fn present_values_are_kept_and_na_counted() {
    let inc = include_present(&[Some(1.0), None, Some(0.5)]);
    assert_eq!(inc.values, vec![1.0, 0.5]);
    assert_eq!(inc.n_na, 1);
    let inc = include_present::<f64>(&[None, None]);
    assert!(inc.values.is_empty());
    assert_eq!(inc.n_na, 2);
}

#[test]
fn critical_value_regimes() {
    assert_eq!(critical_value(5), CriticalValue::StudentT { degrees_of_freedom: 4 });
    assert_eq!(critical_value(30), CriticalValue::StudentT { degrees_of_freedom: 29 });
    assert_eq!(critical_value(31), CriticalValue::Normal);
    assert_eq!(critical_value(1), CriticalValue::Normal);
}

#[test]
fn summary_shapes() {
    assert_eq!(summary_shape(0), SummaryShape::Empty);
    assert_eq!(summary_shape(1), SummaryShape::Single);
    assert_eq!(
        summary_shape(3),
        SummaryShape::Spread { critical: CriticalValue::StudentT { degrees_of_freedom: 2 } }
    );
    assert_eq!(summary_shape(100), SummaryShape::Spread { critical: CriticalValue::Normal });
    assert_eq!(
        summary_shape(29),
        SummaryShape::Spread { critical: CriticalValue::StudentT { degrees_of_freedom: 28 } }
    );
    assert_eq!(summary_shape(30), SummaryShape::Spread { critical: CriticalValue::Normal });
}

#[test]
fn effect_size_needs_two_per_group() {
    assert!(!effect_size_defined(1, 2));
    assert!(!effect_size_defined(5, 0));
    assert!(effect_size_defined(2, 2));
}

#[test]
fn outlier_screen_needs_three_values() {
    assert!(!outlier_screen_applies(2));
    assert!(outlier_screen_applies(3));
}

#[test]
fn median_positions_odd_and_even() {
    assert_eq!(median_positions(7), (3, 3));
    assert_eq!(median_positions(6), (2, 3));
    assert_eq!(median_positions(1), (0, 0));
}

#[test]
fn flagged_positions_in_order() {
    assert_eq!(flagged_positions(&[false, true, true, false, true]), vec![1, 2, 4]);
    assert!(flagged_positions(&[false, false]).is_empty());
}
