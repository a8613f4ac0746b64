use vcd_tools_rs::query::compare::TIMELINE_CONTEXT_CHECK_INTERVAL;
use vcd_tools_rs::query::{CancellationToken, QueryErrorCode};
use vcd_tools_rs::QueryLimits;
use vcd_tools_rs::query::compare::{
    compare_planned, compare_signal_timeline, compare_timelines, comparison_result, plan_comparison, sort_names,
    timescales_compatible, values_match, ComparedTimescale,
};
use vcd_tools_rs::{
    ChangeValue, ComparisonOptions, QueryContext, RealValue, SignalMismatch, TimeUnit, Timescale,
};

fn names(list: &[&str]) -> Vec<String> {
    list.iter().map(|s| s.to_string()).collect()
}

fn text(s: &str) -> ChangeValue {
    ChangeValue::Text(s.to_string())
}

fn run(
    first: Vec<(u64, ChangeValue)>,
    second: Vec<(u64, ChangeValue)>,
    options: &ComparisonOptions,
) -> Vec<SignalMismatch> {
    let mut mismatches = Vec::new();
    let count = compare_signal_timeline(
        "top.a",
        &first,
        &second,
        options,
        &mut mismatches,
        &QueryContext::new(),
    )
    .unwrap();
    assert_eq!(count, mismatches.len());
    mismatches
}

#[test]
fn sort_names_orders_by_bytes() {
    assert_eq!(sort_names(names(&["b", "a", "B", "ab"])), names(&["B", "a", "ab", "b"]));
}

#[test]
fn plan_keeps_file_only_order_and_sorts_common_names() {
    let plan = plan_comparison(&names(&["z", "y", "c"]), &names(&["c", "w", "z"]), &vec![]);
    assert_eq!(plan.common_signals, names(&["c", "z"]));
    assert_eq!(plan.signals_only_in_file1, names(&["y"]));
    assert_eq!(plan.signals_only_in_file2, names(&["w"]));
    assert_eq!(plan.signals_to_compare, names(&["c", "z"]));
    let filtered = plan_comparison(&names(&["z", "c"]), &names(&["c", "z"]), &names(&["z", "q"]));
    assert_eq!(filtered.signals_to_compare, names(&["z"]));
}

#[test]
fn values_match_by_kind() {
    assert!(values_match(&text("X"), &text("x"), false));
    assert!(values_match(&ChangeValue::Integer(5), &text("5"), false));
    assert!(!values_match(&ChangeValue::Integer(5), &ChangeValue::Integer(6), false));
    assert!(values_match(&text("z"), &ChangeValue::Integer(6), true));
    let a = RealValue { bits: 1, text: "1e-323".into() };
    let b = RealValue { bits: 2, text: "1e-323".into() };
    assert!(!values_match(&ChangeValue::Float(a), &ChangeValue::Float(b), false));
}

#[test]
fn identical_timelines_have_no_mismatches() {
    let timeline = vec![(0, ChangeValue::Integer(0)), (10, ChangeValue::Integer(1)), (10, text("x"))];
    assert!(run(timeline.clone(), timeline, &ComparisonOptions::default()).is_empty());
}

#[test]
fn timeline_merge_uses_last_value_per_time_and_carries_values() {
    let first = vec![(0, ChangeValue::Integer(0)), (10, ChangeValue::Integer(1)), (10, ChangeValue::Integer(0))];
    let second = vec![(0, ChangeValue::Integer(0)), (5, ChangeValue::Integer(1)), (20, ChangeValue::Integer(0))];
    let found = run(first, second, &ComparisonOptions::default());
    let times: Vec<u64> = found.iter().map(|m| m.time).collect();
    assert_eq!(times, vec![5, 10]);
    assert_eq!(found[0].value1, ChangeValue::Integer(0));
    assert_eq!(found[0].value2, ChangeValue::Integer(1));
    assert!(found.iter().all(|m| m.signal_name == "top.a" && !m.is_unknown));
}

#[test]
fn unknown_start_and_ignore_unknown() {
    let first = vec![(5, ChangeValue::Integer(1))];
    let second = vec![(0, ChangeValue::Integer(1))];
    let found = run(first.clone(), second.clone(), &ComparisonOptions::default());
    assert_eq!(found.len(), 1);
    assert_eq!(found[0].time, 0);
    assert_eq!(found[0].value1, text("x"));
    assert!(found[0].is_unknown);
    let mut options = ComparisonOptions::default();
    options.ignore_unknown = true;
    assert!(run(first, second, &options).is_empty());
}

#[test]
fn max_mismatches_stops_the_merge() {
    let first = vec![(1, ChangeValue::Integer(1)), (2, ChangeValue::Integer(2)), (3, ChangeValue::Integer(3))];
    let second = vec![(1, ChangeValue::Integer(4)), (2, ChangeValue::Integer(5)), (3, ChangeValue::Integer(6))];
    let mut options = ComparisonOptions::default();
    options.max_mismatches = Some(2);
    assert_eq!(run(first.clone(), second.clone(), &options).len(), 2);
    options.max_mismatches = Some(0);
    assert_eq!(run(first, second, &options).len(), 1);
}

#[test]
fn comparison_result_passes_only_without_mismatches() {
    let plan = plan_comparison(&names(&["a"]), &names(&["a"]), &vec![]);
    let result = comparison_result("f1".into(), "f2".into(), plan, vec![], 0);
    assert!(result.passed);
    assert_eq!(result.common_signals, names(&["a"]));
}

#[test]
fn signals_are_compared_in_order_and_counted() {
    let signals = names(&["a", "b", "c"]);
    let first = vec![
        vec![(0, ChangeValue::Integer(1))],
        vec![(0, ChangeValue::Integer(0)), (4, ChangeValue::Integer(1))],
        vec![(2, text("z"))],
    ];
    let second = vec![
        vec![(0, ChangeValue::Integer(2))],
        vec![(0, ChangeValue::Integer(0)), (4, ChangeValue::Integer(1))],
        vec![(2, text("z")), (3, text("0"))],
    ];
    let (mismatches, with) =
        compare_timelines(&signals, &first, &second, &ComparisonOptions::default(), &QueryContext::new())
            .unwrap();
    let found: Vec<(&str, u64)> = mismatches.iter().map(|m| (m.signal_name.as_str(), m.time)).collect();
    assert_eq!(found, vec![("a", 0), ("c", 3)]);
    assert_eq!(with, 2);
    let cancelled = QueryContext::new();
    cancelled.cancellation().cancel();
    assert!(compare_timelines(&signals, &first, &second, &ComparisonOptions::default(), &cancelled).is_err());
}

#[test]
fn planned_comparison_reports_plan_names_and_mismatch_totals() {
    let plan = plan_comparison(&names(&["top.b", "top.a", "x"]), &names(&["top.a", "y", "top.b"]), &vec![]);
    assert_eq!(plan.signals_to_compare, names(&["top.a", "top.b"]));
    let first = vec![vec![(0, ChangeValue::Integer(1))], vec![(0, text("z"))]];
    let second = vec![vec![(0, ChangeValue::Integer(1))], vec![(0, text("x"))]];
    let result = compare_planned(
        "f1".into(),
        "f2".into(),
        plan,
        &first,
        &second,
        &ComparisonOptions::default(),
        &QueryContext::new(),
    )
    .unwrap();
    assert_eq!(result.file1, "f1");
    assert_eq!(result.common_signals, names(&["top.a", "top.b"]));
    assert_eq!(result.signals_only_in_file1, names(&["x"]));
    assert_eq!(result.signals_only_in_file2, names(&["y"]));
    assert_eq!(result.total_mismatches, 1);
    assert_eq!(result.mismatches[0].signal_name, "top.b");
    assert_eq!(result.signals_with_mismatches, 1);
    assert!(!result.passed);
}

#[test]
fn comparison_needs_equal_physical_timescales() {
    let ns = Some(Timescale { magnitude: 1, unit: TimeUnit::NS });
    let ps = Some(Timescale { magnitude: 1, unit: TimeUnit::PS });
    let vcd = |t| ComparedTimescale::Vcd(t);
    let fst = |exponent, timescale| ComparedTimescale::Fst { exponent, timescale };
    assert!(timescales_compatible(vcd(ns), vcd(ps)));
    assert!(timescales_compatible(fst(-9, ns), fst(-9, ns)));
    assert!(!timescales_compatible(fst(-9, ns), fst(-12, ps)));
    assert!(timescales_compatible(vcd(ns), fst(-9, ns)));
    assert!(timescales_compatible(fst(-9, ns), vcd(ns)));
    assert!(!timescales_compatible(vcd(ps), fst(-9, ns)));
    assert!(!timescales_compatible(vcd(None), fst(-20, None)));
}

#[test]
fn provider_seam_preserves_order_final_same_time_value_and_file_only_lists() {
    let plan = plan_comparison(&names(&["z_only", "common"]), &names(&["common", "a_only"]), &vec![]);
    let first = vec![vec![(5, text("0")), (5, text("1"))]];
    let second = vec![vec![(5, text("1"))]];
    let result = compare_planned(
        "first".into(),
        "second".into(),
        plan,
        &first,
        &second,
        &ComparisonOptions::default(),
        &QueryContext::legacy_unlimited(),
    )
    .expect("compare");
    assert!(result.passed);
    assert_eq!(result.common_signals, ["common"]);
    assert_eq!(result.signals_only_in_file1, ["z_only"]);
    assert_eq!(result.signals_only_in_file2, ["a_only"]);
}

#[test]
fn short_timelines_without_mismatch_compare_whatever_the_context() {
    let token = CancellationToken::new();
    token.cancel();
    let context = QueryContext::new().with_cancellation(token);
    let mut mismatches = Vec::new();
    let count = compare_signal_timeline(
        "s",
        &vec![(5, text("0")), (5, text("1"))],
        &vec![(5, text("1"))],
        &ComparisonOptions::default(),
        &mut mismatches,
        &context,
    )
    .unwrap();
    assert_eq!(count, 0);
    assert!(mismatches.is_empty());
}

#[test]
fn large_timeline_merge_observes_cancellation_and_deadline_at_bounded_interval() {
    let interval = TIMELINE_CONTEXT_CHECK_INTERVAL as usize;
    let long: Vec<(u64, ChangeValue)> = (0..interval + 8).map(|_| (0, text("0"))).collect();
    let short: Vec<(u64, ChangeValue)> = (0..interval / 2 - 1).map(|_| (0, text("0"))).collect();

    let token = CancellationToken::new();
    token.cancel();
    let context = QueryContext::new().with_cancellation(token);
    let mut mismatches = Vec::new();
    let error = compare_signal_timeline("signal", &long, &long, &ComparisonOptions::default(), &mut mismatches, &context)
        .expect_err("cancelled merge");
    assert_eq!(error.code(), QueryErrorCode::Cancelled);
    assert!(mismatches.is_empty());
    assert_eq!(
        compare_signal_timeline("signal", &short, &short, &ComparisonOptions::default(), &mut mismatches, &context)
            .unwrap(),
        0
    );

    let context = QueryContext::new().with_limits(QueryLimits::unlimited().with_deadline(std::time::Instant::now()));
    let error = compare_signal_timeline("signal", &long, &long, &ComparisonOptions::default(), &mut mismatches, &context)
        .expect_err("expired merge");
    assert_eq!(error.code(), QueryErrorCode::DeadlineExceeded);
    assert!(mismatches.is_empty());
}

#[test]
fn cancellation_immediately_before_mismatch_prevents_delivery() {
    let token = CancellationToken::new();
    token.cancel();
    let context = QueryContext::new().with_cancellation(token);
    let mut mismatches = Vec::new();
    let error = compare_signal_timeline(
        "signal",
        &vec![(1, text("0"))],
        &vec![(1, text("1"))],
        &ComparisonOptions::default(),
        &mut mismatches,
        &context,
    )
    .expect_err("cancelled before mismatch");
    assert_eq!(error.code(), QueryErrorCode::Cancelled);
    assert!(mismatches.is_empty());
}

#[test]
fn mixed_provider_types_share_semantics() {
    let plan = plan_comparison(&names(&["common"]), &names(&["common"]), &vec![]);
    let result = compare_planned(
        "first".into(),
        "second".into(),
        plan,
        &vec![vec![(1, text("0"))]],
        &vec![vec![(1, text("1"))]],
        &ComparisonOptions::default(),
        &QueryContext::legacy_unlimited(),
    )
    .expect("compare");
    assert_eq!(result.total_mismatches, 1);
}
