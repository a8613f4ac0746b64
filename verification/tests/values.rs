use vcd_tools_rs::catalog::catalog_capacity_error;
use vcd_tools_rs::header::parse_compact_header;
use vcd_tools_rs::{
    classify_target, format_change_value, format_value_for_signal, parse_target_value,
    ChangeValue, ComparisonOptions, ComparisonResult, JsonComparisonResult, RealValue,
    SignalMismatch, TargetValue, TimeWindow, VcdError,
};

#[test]
fn parse_target_value_integer() {
    let val = parse_target_value("42");
    assert_eq!(val, TargetValue::Integer(42));
}

#[test]
fn parse_target_value_hex() {
    let val = parse_target_value("0xff");
    assert_eq!(val, TargetValue::Integer(255));
}

#[test]
fn parse_target_value_text() {
    let val = parse_target_value("z");
    assert_eq!(val, TargetValue::Text("z".to_string()));
}

#[test]
fn parse_target_value_hex_uppercase() {
    let val = parse_target_value("0xFF");
    assert_eq!(val, TargetValue::Integer(255));
}

#[test]
fn parse_target_value_trims_and_lowercases_text() {
    assert_eq!(parse_target_value("  X "), TargetValue::Text("x".to_string()));
    assert_eq!(parse_target_value(" 7 "), TargetValue::Integer(7));
    assert_eq!(parse_target_value("0xg"), TargetValue::Text("0xg".to_string()));
}

#[test]
fn time_window_contains() {
    let w = TimeWindow { start: Some(10), end: Some(100) };
    assert!(w.contains(10));
    assert!(w.contains(50));
    assert!(w.contains(100));
    assert!(!w.contains(9));
    assert!(!w.contains(101));
}

#[test]
fn time_window_no_bounds() {
    let w = TimeWindow { start: None, end: None };
    assert!(w.contains(0));
    assert!(w.contains(1000000));
}

#[test]
fn time_window_only_start() {
    let w = TimeWindow { start: Some(50), end: None };
    assert!(w.contains(50));
    assert!(w.contains(1000));
    assert!(!w.contains(49));
}

#[test]
fn time_window_only_end() {
    let w = TimeWindow { start: None, end: Some(50) };
    assert!(w.contains(0));
    assert!(w.contains(50));
    assert!(!w.contains(51));
}

#[test]
fn format_value_for_signal_scalar() {
    let val = ChangeValue::Integer(1);
    let formatted = format_value_for_signal(&val, 1);
    assert_eq!(formatted, "1");
}

#[test]
fn format_value_for_signal_wide() {
    let val = ChangeValue::Integer(0xff);
    let formatted = format_value_for_signal(&val, 32);
    assert!(formatted.starts_with("0x"));
    assert_eq!(formatted.len(), 10);
}

#[test]
fn format_value_for_signal_wide_exact_digits() {
    assert_eq!(format_value_for_signal(&ChangeValue::Integer(0xff), 32), "0x000000ff");
    assert_eq!(format_value_for_signal(&ChangeValue::Integer(5), 3), "0x5");
    assert_eq!(format_value_for_signal(&ChangeValue::Integer(0x1234), 8), "0x1234");
}

#[test]
fn format_value_for_signal_text() {
    let val = ChangeValue::Text("z".to_string());
    let formatted = format_value_for_signal(&val, 1);
    assert_eq!(formatted, "z");
}

#[test]
fn format_change_value_integer() {
    let val = ChangeValue::Integer(42);
    assert_eq!(format_change_value(&val), "42");
}

#[test]
fn format_change_value_text() {
    let val = ChangeValue::Text("x".to_string());
    assert_eq!(format_change_value(&val), "x");
}

#[test]
fn change_value_normalize_integer() {
    let val = ChangeValue::Integer(42);
    assert_eq!(val.normalize(), "42");
}

#[test]
fn change_value_normalize_text() {
    let val = ChangeValue::Text("Z".to_string());
    assert_eq!(val.normalize(), "z");
}

#[test]
fn change_value_normalize_real_uses_display_text() {
    let val = ChangeValue::Float(RealValue { bits: 0x3ff8000000000000, text: "1.5".to_string() });
    assert_eq!(val.normalize(), "1.5");
    assert_eq!(val.display(), "1.5");
    assert_eq!(val.as_integer(), None);
}

#[test]
fn change_value_as_integer_some() {
    let val = ChangeValue::Integer(42);
    assert_eq!(val.as_integer(), Some(42));
}

#[test]
fn change_value_as_integer_none() {
    let val = ChangeValue::Text("x".to_string());
    assert_eq!(val.as_integer(), None);
}

#[test]
fn normalize_change_value() {
    let val = ChangeValue::Text("ZzZ".to_string());
    assert_eq!(vcd_tools_rs::normalize_change_value(&val), "zzz");
}

fn result_with(mismatches: Vec<SignalMismatch>, common: Vec<&str>) -> ComparisonResult {
    let total = mismatches.len();
    let with = if total == 0 { 0 } else { 1 };
    ComparisonResult {
        file1: "a.vcd".to_string(),
        file2: "b.vcd".to_string(),
        common_signals: common.into_iter().map(str::to_string).collect(),
        signals_only_in_file1: vec![],
        signals_only_in_file2: vec![],
        mismatches,
        total_mismatches: total,
        signals_with_mismatches: with,
        passed: total == 0,
    }
}

#[test]
fn compare_result_passed_summary() {
    let result = result_with(vec![], vec!["sig1"]);
    assert!(result.get_summary().contains("PASS"));
}

#[test]
fn compare_result_failed_summary() {
    let result = result_with(
        vec![SignalMismatch {
            signal_name: "sig1".to_string(),
            time: 10,
            value1: ChangeValue::Integer(1),
            value2: ChangeValue::Integer(0),
            is_unknown: false,
        }],
        vec!["sig1", "sig2"],
    );
    assert!(result.get_summary().contains("FAIL"));
    assert_eq!(result.signals_with_mismatches, 1);
    assert_eq!(result.total_mismatches, 1);
}

#[test]
fn json_comparison_result_from() {
    let result = result_with(vec![], vec!["sig1"]);
    let json_result = JsonComparisonResult::from_result(&result);
    assert_eq!(json_result.common_signal_count, 1);
    assert!(json_result.passed);
}

#[test]
fn json_comparison_result_tallies_per_signal_in_first_seen_order() {
    let mismatch = |name: &str, time: u64| SignalMismatch {
        signal_name: name.to_string(),
        time,
        value1: ChangeValue::Integer(1),
        value2: ChangeValue::Integer(0),
        is_unknown: false,
    };
    let result = result_with(
        vec![mismatch("b", 1), mismatch("a", 2), mismatch("b", 3)],
        vec!["a", "b"],
    );
    let json_result = JsonComparisonResult::from_result(&result);
    assert_eq!(
        json_result.mismatches_by_signal,
        vec![("b".to_string(), 2), ("a".to_string(), 1)]
    );
    assert_eq!(json_result.total_mismatches, 3);
    assert!(!json_result.passed);
}

#[test]
fn comparison_options_default() {
    let opts = ComparisonOptions::default();
    assert!(opts.signals_only.is_empty());
    assert!(!opts.ignore_unknown);
    assert!(opts.time_window.start.is_none());
    assert!(opts.time_window.end.is_none());
}

#[test]
fn capacity_limit_uses_existing_parse_error_boundary() {
    let error = catalog_capacity_error();
    assert!(matches!(error, VcdError::Parse(_)));
    assert_eq!(
        error.message(),
        "unexpected parse error: VCD signal catalog exceeds supported size"
    );
}

#[test]
fn nested_scope_arena_reconstructs_compatibility_scope() {
    let bytes = b"$scope module outer $end\n\
$scope module inner $end\n\
$var wire 1 ! value $end\n\
$upscope $end\n\
$upscope $end\n\
$enddefinitions $end\n";
    let parsed = parse_compact_header(bytes, bytes.len() as u64).expect("nested header");
    assert_eq!(parsed.catalog.list_signals(None), vec!["outer.inner.value".to_string()]);
    let signals = parsed.catalog.to_owned_signals();
    assert_eq!(signals[0].scope, vec!["outer".to_string(), "inner".to_string()]);
}

#[test]
fn classification_reads_hex_then_decimal_then_text() {
    assert_eq!(classify_target("0xff".to_string()), TargetValue::Integer(255));
    assert_eq!(classify_target("0x".to_string()), TargetValue::Text("0x".to_string()));
    assert_eq!(classify_target("+7".to_string()), TargetValue::Integer(7));
    assert_eq!(classify_target("0xzz".to_string()), TargetValue::Text("0xzz".to_string()));
    assert_eq!(parse_target_value("  0XFF "), TargetValue::Integer(255));
}

#[test]
fn integer_targets_round_trip_through_their_normal_text() {
    for i in [0u128, 7, 42, u128::MAX] {
        let normal = TargetValue::Integer(i).normalize();
        assert_eq!(parse_target_value(&normal), TargetValue::Integer(i));
        assert_eq!(parse_target_value(&normal).normalize(), normal);
    }
}
