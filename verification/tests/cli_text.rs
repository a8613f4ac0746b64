use vcd_tools_rs::cli::{
    collect_signal_names, is_single_signal, join_cells, join_tab, meta_rows, render_table,
    split_comma_names, undeclared_message, ExtractRows,
};
use vcd_tools_rs::waveform::WaveformFormat;
use vcd_tools_rs::report::{compact_report, detailed_report};
use vcd_tools_rs::{ChangeValue, ComparisonResult, SignalMismatch, TimeUnit, Timescale, VcdMeta};

fn strings(list: &[&str]) -> Vec<String> {
    list.iter().map(|s| s.to_string()).collect()
}

#[test]
fn comma_lists_are_split_trimmed_and_filtered() {
    assert_eq!(split_comma_names(" a, b ,,c "), strings(&["a", "b", "c"]));
    assert_eq!(
        collect_signal_names(&strings(&["top.a,top.b", "top.c"]), strings(&["f.x"])).unwrap(),
        strings(&["top.a", "top.b", "top.c", "f.x"])
    );
    assert_eq!(
        collect_signal_names(&strings(&[" , "]), vec![]).unwrap_err(),
        "At least one --signal or --signals-file entry is required"
    );
    assert!(is_single_signal("top.a"));
    assert!(is_single_signal(" top.a , "));
    assert!(!is_single_signal("top.a,top.b"));
    assert!(!is_single_signal(" , "));
}

#[test]
fn metadata_rows_are_stable() {
    let meta = VcdMeta {
        timescale: Some(Timescale { magnitude: 10, unit: TimeUnit::NS }),
        signal_count: 7,
        start_time: 0,
        end_time: 40,
    };
    let rows = meta_rows(&meta);
    let lines: Vec<String> = rows.iter().map(|(k, v)| format!("{k}\t{v}")).collect();
    assert_eq!(lines, strings(&["signals\t7", "timescale\t10 ns", "start_time\t0", "end_time\t40"]));
    let none = VcdMeta { timescale: None, ..meta };
    assert_eq!(meta_rows(&none)[1].1, "n/a");
}

#[test]
fn tables_pad_columns_to_the_widest_cell() {
    let lines = render_table(
        &strings(&["Field", "Value"]),
        &vec![strings(&["signals", "7"]), strings(&["timescale", "10 ns"])],
    );
    assert_eq!(
        lines,
        strings(&[
            "Field     | Value",
            "----------+------",
            "signals   | 7    ",
            "timescale | 10 ns",
        ])
    );
}

#[test]
fn extraction_rows_are_time_aligned_and_carry_values() {
    let mut rows = ExtractRows::new(strings(&["top.a", "top.v"]), vec![1, 8]);
    assert_eq!(join_tab(&rows.header()), "time\ttop.a\ttop.v");
    let mut out = Vec::new();
    for (name, time, value) in [
        ("top.a", 0, ChangeValue::Integer(0)),
        ("top.v", 0, ChangeValue::Integer(0x1f)),
        ("top.a", 10, ChangeValue::Integer(1)),
        ("top.a", 20, ChangeValue::Text("x".into())),
    ] {
        if let Some(row) = rows.push(name, time, &value) {
            out.push(join_tab(&row));
        }
    }
    if let Some(row) = rows.finish() {
        out.push(join_tab(&row));
    }
    assert_eq!(out, strings(&["0\t0\t0x1f", "10\t1\t0x1f", "20\tx\t0x1f"]));
}

fn result(mismatches: Vec<SignalMismatch>) -> ComparisonResult {
    let total = mismatches.len();
    ComparisonResult {
        file1: "ref.vcd".into(),
        file2: "act.vcd".into(),
        common_signals: strings(&["top.a", "top.b"]),
        signals_only_in_file1: strings(&["top.r"]),
        signals_only_in_file2: vec![],
        signals_with_mismatches: if total == 0 { 0 } else { 2 },
        total_mismatches: total,
        passed: total == 0,
        mismatches,
    }
}

fn mismatch(name: &str, time: u64) -> SignalMismatch {
    SignalMismatch {
        signal_name: name.into(),
        time,
        value1: ChangeValue::Integer(1),
        value2: ChangeValue::Text("x".into()),
        is_unknown: true,
    }
}

#[test]
fn compact_report_lines() {
    assert_eq!(compact_report(&result(vec![])), "✅ PASS: All 2 signals match");
    assert_eq!(
        compact_report(&result(vec![mismatch("top.b", 1), mismatch("top.a", 2)])),
        "❌ FAIL: 2/2 signals have mismatches (2 total)"
    );
}

#[test]
fn detailed_report_groups_sorted_signals_and_caps_listing() {
    let mut ms = vec![mismatch("top.b", 1)];
    for t in 0..12 {
        ms.push(mismatch("top.a", 10 + t));
    }
    let lines = detailed_report(&result(ms));
    let text = lines.join("\n");
    let a = text.find("Signal: top.a").unwrap();
    let b = text.find("Signal: top.b").unwrap();
    assert!(a < b);
    assert!(text.contains("  Time #10: Ref='1' | Actual='x' (one or both unknown)"));
    assert!(!text.contains("Time #20:"));
    assert!(text.contains("  ... and 2 more"));
    assert!(text.contains("  ❌ 12 mismatches"));
    assert!(text.contains("Signals only in reference:\n  - top.r"));
    assert!(text.contains("Matched signals: 0 / 2"));
    assert!(text.contains("Total mismatches: 13"));
    let passed = detailed_report(&result(vec![])).join("\n");
    assert!(passed.contains("All common signals match (2 total)."));
    assert!(passed.contains("✅ SUCCESS: All signal values match!"));
}

#[test]
fn undeclared_signals_are_listed_in_request_order() {
    let names = strings(&["a", "b", "c"]);
    assert_eq!(undeclared_message(&names, &vec![Some(1), Some(8), Some(1)], WaveformFormat::Vcd), None);
    assert_eq!(
        undeclared_message(&names, &vec![None, Some(8), None], WaveformFormat::Vcd).as_deref(),
        Some("Signals not found in VCD: a, c")
    );
    assert_eq!(
        undeclared_message(&strings(&["x"]), &vec![None], WaveformFormat::Fst).as_deref(),
        Some("Signals not found in FST: x")
    );
    assert_eq!(
        undeclared_message(&strings(&["a", "a"]), &vec![Some(1), Some(1)], WaveformFormat::Vcd).as_deref(),
        Some("Signals not found in VCD: ")
    );
}

#[test]
fn cells_join_with_any_separator() {
    assert_eq!(join_cells(&strings(&["a", "b", "c"]), ", "), "a, b, c");
    assert_eq!(join_cells(&strings(&["only"]), " | "), "only");
    assert_eq!(join_cells(&vec![], ", "), "");
}
