use vcd_tools_rs::trace::{
    default_paths, value_to_bool, value_to_u64, PathOverrides, SignalPaths, TraceExtractor,
};
use vcd_tools_rs::ChangeValue;

fn short_paths() -> SignalPaths {
    SignalPaths {
        clk: "clk".into(),
        rst_n: "rst_n".into(),
        inst_retired: "ret".into(),
        instruction: "instr".into(),
        pc: "pc".into(),
        rf_we_qual: "weq".into(),
        rf_we_lsu: "wel".into(),
        rd_addr: "rd".into(),
        rd_wdata: "wd".into(),
        rd_wdata_lsu: "wdl".into(),
    }
}

fn level(v: u128) -> ChangeValue {
    ChangeValue::Integer(v)
}

#[test]
fn default_paths_name_the_reference_core() {
    let paths = default_paths();
    assert_eq!(paths.clk, "tb.U_CHIP.U_TOP_VCORE.U_TOP_CORE.U_TOP_CPU.clk_cpu");
    assert_eq!(paths.pc, "tb.U_CHIP.U_TOP_VCORE.U_TOP_CORE.U_TOP_CPU.U_CPU.pc_exe_r[21:0]");
    assert_eq!(
        paths.rd_wdata_lsu,
        "tb.U_CHIP.U_TOP_VCORE.U_TOP_CORE.U_TOP_CPU.U_CPU.U_RF.rd_wdata_lsu[31:0]"
    );
    assert_eq!(paths.target_names().len(), 10);
}

#[test]
fn overrides_replace_only_given_fields() {
    let over = PathOverrides { clk: Some("my.clk".into()), ..PathOverrides::default() };
    let paths = default_paths().with_overrides(over);
    assert_eq!(paths.clk, "my.clk");
    assert_eq!(paths.rst_n, default_paths().rst_n);
}

#[test]
fn values_read_as_levels_and_numbers() {
    assert_eq!(value_to_bool(&level(0)), Some(false));
    assert_eq!(value_to_bool(&level(7)), Some(true));
    assert_eq!(value_to_bool(&ChangeValue::Text("1".into())), Some(true));
    assert_eq!(value_to_bool(&ChangeValue::Text("x".into())), None);
    assert_eq!(value_to_u64(&level((1u128 << 64) + 5)), Some(5));
    assert_eq!(value_to_u64(&ChangeValue::Text(" 42 ".into())), Some(42));
    assert_eq!(value_to_u64(&ChangeValue::Text("+7".into())), Some(7));
    assert_eq!(value_to_u64(&ChangeValue::Text("18446744073709551616".into())), None);
    assert_eq!(value_to_u64(&ChangeValue::Text("zz".into())), None);
}

fn run(events: Vec<(&str, u64, ChangeValue)>) -> String {
    let mut extractor = TraceExtractor::new(&short_paths());
    let mut out = String::new();
    for (name, time, value) in events {
        for line in extractor.push(name.to_string(), time, value) {
            out.push_str(&line);
        }
    }
    for line in extractor.finish() {
        out.push_str(&line);
    }
    out
}

#[test]
fn trace_reports_cycles_after_the_first_rising_edge() {
    // The first rising edge only starts tracing; each later edge reports the
    // values before it, and the end of the stream reports the last state.
    let output = run(vec![
        ("clk", 0, level(0)),
        ("rst_n", 0, level(1)),
        ("ret", 0, level(1)),
        ("pc", 0, level(0x10)),
        ("instr", 0, level(0x13)),
        ("weq", 0, level(1)),
        ("rd", 0, level(5)),
        ("wd", 0, level(0xabc)),
        ("clk", 10, level(1)),
        ("clk", 20, level(0)),
        ("pc", 20, level(0x14)),
        ("clk", 30, level(1)),
    ]);
    assert_eq!(
        output,
        "PC : 0x00000014 I : 0x00000013 \nx05 <= 0x00000abc\nPC : 0x00000014 I : 0x00000013 \nx05 <= 0x00000abc\n"
    );
}

#[test]
fn trace_is_silent_in_reset_and_prefers_the_qualified_port() {
    let in_reset = run(vec![
        ("clk", 0, level(0)),
        ("rst_n", 0, level(0)),
        ("ret", 0, level(1)),
        ("clk", 10, level(1)),
    ]);
    assert_eq!(in_reset, "");
    let lsu = run(vec![
        ("clk", 0, level(0)),
        ("rst_n", 0, level(1)),
        ("wel", 0, level(1)),
        ("rd", 0, level(3)),
        ("wdl", 0, level(9)),
        ("clk", 10, level(1)),
    ]);
    assert_eq!(lsu, "x03 <= 0x00000009\n");
}
