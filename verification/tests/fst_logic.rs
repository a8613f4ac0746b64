use vcd_tools_rs::opened::fst::{
    charge_resource, ensure_resource, find_prepare_fst, fst_value, plan_section, plan_visit, timescale_from_exponent,
    FstCatalogBuilder, FstError, FstHierarchyItem, FstRawValue, FstSignal, FstSignalTable,
    FstSignalType, SectionPlan, VarintDecoder,
};
use vcd_tools_rs::query::stream::ToggleCounter;
use vcd_tools_rs::query::CancellationToken;
use vcd_tools_rs::{QueryContext, QueryError, VcdError};
use vcd_tools_rs::{ChangeValue, TimeUnit};

#[test]
fn timescale_conversion_is_safe_at_i8_boundaries() {
    assert_eq!(timescale_from_exponent(i8::MIN), None);
    assert_eq!(timescale_from_exponent(i8::MAX), None);
    assert_eq!(timescale_from_exponent(-15).unwrap().unit, TimeUnit::FS);
    assert_eq!(timescale_from_exponent(-13).unwrap().magnitude, 100);
    assert_eq!(timescale_from_exponent(-16), None);
}

#[test]
fn timescale_exponents_map_to_magnitude_and_unit() {
    let t = timescale_from_exponent(-8).unwrap();
    assert_eq!((t.magnitude, t.unit), (10, TimeUnit::NS));
    let t = timescale_from_exponent(2).unwrap();
    assert_eq!((t.magnitude, t.unit), (100, TimeUnit::S));
    assert_eq!(timescale_from_exponent(3), None);
}

#[test]
fn hierarchy_resource_limits_accept_n_and_reject_n_plus_one() {
    for kind in ["hierarchy_depth", "declarations", "catalog_bytes"] {
        ensure_resource(kind, 8, 8).unwrap();
        assert!(matches!(
            ensure_resource(kind, 9, 8),
            Err(FstError::ResourceLimit { limit: 8, actual: 9, .. })
        ));
    }
    let mut used = 0;
    charge_resource("name_bytes", &mut used, 8, 8).unwrap();
    match charge_resource("name_bytes", &mut used, 1, 8) {
        Err(FstError::ResourceLimit { kind, limit, actual }) => {
            assert_eq!(kind, "name_bytes");
            assert_eq!(limit, 8);
            assert_eq!(actual, 9);
        }
        other => panic!("unexpected {other:?}"),
    }
    assert_eq!(used, 8);
}

#[test]
fn charge_resource_saturates_instead_of_overflowing() {
    let mut used = usize::MAX - 1;
    match charge_resource("catalog_bytes", &mut used, 5, usize::MAX - 1) {
        Err(FstError::ResourceLimit { actual, .. }) => assert_eq!(actual, usize::MAX),
        other => panic!("unexpected {other:?}"),
    }
    assert_eq!(used, usize::MAX - 1);
}

#[test]
fn generic_binary_looking_string_remains_text() {
    assert_eq!(
        fst_value(FstRawValue::Bytes(b"001".to_vec()), FstSignalType::GenericString).unwrap(),
        ChangeValue::Text("001".into())
    );
    assert_eq!(
        fst_value(FstRawValue::Bytes(b"001".to_vec()), FstSignalType::Digital).unwrap(),
        ChangeValue::Integer(1)
    );
}

#[test]
fn digital_values_keep_single_digits_and_unknowns_as_text() {
    assert_eq!(
        fst_value(FstRawValue::Bytes(b"1".to_vec()), FstSignalType::Digital).unwrap(),
        ChangeValue::Text("1".into())
    );
    assert_eq!(
        fst_value(FstRawValue::Bytes(b"0x1z".to_vec()), FstSignalType::Digital).unwrap(),
        ChangeValue::Text("0x1z".into())
    );
    assert!(matches!(
        fst_value(FstRawValue::Bytes(vec![0xff, 0xfe]), FstSignalType::GenericString),
        Err(FstError::UnsupportedValue(_))
    ));
}

#[test]
fn catalog_builder_joins_scopes_and_rejects_duplicates() {
    let mut builder = FstCatalogBuilder::new();
    builder
        .on_entry(FstHierarchyItem::Scope { name: "top".into(), component: String::new() })
        .unwrap();
    builder
        .on_entry(FstHierarchyItem::Var {
            signal_type: FstSignalType::Digital,
            name: "clk".into(),
            length: 1,
            handle_index: 0,
            is_alias: false,
        })
        .unwrap();
    let duplicate = builder.on_entry(FstHierarchyItem::Var {
        signal_type: FstSignalType::Digital,
        name: "clk".into(),
        length: 1,
        handle_index: 1,
        is_alias: true,
    });
    assert!(matches!(duplicate, Err(FstError::DuplicateSignal(name)) if name == "top.clk"));
    builder.on_entry(FstHierarchyItem::UpScope).unwrap();
    let (signals, _) = builder.finish();
    assert_eq!(signals.len(), 1);
    assert_eq!(signals[0].name, "top.clk");
    let table = FstSignalTable::from_signals(signals);
    assert_eq!(table.signal_count(), 1);
    assert!(table.signal("top.clk").is_some());
    assert!(table.signal("top.rst").is_none());
    assert_eq!(table.list_signals(Some("cl")), vec!["top.clk".to_string()]);
}

#[test]
fn section_plans_follow_kind_and_bounds() {
    assert_eq!(plan_section(255, 10, 0, 100).unwrap(), SectionPlan::End);
    assert_eq!(plan_section(0, 10, 20, 100).unwrap(), SectionPlan::Skip { section_end: 30 });
    assert_eq!(
        plan_section(7, 10, 20, 100).unwrap(),
        SectionPlan::CheckHierarchy { section_end: 30, intermediate: true }
    );
    assert!(matches!(plan_section(0, 10, 4, 100), Err(FstError::Parse(m)) if m == "invalid FST section length"));
    assert!(matches!(plan_section(0, 90, 20, 100), Err(FstError::Parse(m)) if m == "FST section extends beyond input"));
    assert!(matches!(plan_section(4, 10, 12, 100), Err(FstError::Parse(_))));
}

#[test]
fn varint_decoder_reads_little_endian_groups() {
    let mut decoder = VarintDecoder::new();
    assert!(decoder.feed(0x96).is_none());
    assert_eq!(decoder.feed(0x01).unwrap().unwrap(), 150);
    let mut endless = VarintDecoder::new();
    let mut outcome = None;
    for _ in 0..10 {
        outcome = endless.feed(0xff);
        if outcome.is_some() {
            break;
        }
    }
    assert!(matches!(outcome, Some(Err(FstError::Parse(_)))));
}

fn var(name: &str, handle_index: usize, signal_type: FstSignalType) -> FstHierarchyItem {
    FstHierarchyItem::Var { signal_type, name: name.into(), length: 1, handle_index, is_alias: false }
}

#[test]
fn variables_are_accepted_within_budgets() {
    let mut builder = FstCatalogBuilder::new();
    builder.on_entry(FstHierarchyItem::Scope { name: "t".into(), component: "top".into() }).unwrap();
    for (k, name) in ["a", "b", "c"].iter().enumerate() {
        builder.on_entry(var(name, k, FstSignalType::Digital)).unwrap();
    }
    let (signals, unique) = builder.finish();
    let names: Vec<&str> = signals.iter().map(|s| s.name.as_str()).collect();
    assert_eq!(names, vec!["top.a", "top.b", "top.c"]);
    assert_eq!(unique, 3);
}

fn signal(name: &str, handle_index: usize, signal_type: FstSignalType) -> FstSignal {
    FstSignal { name: name.into(), handle_index, width: 1, signal_type, is_alias: false }
}

#[test]
fn visit_plans_route_each_handle_to_its_targets() {
    let table = FstSignalTable::from_signals(vec![
        signal("top.a", 0, FstSignalType::Digital),
        signal("top.b", 1, FstSignalType::Real),
        signal("top.a_alias", 0, FstSignalType::Digital),
    ]);
    let targets: Vec<String> = ["top.b", "top.a", "top.a_alias", "top.b"].iter().map(|s| s.to_string()).collect();
    let plan = plan_visit(&table, &targets, Some(5), None, 90, &QueryContext::new()).unwrap().unwrap();
    assert_eq!(plan.handles, vec![1, 0]);
    assert_eq!((plan.start, plan.end), (5, 90));
    assert_eq!(plan.routes.len(), 2);
    assert_eq!(plan.routes[0].0, 1);
    assert_eq!(plan.routes[0].1, FstSignalType::Real);
    assert_eq!(plan.routes[0].2, vec!["top.b".to_string(), "top.b".to_string()]);
    assert_eq!(plan.routes[1].0, 0);
    assert_eq!(plan.routes[1].2, vec!["top.a".to_string(), "top.a_alias".to_string()]);
    assert!(plan_visit(&table, &targets, Some(9), Some(3), 90, &QueryContext::new()).unwrap().is_none());
    let missing = plan_visit(&table, &vec!["top.z".to_string()], None, None, 90, &QueryContext::new());
    assert!(missing.is_err());
}

#[test]
fn fst_find_preparation_orders_occurrence_context_and_signal() {
    let table = FstSignalTable::from_signals(vec![FstSignal {
        name: "top.v".into(),
        handle_index: 0,
        width: 4,
        signal_type: FstSignalType::Digital,
        is_alias: false,
    }]);
    let token = CancellationToken::new();
    token.cancel();
    let cancelled = QueryContext::new().with_cancellation(token);
    assert!(matches!(
        find_prepare_fst(&table, "top.missing", 0, &cancelled),
        Err(QueryError::Vcd(VcdError::InvalidOccurrence))
    ));
    assert!(matches!(find_prepare_fst(&table, "top.missing", 1, &cancelled), Err(QueryError::Cancelled)));
    assert!(matches!(
        find_prepare_fst(&table, "top.missing", 1, &QueryContext::new()),
        Err(QueryError::Vcd(VcdError::MissingSignal(name))) if name == "top.missing"
    ));
    assert_eq!(find_prepare_fst(&table, "top.v", 2, &QueryContext::new()).unwrap(), 4);
}

#[test]
fn fst_toggles_count_any_change_after_a_previous_value() {
    let targets = vec!["top.s".to_string()];
    let mut fst = ToggleCounter::with_widths(&targets, &vec![1]);
    for value in ["", "a", "a", ""] {
        fst.observe(&targets[0], &ChangeValue::Text(value.to_string()));
    }
    assert_eq!(fst.counts(), vec![("top.s".to_string(), 2)]);
}
