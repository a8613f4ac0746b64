use vcd_tools_rs::query::QueryLimitKind;
use vcd_tools_rs::server::protocol::{
    decode_request, decode_request_with_active, parse_decimal_u128, parse_decimal_u64,
    parse_decimal_usize, protocol_error_from_query, protocol_error_from_vcd, split_names,
    DetailValue, JsonLineAccumulator, JsonNumber, JsonValue, ProtocolError, ProtocolErrorCode,
    RequestMethod, WireTimescale, WireValue, MAX_ERROR_DETAIL_ITEMS, MAX_ERROR_DETAIL_STRING_BYTES,
    MAX_ERROR_MESSAGE_BYTES,
};
use vcd_tools_rs::{
    ChangeValue, IoErrorKind, IoFailure, QueryError, RealValue, TimeUnit, Timescale, VcdError,
};

fn convert(value: serde_json::Value) -> JsonValue {
    match value {
        serde_json::Value::Null => JsonValue::Null,
        serde_json::Value::Bool(b) => JsonValue::Bool(b),
        serde_json::Value::Number(n) => {
            if let Some(u) = n.as_u64() {
                JsonValue::Number(JsonNumber::Unsigned(u))
            } else if let Some(i) = n.as_i64() {
                JsonValue::Number(JsonNumber::Negative(i))
            } else {
                JsonValue::Number(JsonNumber::Fractional(n.to_string()))
            }
        }
        serde_json::Value::String(s) => JsonValue::String(s),
        serde_json::Value::Array(items) => JsonValue::Array(items.into_iter().map(convert).collect()),
        serde_json::Value::Object(map) => {
            JsonValue::Object(map.into_iter().map(|(k, v)| (k, convert(v))).collect())
        }
    }
}

fn parse(line: &str) -> Result<JsonValue, String> {
    serde_json::from_str::<serde_json::Value>(line).map(convert).map_err(|e| e.to_string())
}

fn detail<'a>(error: &'a ProtocolError, name: &str) -> &'a DetailValue {
    &error.details.fields.iter().find(|(k, _)| k == name).expect("detail").1
}

#[test]
fn incremental_accumulator_handles_partial_and_multiple_frames() {
    let mut accumulator = JsonLineAccumulator::default();
    assert!(accumulator.push(b"{\"v\":1").unwrap().is_empty());
    let frames = accumulator
        .push(b",\"id\":\"a\",\"method\":\"ping\",\"params\":{}}\n{\"v\":1,\"id\":\"b\",\"method\":\"ping\",\"params\":{}}\n")
        .unwrap();
    assert_eq!(frames.len(), 2);
    assert_eq!(decode_request(parse(&frames[0])).unwrap().id, "a");
    assert_eq!(decode_request(parse(&frames[1])).unwrap().id, "b");
    assert_eq!(accumulator.buffered_bytes(), 0);
}

#[test]
fn accumulator_rejects_invalid_utf8_and_oversize_before_growth() {
    let mut invalid = JsonLineAccumulator::new(8);
    let error = invalid.push(&[0xff, b'\n']).unwrap_err();
    assert_eq!(error.code, ProtocolErrorCode::BadRequest);

    let mut oversized = JsonLineAccumulator::new(8);
    let error = oversized.push(b"12345678").unwrap_err();
    assert_eq!(error.code, ProtocolErrorCode::LimitExceeded);
    assert_eq!(oversized.buffered_bytes(), 0);
    assert!(oversized.push(b"\n").is_err(), "poisoned connection remains failed");
}

#[test]
fn unknown_envelope_fields_are_ignored_but_params_are_strict() {
    let request = decode_request(parse(
        r#"{"v":1,"id":"x","method":"ping","params":{},"future":{"nested":true}}"#,
    ))
    .unwrap();
    assert_eq!(request.id, "x");
    assert_eq!(request.method, RequestMethod::Ping);
    let error = decode_request(parse(r#"{"v":1,"id":"x","method":"ping","params":{"future":true}}"#))
        .unwrap_err();
    assert_eq!(error.code, ProtocolErrorCode::BadRequest);
}

#[test]
fn reader_errors_become_bad_requests_with_their_message() {
    let error = decode_request(Err("duplicate object key id".to_string())).unwrap_err();
    assert_eq!(error.code, ProtocolErrorCode::BadRequest);
    assert_eq!(error.message, "invalid JSON: duplicate object key id");
}

#[test]
fn request_errors_have_their_categories() {
    let code = |line: &str| decode_request(parse(line)).unwrap_err().code;
    assert_eq!(code("{"), ProtocolErrorCode::BadRequest);
    assert_eq!(code(r#"{"v":2,"id":"x","method":"ping","params":{}}"#), ProtocolErrorCode::UnsupportedVersion);
    assert_eq!(code(r#"{"v":1,"id":"x","method":"nope","params":{}}"#), ProtocolErrorCode::UnknownMethod);
    assert_eq!(
        code(r#"{"v":1,"id":"x","method":"extract","params":{"signals":["a"],"start":"5","end":"4"}}"#),
        ProtocolErrorCode::InvalidWindow
    );
    assert_eq!(
        code(r#"{"v":1,"id":"x","method":"find","params":{"signal":"a","value":"1","occurrence":"0"}}"#),
        ProtocolErrorCode::InvalidOccurrence
    );
    assert_eq!(code(r#"{"v":1,"id":"x","method":"list","params":{"max_rows":"01"}}"#), ProtocolErrorCode::BadRequest);
}

#[test]
fn active_id_validation_is_separate_and_bounded() {
    let line = r#"{"v":1,"id":"active","method":"ping","params":{}}"#;
    let error = decode_request_with_active(parse(line), |id| id == "active").unwrap_err();
    assert_eq!(error.code, ProtocolErrorCode::DuplicateRequestId);

    let long = "é".repeat(65);
    let line = format!(r#"{{"v":1,"id":"{long}","method":"ping","params":{{}}}}"#);
    assert_eq!(decode_request(parse(&line)).unwrap_err().code, ProtocolErrorCode::BadRequest);
}

#[test]
fn decimal_parsers_are_canonical_and_checked() {
    assert_eq!(parse_decimal_u64("0", "n").unwrap(), 0);
    assert_eq!(parse_decimal_u128(&u128::MAX.to_string(), "n").unwrap(), u128::MAX);
    assert_eq!(parse_decimal_usize("42", "n").unwrap(), 42);
    for invalid in ["", "00", "+1", "-1", " 1", "1.0"] {
        assert_eq!(parse_decimal_u64(invalid, "n").unwrap_err().code, ProtocolErrorCode::BadRequest);
    }
    assert_eq!(
        parse_decimal_u64("18446744073709551616", "n").unwrap_err().code,
        ProtocolErrorCode::BadRequest
    );
}

#[test]
fn value_and_timescale_wire_forms_preserve_variants_and_bits() {
    assert_eq!(
        WireValue::from_value(&ChangeValue::Integer(10)),
        WireValue::Integer { text: "10".to_string() }
    );
    let negative_zero = RealValue { bits: (-0.0f64).to_bits(), text: "-0".to_string() };
    assert_eq!(
        WireValue::from_value(&ChangeValue::Float(negative_zero)),
        WireValue::Float { text: "-0".to_string(), bits: "8000000000000000".to_string() }
    );
    assert_eq!(
        WireValue::from_value(&ChangeValue::Text("Xz".into())),
        WireValue::Text { text: "Xz".to_string() }
    );
    let timescale = Timescale { magnitude: 1, unit: TimeUnit::FS };
    assert_eq!(
        WireTimescale::from_timescale(&timescale),
        WireTimescale { magnitude: "1".to_string(), unit: "fs".to_string() }
    );
}

#[test]
fn error_messages_and_details_fit_the_terminal_reserve() {
    let huge = "é".repeat(100_000);
    let error = ProtocolError::unknown_method(&huge);
    assert!(error.message.len() <= MAX_ERROR_MESSAGE_BYTES);
    match detail(&error, "method") {
        DetailValue::Text(text) => assert!(text.len() <= MAX_ERROR_DETAIL_STRING_BYTES),
        other => panic!("unexpected {other:?}"),
    }

    let signals = (0..100)
        .map(|index| format!("{index}-{}", "x".repeat(1_000)))
        .collect::<Vec<_>>()
        .join(", ");
    let error = protocol_error_from_vcd(&VcdError::MissingSignals(signals));
    match detail(&error, "signals") {
        DetailValue::List(items) => {
            assert!(items.len() <= MAX_ERROR_DETAIL_ITEMS);
            assert!(items.iter().all(|item| item.len() <= MAX_ERROR_DETAIL_STRING_BYTES));
        }
        other => panic!("unexpected {other:?}"),
    }
}

#[test]
fn query_and_vcd_errors_map_to_frozen_protocol_codes() {
    let cases = vec![
        (QueryError::Cancelled, ProtocolErrorCode::Cancelled, false),
        (QueryError::DeadlineExceeded, ProtocolErrorCode::DeadlineExceeded, true),
        (
            QueryError::LimitExceeded { kind: QueryLimitKind::Rows, limit: 1, actual: 2 },
            ProtocolErrorCode::LimitExceeded,
            false,
        ),
        (
            QueryError::StaleSource(VcdError::Parse("stale".into())),
            ProtocolErrorCode::StaleSource,
            true,
        ),
        (QueryError::QueueFull, ProtocolErrorCode::QueueFull, true),
        (
            QueryError::source_unavailable(IoFailure::new(IoErrorKind::NotFound, "secret/path".into())),
            ProtocolErrorCode::SourceUnavailable,
            true,
        ),
        (
            QueryError::Vcd(VcdError::MissingSignal("tb.missing".into())),
            ProtocolErrorCode::SignalNotFound,
            false,
        ),
        (QueryError::internal("secret"), ProtocolErrorCode::Internal, false),
    ];
    for (error, code, retryable) in cases {
        let mapped = protocol_error_from_query(&error);
        assert_eq!(mapped.code, code);
        assert_eq!(mapped.retryable, retryable);
        assert!(!mapped.message.contains("secret"));
    }
    assert_eq!(
        protocol_error_from_vcd(&VcdError::MissingEndDefinitions).code,
        ProtocolErrorCode::ParseError
    );
    assert_eq!(
        protocol_error_from_vcd(&VcdError::InvalidOccurrence).code,
        ProtocolErrorCode::InvalidOccurrence
    );
}

#[test]
fn split_names_matches_comma_space_split() {
    assert_eq!(split_names("a, b, c"), vec!["a", "b", "c"]);
    assert_eq!(split_names("a,b"), vec!["a,b"]);
    assert_eq!(split_names(""), vec![""]);
    assert_eq!(split_names(", x"), vec!["", "x"]);
}

#[test]
fn two_pushes_equal_one_push_of_the_concatenation() {
    let x: &[u8] = b"{\"a\":1}\n{\"b\"";
    let y: &[u8] = b":2}\n{\"c\":3";
    let mut split = JsonLineAccumulator::new(64);
    let mut frames = split.push(x).unwrap();
    frames.extend(split.push(y).unwrap());
    let mut whole = JsonLineAccumulator::new(64);
    let joined: Vec<u8> = [x, y].concat();
    let together = whole.push(&joined).unwrap();
    assert_eq!(frames, together);
    assert_eq!(frames, vec!["{\"a\":1}".to_string(), "{\"b\":2}".to_string()]);
    assert_eq!(split.buffered_bytes(), whole.buffered_bytes());
    assert_eq!(split.buffered_bytes(), 6);
}

#[test]
fn canonical_decimals_print_back_as_themselves() {
    for text in ["0", "7", "120", "18446744073709551615"] {
        assert_eq!(parse_decimal_u64(text, "n").unwrap().to_string(), text);
    }
}

#[test]
fn decoded_method_names_match_the_request_method() {
    let cases = [
        (r#"{"v":1,"id":"a","method":"ping","params":{}}"#, "ping"),
        (r#"{"v":1,"id":"a","method":"describe","params":{}}"#, "describe"),
        (r#"{"v":1,"id":"a","method":"list","params":{}}"#, "list"),
        (r#"{"v":1,"id":"a","method":"metadata","params":{}}"#, "metadata"),
        (r#"{"v":1,"id":"a","method":"cancel","params":{"request_id":"b"}}"#, "cancel"),
    ];
    for (line, name) in cases {
        assert_eq!(decode_request(parse(line)).unwrap().method.name(), name);
    }
}

#[test]
fn accumulated_lines_fit_the_bound_with_their_newline() {
    let mut accumulator = JsonLineAccumulator::new(8);
    let lines = accumulator.push("1234567\néé\n".as_bytes()).unwrap();
    assert_eq!(lines, vec!["1234567".to_string(), "éé".to_string()]);
    assert!(lines.iter().all(|line| line.len() + 1 <= 8));
}
