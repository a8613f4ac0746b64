use vcd_tools_rs::server::listener::{
    created_socket_check, existing_entry_check, same_socket_check, socket_parent_check,
    socket_path_check, stale_socket_check, BindRefusal, EntryFacts, LivenessProbe,
};
use vcd_tools_rs::server::protocol::{
    CancelParams, EndFrame, StreamStats, DetailValue, ListParams, MetadataParams, ProtocolError,
    ProtocolErrorCode, Request, RequestMethod, WireValue, TERMINAL_FRAME_RESERVE_BYTES,
};
use vcd_tools_rs::server::runtime::{
    admit_connection, admit_request, effective_timeout_ms, next_lifecycle, terminal_frame,
    ActiveRequests, Admission, FrameHead, FrameKind, OutputLifecycle, RuntimeConfig,
};
use vcd_tools_rs::server::service::{
    describe_result, ensure_response_budget, find_result, frame_bytes, lower_limit,
    metadata_result, request_limits, time_value_row, toggles_result, unary_bytes, ChunkStep,
    ResponseStream, ServiceConfig,
};
use vcd_tools_rs::{ChangeValue, TimeUnit, TimeValue, Timescale, VcdMeta};

fn text_detail(error: &ProtocolError, name: &str) -> String {
    match &error.details.fields.iter().find(|(k, _)| k == name).expect("detail").1 {
        DetailValue::Text(text) => text.clone(),
        DetailValue::List(_) => panic!("list detail"),
    }
}

fn assert_limit(error: &ProtocolError, kind: &str, limit: &str, actual: &str) {
    assert_eq!(error.code, ProtocolErrorCode::LimitExceeded);
    assert_eq!(error.message, "query limit exceeded");
    assert_eq!(text_detail(error, "kind"), kind);
    assert_eq!(text_detail(error, "limit"), limit);
    assert_eq!(text_detail(error, "actual"), actual);
    assert!(!error.retryable);
}

fn head(kind: FrameKind, id: &str, seq: u32) -> FrameHead {
    FrameHead { kind, id: Some(id.to_string()), seq }
}

#[test]
fn configurations_validate_their_bounds() {
    assert!(RuntimeConfig::default().validate().is_ok());
    let zero_workers = RuntimeConfig { workers: 0, ..RuntimeConfig::default() };
    let failure = zero_workers.validate().unwrap_err();
    assert_eq!(failure.message, "server runtime limits must be non-zero");
    let small_frames = RuntimeConfig { max_encoded_frame_bytes: 4095, ..RuntimeConfig::default() };
    assert!(small_frames.validate().is_err());
    assert!(ServiceConfig::default().validate().is_ok());
    let small_response = ServiceConfig { max_response_bytes: 4095, ..ServiceConfig::default() };
    assert_eq!(
        small_response.validate().unwrap_err().message,
        "server query limits are outside supported bounds"
    );
}

#[test]
fn requests_may_only_lower_configured_limits() {
    assert_eq!(lower_limit("rows", None, 10).unwrap(), 10);
    assert_eq!(lower_limit("rows", Some(10), 10).unwrap(), 10);
    let error = lower_limit("rows", Some(11), 10).unwrap_err();
    assert_eq!(error.code, ProtocolErrorCode::BadRequest);
    assert_eq!(error.message, "rows may only lower the configured maximum");

    let config = ServiceConfig::default();
    let (limits, response) = request_limits(&config, Some(5), None, Some(5000)).unwrap();
    assert_eq!(response, 5000);
    assert_eq!(limits.max_commands(), Some(5));
    assert_eq!(limits.max_rows(), Some(config.max_rows));
    assert_eq!(limits.max_result_bytes(), Some(5000));
    assert_eq!(limits.max_signals(), Some(config.max_signals));
    let reserve = request_limits(&config, None, None, Some(TERMINAL_FRAME_RESERVE_BYTES - 1)).unwrap_err();
    assert_eq!(reserve.message, "max_response_bytes must reserve at least 4096 terminal bytes");
    let commands = request_limits(&config, Some(config.max_commands + 1), None, None).unwrap_err();
    assert_eq!(commands.message, "commands may only lower the configured maximum");
}

#[test]
fn timeouts_default_to_the_maximum_and_may_only_lower_it() {
    let list = |timeout_ms| {
        RequestMethod::List(ListParams { filter: None, max_rows: None, max_response_bytes: None, timeout_ms })
    };
    assert_eq!(effective_timeout_ms(&list(None), 100).unwrap(), 100);
    assert_eq!(effective_timeout_ms(&list(Some(40)), 100).unwrap(), 40);
    assert_eq!(
        effective_timeout_ms(&list(Some(101)), 100).unwrap_err().message,
        "timeout_ms may only lower the configured maximum"
    );
    assert_eq!(effective_timeout_ms(&RequestMethod::Ping, 7).unwrap(), 7);
    let metadata = RequestMethod::Metadata(MetadataParams { timeout_ms: Some(3), max_commands: None });
    assert_eq!(effective_timeout_ms(&metadata, 7).unwrap(), 3);
}

#[test]
fn response_budget_keeps_the_terminal_reserve() {
    assert!(ensure_response_budget(100, 100, 200 + TERMINAL_FRAME_RESERVE_BYTES).is_ok());
    let error = ensure_response_budget(100, 101, 200 + TERMINAL_FRAME_RESERVE_BYTES).unwrap_err();
    assert_limit(&error, "response_bytes", "4296", "4297");
    let saturated = ensure_response_budget(u64::MAX, 1, 10).unwrap_err();
    assert_limit(&saturated, "response_bytes", "10", &u64::MAX.to_string());
}

#[test]
fn frames_are_bounded_by_the_frame_limit() {
    assert_eq!(frame_bytes(100, 100).unwrap(), 100);
    assert_limit(&frame_bytes(101, 100).unwrap_err(), "encoded_frame_bytes", "100", "101");
    assert_eq!(unary_bytes(50, 100, 50).unwrap(), 50);
    assert_limit(&unary_bytes(51, 100, 50).unwrap_err(), "response_bytes", "50", "51");
    assert_limit(&unary_bytes(150, 100, 500).unwrap_err(), "encoded_frame_bytes", "100", "101");
}

#[test]
fn streams_account_chunks_and_sequence_numbers() {
    let limit = 500 + TERMINAL_FRAME_RESERVE_BYTES;
    let mut stream = ResponseStream::begin(100, limit, 300).unwrap();
    assert_eq!((stream.next_seq(), stream.encoded(), stream.rows()), (1, 100, 0));
    assert_eq!(stream.plan_chunk(200, 3).unwrap(), ChunkStep::Send { seq: 1 });
    stream.record_chunk(200, 3).unwrap();
    assert_eq!((stream.next_seq(), stream.encoded(), stream.rows()), (2, 300, 3));
    assert_eq!(stream.plan_chunk(301, 5).unwrap(), ChunkStep::Split { at: 2 });
    assert_limit(&stream.plan_chunk(301, 1).unwrap_err(), "chunk_bytes", "300", "301");
    assert_limit(&stream.plan_chunk(300, 2).unwrap_err(), "response_bytes", &limit.to_string(), "4696");
    assert!(stream.check_end(300).is_ok());
    assert_limit(&stream.check_end(301).unwrap_err(), "encoded_frame_bytes", "300", "301");
    assert!(stream.check_listed_rows(1, 5).is_ok());
    assert_limit(&stream.check_listed_rows(2, 5).unwrap_err(), "rows", "5", "6");
    assert_limit(
        &ResponseStream::begin(100, 100 + TERMINAL_FRAME_RESERVE_BYTES - 1, 300).unwrap_err(),
        "response_bytes",
        "4195",
        "4196",
    );
}

#[test]
fn lifecycle_admits_one_result_or_a_contiguous_stream() {
    let id = "r1".to_string();
    let started = next_lifecycle(OutputLifecycle::NotStarted, &id, &head(FrameKind::Begin, "r1", 0)).unwrap();
    assert_eq!(started, OutputLifecycle::Streaming { next_seq: 1 });
    let chunk = next_lifecycle(started, &id, &head(FrameKind::Chunk, "r1", 1)).unwrap();
    assert_eq!(chunk, OutputLifecycle::Streaming { next_seq: 2 });
    let skipped = next_lifecycle(chunk, &id, &head(FrameKind::Chunk, "r1", 3)).unwrap_err();
    assert_eq!(skipped.message, "response frame violates request lifecycle or sequence");
    let foreign = next_lifecycle(chunk, &id, &head(FrameKind::End, "r2", 2)).unwrap_err();
    assert_eq!(foreign.code, ProtocolErrorCode::Internal);
    let ended = next_lifecycle(chunk, &id, &head(FrameKind::End, "r1", 2)).unwrap();
    assert_eq!(ended, OutputLifecycle::Terminal);
    let after = next_lifecycle(ended, &id, &head(FrameKind::Result, "r1", 0)).unwrap_err();
    assert_eq!(after.message, "response already terminated");
    assert_eq!(
        next_lifecycle(OutputLifecycle::NotStarted, &id, &head(FrameKind::Result, "r1", 0)).unwrap(),
        OutputLifecycle::Terminal
    );
    assert_eq!(terminal_frame(OutputLifecycle::NotStarted), Some((FrameKind::Error, 0)));
    assert_eq!(terminal_frame(chunk), Some((FrameKind::End, 2)));
    assert_eq!(terminal_frame(OutputLifecycle::Terminal), None);
}

#[test]
fn active_requests_are_unique_bounded_and_cancellable() {
    let mut active = ActiveRequests::new(2);
    let token = active.register("a").unwrap();
    assert!(active.is_active("a"));
    let duplicate = active.register("a").unwrap_err();
    assert_eq!(duplicate.code, ProtocolErrorCode::DuplicateRequestId);
    active.register("b").unwrap();
    let full = active.register("c").unwrap_err();
    assert_eq!(full.code, ProtocolErrorCode::LimitExceeded);
    assert_eq!(text_detail(&full, "actual"), "3");
    assert!(active.cancel("a"));
    assert!(token.is_cancelled());
    assert!(!active.cancel("c"));
    active.remove("a");
    assert!(!active.is_active("a"));
    assert_eq!(active.active_count(), 1);
    active.register("c").unwrap();
}

#[test]
fn connections_are_admitted_below_the_bound() {
    assert_eq!(admit_connection(0, 2), Some(1));
    assert_eq!(admit_connection(1, 2), Some(2));
    assert_eq!(admit_connection(2, 2), None);
}

#[test]
fn encoded_totals_settle_on_a_fixed_point() {
    let stats = StreamStats {
        rows: "3".to_string(),
        encoded_bytes: "0".to_string(),
        elapsed_ms: "12".to_string(),
        commands: "7".to_string(),
        backend: "stream".to_string(),
    };
    let end_len = |frame: &EndFrame| {
        Ok::<u64, String>(40 + frame.stats.as_ref().unwrap().encoded_bytes.len() as u64)
    };
    let end = EndFrame::end_success("r1".to_string(), 4, stats.clone(), 1000, end_len).unwrap();
    let reported = end.stats.as_ref().unwrap();
    assert_eq!(reported.encoded_bytes, "1044");
    assert_eq!(reported.encoded_bytes, (1000 + end_len(&end).unwrap()).to_string());
    assert_eq!(reported.rows, "3");
    assert_eq!(reported.elapsed_ms, "12");
    assert_eq!(reported.commands, "7");
    assert_eq!(reported.backend, "stream");
    assert_eq!(end.id, "r1");
    assert_eq!(end.seq, 4);
    assert!(end.complete);
    assert!(end.error.is_none());
    let broken = EndFrame::end_success("r1".to_string(), 4, stats, 5, |_: &EndFrame| Err("broken".to_string()));
    assert_eq!(broken.unwrap_err(), "broken");
}

#[test]
fn error_end_frames_are_incomplete_without_stats() {
    let e = ProtocolError::new(
        ProtocolErrorCode::Cancelled,
        "cancelled".to_string(),
        vcd_tools_rs::server::protocol::ErrorDetails { fields: Vec::new() },
        false,
    );
    let end = EndFrame::end_error("r2".to_string(), 9, e);
    assert_eq!(end.id, "r2");
    assert_eq!(end.seq, 9);
    assert!(!end.complete);
    assert!(end.stats.is_none());
    assert_eq!(end.error.unwrap().code, ProtocolErrorCode::Cancelled);
}

#[test]
fn results_render_counts_and_values_in_decimal() {
    let meta = VcdMeta {
        timescale: Some(Timescale { magnitude: 10, unit: TimeUnit::NS }),
        signal_count: 3,
        start_time: 0,
        end_time: 1200,
    };
    let result = metadata_result(&meta);
    assert_eq!(result.signal_count, "3");
    assert_eq!(result.end_time, "1200");
    let timescale = result.timescale.expect("timescale");
    assert_eq!((timescale.magnitude.as_str(), timescale.unit.as_str()), ("10", "ns"));

    let event = TimeValue { signal: "top.bus".to_string(), time: 42, value: ChangeValue::Integer(255) };
    let row = time_value_row(&event, 8);
    assert_eq!((row.signal.as_str(), row.time.as_str(), row.width.as_str()), ("top.bus", "42", "8"));
    assert_eq!(row.value, WireValue::Integer { text: "255".to_string() });

    let found = find_result("top.bus".to_string(), Some(&event), 8);
    assert!(found.found);
    assert_eq!(found.time.as_deref(), Some("42"));
    let missing = find_result("top.bus".to_string(), None, 8);
    assert!(!missing.found && missing.time.is_none() && missing.value.is_none());

    let signals = vec!["b".to_string(), "a".to_string(), "zz".to_string()];
    let counts = vec![("a".to_string(), 4), ("b".to_string(), 7)];
    let toggles = toggles_result(&signals, &counts);
    let rows: Vec<(&str, &str)> =
        toggles.rows.iter().map(|r| (r.signal.as_str(), r.toggles.as_str())).collect();
    assert_eq!(rows, vec![("b", "7"), ("a", "4"), ("zz", "0")]);

    let described = describe_result(&RuntimeConfig::default(), &ServiceConfig::default(), 9, 3, None, 77);
    assert_eq!(described.generation, "9");
    assert_eq!(described.source_size, "77");
    assert_eq!(described.limits.workers, "4");
    assert_eq!(described.methods.len(), 8);
    assert!(described.timescale.is_none());
}

#[test]
fn requests_are_admitted_cancelled_rejected_or_refused() {
    let mut active = ActiveRequests::new(1);
    let ping = |id: &str| Ok(Request { id: id.to_string(), method: RequestMethod::Ping });
    match admit_request(&mut active, ping("a"), 100) {
        Admission::Run { request, timeout_ms, token } => {
            assert_eq!(request.id, "a");
            assert_eq!(timeout_ms, 100);
            assert!(!token.is_cancelled());
        }
        _ => panic!("expected the request to run"),
    }
    match admit_request(&mut active, ping("a"), 100) {
        Admission::Refuse(e) => assert_eq!(e.code, ProtocolErrorCode::DuplicateRequestId),
        _ => panic!("expected a duplicate id refusal"),
    }
    match admit_request(&mut active, ping("b"), 100) {
        Admission::Refuse(e) => assert_eq!(e.code, ProtocolErrorCode::LimitExceeded),
        _ => panic!("expected the active bound refusal"),
    }
    let slow = Request {
        id: "c".to_string(),
        method: RequestMethod::List(ListParams {
            filter: None,
            max_rows: None,
            max_response_bytes: None,
            timeout_ms: Some(101),
        }),
    };
    match admit_request(&mut active, Ok(slow), 100) {
        Admission::Reject { id, error } => {
            assert_eq!(id, "c");
            assert_eq!(error.message, "timeout_ms may only lower the configured maximum");
        }
        _ => panic!("expected a rejection"),
    }
    let cancel = Request {
        id: "d".to_string(),
        method: RequestMethod::Cancel(CancelParams { request_id: "a".to_string() }),
    };
    match admit_request(&mut active, Ok(cancel), 100) {
        Admission::Cancelled { id, found } => {
            assert_eq!(id, "d");
            assert!(found);
        }
        _ => panic!("expected a cancel answer"),
    }
    match admit_request(&mut active, Err(ProtocolError::bad_request("broken line")), 100) {
        Admission::Refuse(e) => assert_eq!(e.message, "broken line"),
        _ => panic!("expected a refusal"),
    }
    assert_eq!(active.active_count(), 1);
    assert!(active.is_active("a"));
}

fn entry(is_socket: bool, owner_uid: u32, inode: u64) -> EntryFacts {
    EntryFacts { is_socket, owner_uid, device: 7, inode }
}

#[test]
fn socket_binding_checks_follow_the_listener_rules() {
    assert_eq!(socket_path_check(false, true), Err(BindRefusal::NotAbsolute));
    assert_eq!(socket_path_check(true, false), Err(BindRefusal::NoParent));
    assert_eq!(socket_path_check(true, true), Ok(()));
    assert_eq!(socket_parent_check(false, 5, 5, 0o700), Err(BindRefusal::ParentNotDirectory));
    assert_eq!(socket_parent_check(true, 6, 5, 0o700), Err(BindRefusal::ParentNotPrivate));
    assert_eq!(socket_parent_check(true, 5, 5, 0o750), Err(BindRefusal::ParentNotPrivate));
    assert_eq!(socket_parent_check(true, 5, 5, 0o40700), Ok(()));
    assert_eq!(existing_entry_check(entry(false, 5, 1)), Err(BindRefusal::NotASocket));
    assert_eq!(stale_socket_check(entry(true, 5, 1), LivenessProbe::Connected, 5), Err(BindRefusal::LiveListener));
    assert_eq!(stale_socket_check(entry(true, 5, 1), LivenessProbe::Failed, 5), Err(BindRefusal::LivenessUncertain));
    assert_eq!(stale_socket_check(entry(true, 6, 1), LivenessProbe::Refused, 5), Err(BindRefusal::StaleNotOwned));
    assert_eq!(stale_socket_check(entry(true, 5, 1), LivenessProbe::Refused, 5), Ok(()));
    assert_eq!(same_socket_check(7, 1, entry(true, 5, 2), BindRefusal::PathChanged), Err(BindRefusal::PathChanged));
    assert_eq!(same_socket_check(7, 1, entry(true, 5, 1), BindRefusal::PathChanged), Ok(()));
    assert_eq!(created_socket_check(entry(true, 5, 3)), Ok((7, 3)));
    assert_eq!(created_socket_check(entry(false, 5, 3)), Err(BindRefusal::CreatedNotSocket));
    assert_eq!(BindRefusal::LiveListener.message(), "Unix socket already has a live listener");
}
