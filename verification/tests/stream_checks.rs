use std::time::Instant;

use vcd_tools_rs::header::parse_compact_header;
use vcd_tools_rs::query::stream::{
    BodyItem, SelectedChangeStream, StreamStep, TargetSelection, COMMAND_CHECK_INTERVAL,
};
use vcd_tools_rs::query::{CancellationToken, QueryErrorCode, QueryLimitKind};
use vcd_tools_rs::{IdCode, QueryContext, QueryError, QueryLimits, TimeWindow, VcdError};

const HEADER: &[u8] = b"$scope module top $end\n$var wire 1 ! selected $end\n$var wire 1 \" irrelevant $end\n$upscope $end\n$enddefinitions $end\n";

fn strings(values: &[&str]) -> Vec<String> {
    values.iter().map(|value| value.to_string()).collect()
}

fn change(id: &str) -> BodyItem {
    BodyItem::Change(IdCode { text: id.to_string() })
}

fn irrelevant(count: usize) -> Vec<BodyItem> {
    (0..count).map(|_| change("\"")).collect()
}

fn stream(targets: &[&str], window: TimeWindow, context: &QueryContext) -> Result<SelectedChangeStream, QueryError> {
    let header = parse_compact_header(HEADER, HEADER.len() as u64).expect("header");
    let selection = TargetSelection::resolve(&header.catalog, &strings(targets), context)?;
    Ok(SelectedChangeStream::new(selection, window))
}

/// Feed the body to the stream: how many values it asked to convert, and
/// the error that ended it, if any.
fn run(stream: &mut SelectedChangeStream, context: &QueryContext, body: Vec<BodyItem>) -> (usize, Option<QueryError>) {
    let mut conversions = 0;
    for item in body {
        match stream.step(context, Some(Ok::<BodyItem, VcdError>(item))) {
            StreamStep::Convert { .. } => conversions += 1,
            StreamStep::Continue => {}
            StreamStep::Complete => return (conversions, None),
            StreamStep::Fail(error) => return (conversions, Some(error)),
        }
    }
    match stream.step(context, None) {
        StreamStep::Fail(error) => (conversions, Some(error)),
        _ => (conversions, None),
    }
}

fn cancelled() -> QueryContext {
    let token = CancellationToken::new();
    token.cancel();
    QueryContext::new().with_cancellation(token)
}

fn expired(limits: QueryLimits) -> QueryContext {
    QueryContext::new().with_limits(limits.with_deadline(Instant::now()))
}

#[test]
fn signal_and_command_limits_are_exact_and_count_irrelevant_commands() {
    let signals_limited = QueryContext::new().with_limits(QueryLimits::unlimited().with_max_signals(0));
    let error = stream(&["top.selected"], TimeWindow::default(), &signals_limited).err().expect("signal limit");
    assert_eq!(error.code(), QueryErrorCode::LimitExceeded);
    assert_eq!(error.limit_kind(), Some(QueryLimitKind::Signals));

    let unlimited_context = QueryContext::legacy_unlimited();
    let mut unlimited = stream(&["top.selected"], TimeWindow::default(), &unlimited_context).expect("unlimited");
    let (conversions, error) = run(&mut unlimited, &unlimited_context, irrelevant(8));
    assert_eq!(conversions, 0);
    assert!(error.is_none());
    let total = unlimited.command_count();
    assert!(total >= 8, "irrelevant commands are counted");

    let exact_context = QueryContext::new().with_limits(QueryLimits::unlimited().with_max_commands(total));
    let mut exact = stream(&["top.selected"], TimeWindow::default(), &exact_context).expect("exact");
    let (conversions, error) = run(&mut exact, &exact_context, irrelevant(8));
    assert_eq!(conversions, 0);
    assert!(error.is_none());
    assert_eq!(exact.command_count(), total);

    let limited_context = QueryContext::new().with_limits(QueryLimits::unlimited().with_max_commands(total - 1));
    let mut limited = stream(&["top.selected"], TimeWindow::default(), &limited_context).expect("limited");
    let error = run(&mut limited, &limited_context, irrelevant(8)).1.expect("command limit");
    assert_eq!(error.limit_kind(), Some(QueryLimitKind::Commands));
    assert_eq!(error.limit(), Some(total - 1));
    assert_eq!(error.actual(), Some(total));
}

#[test]
fn timestamp_context_checks_precede_colliding_command_budget() {
    let limits = QueryLimits::unlimited().with_max_commands(0);
    let body = || vec![BodyItem::Timestamp(5), change("!")];

    let context = cancelled().with_limits(limits.clone());
    let mut cancelled_stream = stream(&["top.selected"], TimeWindow::default(), &QueryContext::legacy_unlimited()).expect("cancel stream");
    let error = run(&mut cancelled_stream, &context, body()).1.expect("cancelled");
    assert_eq!(error.code(), QueryErrorCode::Cancelled);
    assert_eq!(cancelled_stream.command_count(), 1);

    let context = expired(limits);
    let mut expired_stream = stream(&["top.selected"], TimeWindow::default(), &QueryContext::legacy_unlimited()).expect("deadline stream");
    let error = run(&mut expired_stream, &context, body()).1.expect("expired");
    assert_eq!(error.code(), QueryErrorCode::DeadlineExceeded);
    assert_eq!(expired_stream.command_count(), 1);
}

#[test]
fn periodic_context_checks_precede_colliding_command_budget() {
    let limits = QueryLimits::unlimited().with_max_commands(COMMAND_CHECK_INTERVAL - 1);
    let body = || irrelevant(COMMAND_CHECK_INTERVAL as usize + 1);

    let context = cancelled().with_limits(limits.clone());
    let mut cancelled_stream = stream(&["top.selected"], TimeWindow::default(), &QueryContext::legacy_unlimited()).expect("cancel stream");
    let error = run(&mut cancelled_stream, &context, body()).1.expect("cancelled");
    assert_eq!(error.code(), QueryErrorCode::Cancelled);
    assert_eq!(cancelled_stream.command_count(), COMMAND_CHECK_INTERVAL);

    let context = expired(limits);
    let mut expired_stream = stream(&["top.selected"], TimeWindow::default(), &QueryContext::legacy_unlimited()).expect("deadline stream");
    let error = run(&mut expired_stream, &context, body()).1.expect("expired");
    assert_eq!(error.code(), QueryErrorCode::DeadlineExceeded);
    assert_eq!(expired_stream.command_count(), COMMAND_CHECK_INTERVAL);
}

#[test]
fn cancellation_is_checked_at_timestamp_periodic_and_preconversion_points() {
    let context = cancelled();
    let window = TimeWindow { start: Some(5), end: None };
    let mut timestamp = stream(&["top.selected"], window, &QueryContext::legacy_unlimited()).expect("timestamp stream");
    let (conversions, error) = run(&mut timestamp, &context, vec![BodyItem::Timestamp(5), change("!")]);
    assert_eq!(error.expect("cancelled").code(), QueryErrorCode::Cancelled);
    assert_eq!(conversions, 0);

    let mut conversion = stream(&["top.selected"], TimeWindow::default(), &QueryContext::legacy_unlimited()).expect("conversion stream");
    let (conversions, error) = run(&mut conversion, &context, vec![change("!")]);
    assert_eq!(error.expect("cancelled").code(), QueryErrorCode::Cancelled);
    assert_eq!(conversions, 0);

    let mut periodic = stream(&["top.selected"], TimeWindow::default(), &QueryContext::legacy_unlimited()).expect("periodic stream");
    let (_, error) = run(&mut periodic, &context, irrelevant(COMMAND_CHECK_INTERVAL as usize + 4));
    assert_eq!(error.expect("cancelled").code(), QueryErrorCode::Cancelled);
    assert_eq!(periodic.command_count(), COMMAND_CHECK_INTERVAL);
}

#[test]
fn deadline_is_checked_before_selected_conversion() {
    let context = expired(QueryLimits::unlimited());
    let mut selected = stream(&["top.selected"], TimeWindow::default(), &QueryContext::legacy_unlimited()).expect("stream");
    let (conversions, error) = run(&mut selected, &context, vec![change("!")]);
    assert_eq!(error.expect("expired").code(), QueryErrorCode::DeadlineExceeded);
    assert_eq!(conversions, 0);
}
