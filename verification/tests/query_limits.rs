use std::time::{Duration, Instant};

use vcd_tools_rs::query::{CancellationToken, QueryErrorCode, QueryLimitKind};
use vcd_tools_rs::{IoErrorKind, IoFailure, QueryContext, QueryError, QueryLimits, VcdError};

#[test]
fn cancellation_propagates_across_clones() {
    let token = CancellationToken::new();
    let clone = token.clone();
    assert!(!clone.is_cancelled());
    token.cancel();
    assert!(clone.is_cancelled());
}

#[test]
fn builders_and_accessors_cover_all_limits() {
    let deadline = Instant::now() + Duration::from_secs(1);
    let limits = QueryLimits::unlimited()
        .with_max_signals(2)
        .with_max_rows(3)
        .with_max_result_bytes(4)
        .with_max_commands(5)
        .with_deadline(deadline);
    assert_eq!(limits.max_signals(), Some(2));
    assert_eq!(limits.max_rows(), Some(3));
    assert_eq!(limits.max_result_bytes(), Some(4));
    assert_eq!(limits.max_commands(), Some(5));
    assert_eq!(limits.deadline(), Some(deadline));
}

#[test]
fn context_enforces_each_limit() {
    let context = QueryContext::new().with_limits(
        QueryLimits::unlimited()
            .with_max_signals(1)
            .with_max_rows(2)
            .with_max_result_bytes(3)
            .with_max_commands(4),
    );
    for (error, kind) in [
        (context.check_signal_count(2).unwrap_err(), QueryLimitKind::Signals),
        (context.check_rows(3).unwrap_err(), QueryLimitKind::Rows),
        (context.check_result_bytes(4).unwrap_err(), QueryLimitKind::ResultBytes),
        (context.check_commands(5).unwrap_err(), QueryLimitKind::Commands),
    ] {
        assert_eq!(error.code(), QueryErrorCode::LimitExceeded);
        assert_eq!(error.limit_kind(), Some(kind));
    }
}

#[test]
fn limits_accept_the_limit_itself() {
    let context = QueryContext::new().with_limits(
        QueryLimits::unlimited()
            .with_max_signals(1)
            .with_max_rows(2)
            .with_max_result_bytes(3)
            .with_max_commands(4),
    );
    assert!(context.check_signal_count(1).is_ok());
    assert!(context.check_rows(2).is_ok());
    assert!(context.check_result_bytes(3).is_ok());
    assert!(context.check_commands(4).is_ok());
    let error = context.check_rows(7).unwrap_err();
    assert_eq!(error.limit(), Some(2));
    assert_eq!(error.actual(), Some(7));
}

#[test]
fn cancellation_precedes_deadline() {
    let token = CancellationToken::new();
    token.cancel();
    let context = QueryContext::new()
        .with_cancellation(token)
        .with_limits(QueryLimits::unlimited().with_deadline(Instant::now()));
    assert_eq!(context.check().unwrap_err().code(), QueryErrorCode::Cancelled);
}

#[test]
fn deadline_is_enforced() {
    let context =
        QueryContext::new().with_limits(QueryLimits::unlimited().with_deadline(Instant::now()));
    assert_eq!(context.check().unwrap_err().code(), QueryErrorCode::DeadlineExceeded);
}

#[test]
fn overflowing_timeout_remains_unlimited() {
    let limits = QueryLimits::unlimited().with_timeout(Duration::MAX);
    assert_eq!(limits.deadline(), None);
    QueryContext::new()
        .with_limits(limits)
        .check()
        .expect("overflowing timeout must not be immediately expired");
}

#[test]
fn errors_have_stable_codes_display_and_sources() {
    let vcd = QueryError::from_vcd(VcdError::MissingSignal("top.missing".to_string()));
    assert_eq!(vcd.code().code(), "VCD_ERROR");
    assert!(vcd.message().contains("top.missing"));
    assert!(vcd.source().is_some());

    let source = QueryError::source_unavailable(IoFailure::new(
        IoErrorKind::NotFound,
        "gone".to_string(),
    ));
    assert_eq!(source.code().code(), "SOURCE_UNAVAILABLE");
    assert!(source.source().is_some());
}

#[test]
fn check_observed_orders_cancellation_before_deadline() {
    assert_eq!(QueryContext::check_observed(true, true).unwrap_err().code(), QueryErrorCode::Cancelled);
    assert_eq!(
        QueryContext::check_observed(false, true).unwrap_err().code(),
        QueryErrorCode::DeadlineExceeded
    );
    assert!(QueryContext::check_observed(false, false).is_ok());
}

#[test]
fn context_observes_the_token_it_was_given() {
    let token = CancellationToken::new();
    let context = QueryContext::new()
        .with_cancellation(token.clone())
        .with_limits(QueryLimits::unlimited().with_max_rows(3));
    assert!(context.check().is_ok());
    token.cancel();
    assert!(context.cancellation().is_cancelled());
    assert!(matches!(context.check(), Err(QueryError::Cancelled)));
    assert_eq!(context.limits().max_rows(), Some(3));
}

#[test]
fn public_deadline_and_limits_have_stable_categories() {
    let expired =
        QueryContext::new().with_limits(QueryLimits::unlimited().with_deadline(Instant::now()));
    assert_eq!(
        expired.check().expect_err("expired").code(),
        QueryErrorCode::DeadlineExceeded
    );

    let unlimited_timeout = QueryLimits::unlimited().with_timeout(Duration::MAX);
    assert_eq!(unlimited_timeout.deadline(), None);
    QueryContext::new()
        .with_limits(unlimited_timeout)
        .check()
        .expect("overflowing timeout remains effectively unlimited");

    let limited = QueryContext::new().with_limits(
        QueryLimits::unlimited()
            .with_max_signals(1)
            .with_max_rows(2)
            .with_max_result_bytes(3)
            .with_max_commands(4),
    );
    for (error, kind, limit, actual) in [
        (
            limited.check_signal_count(2).expect_err("signals"),
            QueryLimitKind::Signals,
            1,
            2,
        ),
        (
            limited.check_rows(3).expect_err("rows"),
            QueryLimitKind::Rows,
            2,
            3,
        ),
        (
            limited.check_result_bytes(4).expect_err("bytes"),
            QueryLimitKind::ResultBytes,
            3,
            4,
        ),
        (
            limited.check_commands(5).expect_err("commands"),
            QueryLimitKind::Commands,
            4,
            5,
        ),
    ] {
        assert_eq!(error.code(), QueryErrorCode::LimitExceeded);
        assert_eq!(error.limit_kind(), Some(kind));
        assert_eq!(error.limit(), Some(limit));
        assert_eq!(error.actual(), Some(actual));
    }
}
