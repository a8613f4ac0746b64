//! Transport-neutral cancellation, deadlines, limits and query errors.

use std::sync::atomic::AtomicBool;
use std::sync::atomic::Ordering;
use std::sync::Arc;
use std::time::Duration;
use std::time::Instant;

use vstd::prelude::*;

pub mod compare;
pub mod stream;

use crate::text::{decimal_chars, u64_decimal};
use crate::{concat, is_generation_mismatch, vcd_error_text, IoFailure, VcdError};

verus! {

#[verifier::external_type_specification]
#[verifier::external_body]
pub struct ExInstant(Instant);

/// Calls `Instant::now`; which instant comes back depends on the clock.
#[verifier::external_body]
fn now() -> Instant {
    Instant::now()
}

/// Calls `Instant::ge` (`>=`): whether `a` is not earlier than `b`. The
/// order of opaque instants is not described.
#[verifier::external_body]
fn not_earlier(a: &Instant, b: &Instant) -> bool {
    *a >= *b
}

/// Calls `Instant::checked_add`: `None` when the sum is not representable.
#[verifier::external_body]
fn checked_add(at: Instant, duration: Duration) -> Option<Instant> {
    at.checked_add(duration)
}

/// Whether the current time has reached `deadline`.
fn reached(deadline: &Instant) -> bool {
    let current = now();
    not_earlier(&current, deadline)
}

/// The current time plus `timeout`, when representable.
pub(crate) fn now_plus(timeout: Duration) -> Option<Instant> {
    checked_add(now(), timeout)
}

/// Calls `Duration::from_millis`.
#[verifier::external_body]
pub(crate) fn millis(ms: u64) -> Duration {
    Duration::from_millis(ms)
}

/// Cheap-clone cooperative cancellation shared by transports and query work.
#[derive(Debug, Clone)]
pub struct CancellationToken {
    cancelled: Arc<AtomicBool>,
}

impl CancellationToken {
    pub fn new() -> Self {
        CancellationToken { cancelled: Arc::new(AtomicBool::new(false)) }
    }

    /// Request cancellation; every clone of this token observes it.
    pub fn cancel(&self) {
        self.cancelled.store(true, Ordering::Release);
    }

    /// Whether cancellation was requested (a shared flag that other threads
    /// may set at any time, so nothing is promised of the value).
    pub fn is_cancelled(&self) -> bool {
        self.cancelled.load(Ordering::Acquire)
    }
}

/// Resource whose configured query limit was exceeded.
#[derive(Debug, Clone, Copy, PartialEq, Eq, Hash, Structural)]
#[non_exhaustive]
pub enum QueryLimitKind {
    Signals,
    Rows,
    ResultBytes,
    Commands,
}

pub open spec fn limit_kind_text(kind: QueryLimitKind) -> Seq<char> {
    match kind {
        QueryLimitKind::Signals => "signals"@,
        QueryLimitKind::Rows => "rows"@,
        QueryLimitKind::ResultBytes => "result_bytes"@,
        QueryLimitKind::Commands => "commands"@,
    }
}

impl QueryLimitKind {
    pub fn code(self) -> (s: &'static str)
        ensures
            s@ == limit_kind_text(self),
    {
        proof {
            reveal_strlit("signals");
            reveal_strlit("rows");
            reveal_strlit("result_bytes");
            reveal_strlit("commands");
        }
        match self {
            QueryLimitKind::Signals => "signals",
            QueryLimitKind::Rows => "rows",
            QueryLimitKind::ResultBytes => "result_bytes",
            QueryLimitKind::Commands => "commands",
        }
    }
}

/// Stable category for mapping query failures into transports.
#[derive(Debug, Clone, Copy, PartialEq, Eq, Hash, Structural)]
#[non_exhaustive]
pub enum QueryErrorCode {
    Cancelled,
    DeadlineExceeded,
    LimitExceeded,
    StaleSource,
    QueueFull,
    SourceUnavailable,
    Vcd,
    Internal,
}

pub open spec fn error_code_text(code: QueryErrorCode) -> Seq<char> {
    match code {
        QueryErrorCode::Cancelled => "CANCELLED"@,
        QueryErrorCode::DeadlineExceeded => "DEADLINE_EXCEEDED"@,
        QueryErrorCode::LimitExceeded => "LIMIT_EXCEEDED"@,
        QueryErrorCode::StaleSource => "STALE_SOURCE"@,
        QueryErrorCode::QueueFull => "QUEUE_FULL"@,
        QueryErrorCode::SourceUnavailable => "SOURCE_UNAVAILABLE"@,
        QueryErrorCode::Vcd => "VCD_ERROR"@,
        QueryErrorCode::Internal => "INTERNAL"@,
    }
}

impl QueryErrorCode {
    pub fn code(self) -> (s: &'static str)
        ensures
            s@ == error_code_text(self),
    {
        proof {
            reveal_strlit("CANCELLED");
            reveal_strlit("DEADLINE_EXCEEDED");
            reveal_strlit("LIMIT_EXCEEDED");
            reveal_strlit("STALE_SOURCE");
            reveal_strlit("QUEUE_FULL");
            reveal_strlit("SOURCE_UNAVAILABLE");
            reveal_strlit("VCD_ERROR");
            reveal_strlit("INTERNAL");
        }
        match self {
            QueryErrorCode::Cancelled => "CANCELLED",
            QueryErrorCode::DeadlineExceeded => "DEADLINE_EXCEEDED",
            QueryErrorCode::LimitExceeded => "LIMIT_EXCEEDED",
            QueryErrorCode::StaleSource => "STALE_SOURCE",
            QueryErrorCode::QueueFull => "QUEUE_FULL",
            QueryErrorCode::SourceUnavailable => "SOURCE_UNAVAILABLE",
            QueryErrorCode::Vcd => "VCD_ERROR",
            QueryErrorCode::Internal => "INTERNAL",
        }
    }
}

/// Transport-neutral query failure.
#[derive(Debug, Clone)]
#[non_exhaustive]
pub enum QueryError {
    Cancelled,
    DeadlineExceeded,
    LimitExceeded { kind: QueryLimitKind, limit: u64, actual: u64 },
    StaleSource(VcdError),
    QueueFull,
    SourceUnavailable(IoFailure),
    Vcd(VcdError),
    Internal(String),
}

/// The underlying error a [`QueryError`] wraps, if any.
#[derive(Debug)]
pub enum QueryErrorSource<'a> {
    Vcd(&'a VcdError),
    Io(&'a IoFailure),
}

pub open spec fn query_error_code(error: QueryError) -> QueryErrorCode {
    match error {
        QueryError::Cancelled => QueryErrorCode::Cancelled,
        QueryError::DeadlineExceeded => QueryErrorCode::DeadlineExceeded,
        QueryError::LimitExceeded { .. } => QueryErrorCode::LimitExceeded,
        QueryError::StaleSource(_) => QueryErrorCode::StaleSource,
        QueryError::QueueFull => QueryErrorCode::QueueFull,
        QueryError::SourceUnavailable(_) => QueryErrorCode::SourceUnavailable,
        QueryError::Vcd(_) => QueryErrorCode::Vcd,
        QueryError::Internal(_) => QueryErrorCode::Internal,
    }
}

/// Display text of a [`QueryError`].
pub open spec fn query_error_text(error: QueryError) -> Seq<char> {
    match error {
        QueryError::Cancelled => "query cancelled"@,
        QueryError::DeadlineExceeded => "query deadline exceeded"@,
        QueryError::LimitExceeded { kind, limit, actual } => "query "@ + limit_kind_text(kind)
            + " limit exceeded: limit "@ + decimal_chars(limit as nat) + ", actual "@
            + decimal_chars(actual as nat),
        QueryError::StaleSource(error) => vcd_error_text(error),
        QueryError::QueueFull => "query queue is full"@,
        QueryError::SourceUnavailable(failure) => "source unavailable: "@ + failure.message@,
        QueryError::Vcd(error) => vcd_error_text(error),
        QueryError::Internal(message) => "internal query error: "@ + message@,
    }
}

/// How a [`VcdError`] is classified as a query failure: the generation
/// mismatch marker is a stale source, other I/O is an unavailable source.
pub open spec fn classify_vcd_error(error: VcdError) -> QueryError {
    match error {
        VcdError::Io(failure) => if failure.generation_mismatch {
            QueryError::StaleSource(VcdError::Io(failure))
        } else {
            QueryError::SourceUnavailable(failure)
        },
        other => QueryError::Vcd(other),
    }
}

impl QueryError {
    pub fn code(&self) -> (c: QueryErrorCode)
        ensures
            c == query_error_code(*self),
    {
        match self {
            QueryError::Cancelled => QueryErrorCode::Cancelled,
            QueryError::DeadlineExceeded => QueryErrorCode::DeadlineExceeded,
            QueryError::LimitExceeded { .. } => QueryErrorCode::LimitExceeded,
            QueryError::StaleSource(_) => QueryErrorCode::StaleSource,
            QueryError::QueueFull => QueryErrorCode::QueueFull,
            QueryError::SourceUnavailable(_) => QueryErrorCode::SourceUnavailable,
            QueryError::Vcd(_) => QueryErrorCode::Vcd,
            QueryError::Internal(_) => QueryErrorCode::Internal,
        }
    }

    pub fn limit_kind(&self) -> (k: Option<QueryLimitKind>)
        ensures
            k == (match *self {
                QueryError::LimitExceeded { kind, .. } => Some(kind),
                _ => None,
            }),
    {
        match self {
            QueryError::LimitExceeded { kind, .. } => Some(*kind),
            _ => None,
        }
    }

    pub fn limit(&self) -> (l: Option<u64>)
        ensures
            l == (match *self {
                QueryError::LimitExceeded { limit, .. } => Some(limit),
                _ => None,
            }),
    {
        match self {
            QueryError::LimitExceeded { limit, .. } => Some(*limit),
            _ => None,
        }
    }

    pub fn actual(&self) -> (a: Option<u64>)
        ensures
            a == (match *self {
                QueryError::LimitExceeded { actual, .. } => Some(actual),
                _ => None,
            }),
    {
        match self {
            QueryError::LimitExceeded { actual, .. } => Some(*actual),
            _ => None,
        }
    }

    pub fn internal(message: &str) -> (e: Self)
        ensures
            e matches QueryError::Internal(m) && m@ == message@,
    {
        QueryError::Internal(String::from_str(message))
    }

    pub fn source_unavailable(error: IoFailure) -> (e: Self)
        ensures
            e == QueryError::SourceUnavailable(error),
    {
        QueryError::SourceUnavailable(error)
    }

    /// The wrapped lower-level error, as `std::error::Error::source` would
    /// report it.
    pub fn source(&self) -> (s: Option<QueryErrorSource<'_>>)
        ensures
            s is Some <==> (*self is StaleSource || *self is Vcd || *self is SourceUnavailable),
    {
        match self {
            QueryError::StaleSource(error) => Some(QueryErrorSource::Vcd(error)),
            QueryError::Vcd(error) => Some(QueryErrorSource::Vcd(error)),
            QueryError::SourceUnavailable(error) => Some(QueryErrorSource::Io(error)),
            _ => None,
        }
    }

    /// Classify a VCD-layer error (the `From<VcdError>` conversion).
    pub fn from_vcd(error: VcdError) -> (e: Self)
        ensures
            e == classify_vcd_error(error),
    {
        match error {
            VcdError::Io(failure) => {
                if is_generation_mismatch(&failure) {
                    QueryError::StaleSource(VcdError::Io(failure))
                } else {
                    QueryError::SourceUnavailable(failure)
                }
            },
            other => QueryError::Vcd(other),
        }
    }

    /// The human-readable message of this error.
    pub fn message(&self) -> (s: String)
        ensures
            s@ == query_error_text(*self),
    {
        proof {
            reveal_strlit("query cancelled");
            reveal_strlit("query deadline exceeded");
            reveal_strlit("query ");
            reveal_strlit(" limit exceeded: limit ");
            reveal_strlit(", actual ");
            reveal_strlit("query queue is full");
            reveal_strlit("source unavailable: ");
            reveal_strlit("internal query error: ");
        }
        match self {
            QueryError::Cancelled => String::from_str("query cancelled"),
            QueryError::DeadlineExceeded => String::from_str("query deadline exceeded"),
            QueryError::LimitExceeded { kind, limit, actual } => {
                let mut s = concat("query ", kind.code());
                s.append(" limit exceeded: limit ");
                let l = u64_decimal(*limit);
                s.append(l.as_str());
                s.append(", actual ");
                let a = u64_decimal(*actual);
                s.append(a.as_str());
                s
            },
            QueryError::StaleSource(error) => error.message(),
            QueryError::QueueFull => String::from_str("query queue is full"),
            QueryError::SourceUnavailable(failure) => concat(
                "source unavailable: ",
                failure.message.as_str(),
            ),
            QueryError::Vcd(error) => error.message(),
            QueryError::Internal(message) => concat("internal query error: ", message.as_str()),
        }
    }
}

/// Convert a query failure back to the VCD-layer error that legacy
/// path-based wrappers return: wrapped VCD errors are unwrapped, an
/// unavailable source becomes an I/O error, and policy failures become parse
/// errors carrying their message.
pub fn into_vcd_error(error: QueryError) -> (e: VcdError)
    ensures
        match error {
            QueryError::StaleSource(inner) => e == inner,
            QueryError::Vcd(inner) => e == inner,
            QueryError::SourceUnavailable(failure) => e == VcdError::Io(failure),
            other => e matches VcdError::Parse(m) && m@ == query_error_text(other),
        },
{
    match error {
        QueryError::StaleSource(inner) => inner,
        QueryError::Vcd(inner) => inner,
        QueryError::SourceUnavailable(failure) => VcdError::Io(failure),
        other => VcdError::Parse(other.message()),
    }
}

pub type QueryResult<T> = Result<T, QueryError>;

/// Optional finite budgets applied by reusable query APIs.
#[derive(Debug, Clone)]
#[non_exhaustive]
pub struct QueryLimits {
    max_signals: Option<usize>,
    max_rows: Option<u64>,
    max_result_bytes: Option<u64>,
    max_commands: Option<u64>,
    deadline: Option<Instant>,
}

impl QueryLimits {
    pub closed spec fn spec_max_signals(&self) -> Option<usize> {
        self.max_signals
    }

    pub closed spec fn spec_max_rows(&self) -> Option<u64> {
        self.max_rows
    }

    pub closed spec fn spec_max_result_bytes(&self) -> Option<u64> {
        self.max_result_bytes
    }

    pub closed spec fn spec_max_commands(&self) -> Option<u64> {
        self.max_commands
    }

    pub closed spec fn spec_deadline(&self) -> Option<Instant> {
        self.deadline
    }

    pub open spec fn spec_has_deadline(&self) -> bool {
        self.spec_deadline() is Some
    }

    /// `other` has the same budgets as `self` except possibly `field`
    /// (0 signals, 1 rows, 2 result bytes, 3 commands, 4 deadline).
    pub open spec fn same_except(&self, other: &QueryLimits, field: int) -> bool {
        &&& (field != 0 ==> other.spec_max_signals() == self.spec_max_signals())
        &&& (field != 1 ==> other.spec_max_rows() == self.spec_max_rows())
        &&& (field != 2 ==> other.spec_max_result_bytes() == self.spec_max_result_bytes())
        &&& (field != 3 ==> other.spec_max_commands() == self.spec_max_commands())
        &&& (field != 4 ==> other.spec_deadline() == self.spec_deadline())
    }

    pub fn unlimited() -> (l: Self)
        ensures
            l.spec_max_signals() is None,
            l.spec_max_rows() is None,
            l.spec_max_result_bytes() is None,
            l.spec_max_commands() is None,
            !l.spec_has_deadline(),
    {
        QueryLimits {
            max_signals: None,
            max_rows: None,
            max_result_bytes: None,
            max_commands: None,
            deadline: None,
        }
    }

    pub fn max_signals(&self) -> (l: Option<usize>)
        ensures
            l == self.spec_max_signals(),
    {
        self.max_signals
    }

    pub fn max_rows(&self) -> (l: Option<u64>)
        ensures
            l == self.spec_max_rows(),
    {
        self.max_rows
    }

    pub fn max_result_bytes(&self) -> (l: Option<u64>)
        ensures
            l == self.spec_max_result_bytes(),
    {
        self.max_result_bytes
    }

    pub fn max_commands(&self) -> (l: Option<u64>)
        ensures
            l == self.spec_max_commands(),
    {
        self.max_commands
    }

    pub fn deadline(&self) -> (d: Option<Instant>)
        ensures
            d == self.spec_deadline(),
    {
        self.deadline
    }

    pub fn with_max_signals(self, limit: usize) -> (l: Self)
        ensures
            l.spec_max_signals() == Some(limit),
            self.same_except(&l, 0),
    {
        QueryLimits { max_signals: Some(limit), ..self }
    }

    pub fn with_max_rows(self, limit: u64) -> (l: Self)
        ensures
            l.spec_max_rows() == Some(limit),
            self.same_except(&l, 1),
    {
        QueryLimits { max_rows: Some(limit), ..self }
    }

    pub fn with_max_result_bytes(self, limit: u64) -> (l: Self)
        ensures
            l.spec_max_result_bytes() == Some(limit),
            self.same_except(&l, 2),
    {
        QueryLimits { max_result_bytes: Some(limit), ..self }
    }

    pub fn with_max_commands(self, limit: u64) -> (l: Self)
        ensures
            l.spec_max_commands() == Some(limit),
            self.same_except(&l, 3),
    {
        QueryLimits { max_commands: Some(limit), ..self }
    }

    pub fn with_deadline(self, deadline: Instant) -> (l: Self)
        ensures
            l.spec_deadline() == Some(deadline),
            self.same_except(&l, 4),
    {
        QueryLimits { deadline: Some(deadline), ..self }
    }

    /// Set a relative deadline when it is representable by [`Instant`]; an
    /// overflowing duration leaves the deadline absent (effectively unlimited).
    pub fn with_timeout(self, timeout: Duration) -> (l: Self)
        ensures
            self.same_except(&l, 4),
    {
        let deadline = now_plus(timeout);
        QueryLimits { deadline, ..self }
    }
}

/// Cancellation and resource policy shared by library, CLI and server queries.
#[derive(Debug, Clone)]
#[non_exhaustive]
pub struct QueryContext {
    cancellation: CancellationToken,
    limits: QueryLimits,
}

/// The outcome of a context check, given whether cancellation was observed
/// and whether a deadline was observed as reached: cancellation first.
pub open spec fn check_outcome(cancelled: bool, expired: bool) -> QueryResult<()> {
    if cancelled {
        Err(QueryError::Cancelled)
    } else if expired {
        Err(QueryError::DeadlineExceeded)
    } else {
        Ok(())
    }
}

/// The outcome of a limit check after the context check passed: exceeding a
/// present limit reports the kind, the limit and the actual value.
pub open spec fn limit_outcome(kind: QueryLimitKind, limit: Option<u64>, actual: u64) -> QueryResult<
    (),
> {
    match limit {
        Some(l) => if actual > l {
            Err(QueryError::LimitExceeded { kind, limit: l, actual })
        } else {
            Ok(())
        },
        None => Ok(()),
    }
}

impl QueryContext {
    pub closed spec fn spec_limits(&self) -> QueryLimits {
        self.limits
    }

    /// The token whose cancellation this context observes.
    pub closed spec fn spec_cancellation(&self) -> CancellationToken {
        self.cancellation
    }

    pub fn new() -> (c: Self)
        ensures
            c.spec_limits() == QueryLimits::unlimited_spec(),
            c.spec_limits().spec_max_signals() is None,
            c.spec_limits().spec_max_rows() is None,
            c.spec_limits().spec_max_result_bytes() is None,
            c.spec_limits().spec_max_commands() is None,
            !c.spec_limits().spec_has_deadline(),
    {
        QueryContext { cancellation: CancellationToken::new(), limits: QueryLimits::unlimited() }
    }

    /// Unlimited, uncancelled policy used by compatibility wrappers.
    pub fn legacy_unlimited() -> (c: Self)
        ensures
            c.spec_limits() == QueryLimits::unlimited_spec(),
            c.spec_limits().spec_max_signals() is None,
            c.spec_limits().spec_max_rows() is None,
            c.spec_limits().spec_max_result_bytes() is None,
            c.spec_limits().spec_max_commands() is None,
            !c.spec_limits().spec_has_deadline(),
    {
        QueryContext::new()
    }

    pub fn cancellation(&self) -> (t: &CancellationToken)
        ensures
            *t == self.spec_cancellation(),
    {
        &self.cancellation
    }

    pub fn limits(&self) -> (l: &QueryLimits)
        ensures
            *l == self.spec_limits(),
    {
        &self.limits
    }

    pub fn with_cancellation(self, cancellation: CancellationToken) -> (c: Self)
        ensures
            c.spec_limits() == self.spec_limits(),
            c.spec_cancellation() == cancellation,
    {
        QueryContext { cancellation, ..self }
    }

    pub fn with_limits(self, limits: QueryLimits) -> (c: Self)
        ensures
            c.spec_limits() == limits,
            c.spec_cancellation() == self.spec_cancellation(),
    {
        QueryContext { limits, ..self }
    }

    /// Decide a context check from what was observed.
    pub fn check_observed(cancelled: bool, expired: bool) -> (r: QueryResult<()>)
        ensures
            r == check_outcome(cancelled, expired),
    {
        if cancelled {
            Err(QueryError::Cancelled)
        } else if expired {
            Err(QueryError::DeadlineExceeded)
        } else {
            Ok(())
        }
    }

    /// Cancellation takes precedence over the deadline; without a deadline the
    /// only possible failure is cancellation.
    pub fn check(&self) -> (r: QueryResult<()>)
        ensures
            r is Ok || r == Err::<(), QueryError>(QueryError::Cancelled) || (r == Err::<
                (),
                QueryError,
            >(QueryError::DeadlineExceeded) && self.spec_limits().spec_has_deadline()),
    {
        let cancelled = self.cancellation.is_cancelled();
        let expired = match &self.limits.deadline {
            Some(deadline) => reached(deadline),
            None => false,
        };
        QueryContext::check_observed(cancelled, expired)
    }

    /// The limit decision after a passing context check.
    pub fn check_limit_observed(kind: QueryLimitKind, limit: Option<u64>, actual: u64) -> (r:
        QueryResult<()>)
        ensures
            r == limit_outcome(kind, limit, actual),
    {
        match limit {
            Some(l) => {
                if actual > l {
                    Err(QueryError::LimitExceeded { kind, limit: l, actual })
                } else {
                    Ok(())
                }
            },
            None => Ok(()),
        }
    }

    fn check_u64_limit(&self, kind: QueryLimitKind, limit: Option<u64>, actual: u64) -> (r:
        QueryResult<()>)
        ensures
            self.check_passed(r) ==> r == limit_outcome(kind, limit, actual),
            !self.check_passed(r) ==> !(r is Ok),
    {
        self.check()?;
        QueryContext::check_limit_observed(kind, limit, actual)
    }

    /// A result that is not a failure of the context check, which always
    /// runs first: not a cancellation, and not a deadline failure of a
    /// context with a deadline.
    pub open spec fn check_passed(&self, r: QueryResult<()>) -> bool {
        !(r == Err::<(), QueryError>(QueryError::Cancelled)) && !(r == Err::<(), QueryError>(
            QueryError::DeadlineExceeded,
        ) && self.spec_limits().spec_has_deadline())
    }

    /// Fails when more than `max_signals` signals are requested.
    pub fn check_signal_count(&self, actual: usize) -> (r: QueryResult<()>)
        ensures
            self.check_passed(r) ==> r == limit_outcome(
                QueryLimitKind::Signals,
                match self.spec_limits().spec_max_signals() {
                    Some(l) => Some(l as u64),
                    None => None,
                },
                actual as u64,
            ),
    {
        self.check()?;
        let limit = match self.limits.max_signals {
            Some(l) => Some(l as u64),
            None => None,
        };
        QueryContext::check_limit_observed(QueryLimitKind::Signals, limit, actual as u64)
    }

    pub fn check_rows(&self, actual: u64) -> (r: QueryResult<()>)
        ensures
            self.check_passed(r) ==> r == limit_outcome(
                QueryLimitKind::Rows,
                self.spec_limits().spec_max_rows(),
                actual,
            ),
    {
        self.check_u64_limit(QueryLimitKind::Rows, self.limits.max_rows, actual)
    }

    pub fn check_result_bytes(&self, actual: u64) -> (r: QueryResult<()>)
        ensures
            self.check_passed(r) ==> r == limit_outcome(
                QueryLimitKind::ResultBytes,
                self.spec_limits().spec_max_result_bytes(),
                actual,
            ),
    {
        self.check_u64_limit(QueryLimitKind::ResultBytes, self.limits.max_result_bytes, actual)
    }

    pub fn check_commands(&self, actual: u64) -> (r: QueryResult<()>)
        ensures
            self.check_passed(r) ==> r == limit_outcome(
                QueryLimitKind::Commands,
                self.spec_limits().spec_max_commands(),
                actual,
            ),
    {
        self.check_u64_limit(QueryLimitKind::Commands, self.limits.max_commands, actual)
    }
}

impl QueryLimits {
    pub closed spec fn unlimited_spec() -> QueryLimits {
        QueryLimits {
            max_signals: None,
            max_rows: None,
            max_result_bytes: None,
            max_commands: None,
            deadline: None,
        }
    }
}

} // verus!
