//! Query budgets of the protocol service: configured maxima, what a request
//! may ask for, and the response byte budget.

use vstd::prelude::*;

use crate::query::QueryLimits;
use crate::server::protocol::{
    bad, error_is, wire_value_is, DescribeResult, DetailValue, DistributionCapabilities, ErrorDetails,
    ErrorSpec, FindResult, MetadataResult, ProtocolError, ProtocolErrorCode, SecurityCapabilities,
    ServerLimits, TimeValueRow, ToggleRow, TogglesResult, WireTimescale, WireValue, CHUNK_BYTES,
    CHUNK_ROWS, MAX_REQUEST_ID_BYTES, TERMINAL_FRAME_RESERVE_BYTES,
};
use crate::server::runtime::{lifecycle_error, lifecycle_error_spec, RuntimeConfig};
use crate::text::{decimal_chars, u64_decimal};
use crate::text::usize_decimal;
use crate::{concat, time_unit_text, IoErrorKind, IoFailure, TimeValue, Timescale, VcdMeta};
use crate::query::compare::names_of;

verus! {

pub const HARD_MAX_SIGNALS: usize = 65_536;

pub const HARD_MAX_ROWS: u64 = 16_000_000;

pub const HARD_MAX_RESPONSE_BYTES: u64 = 1_073_741_824;

pub const HARD_MAX_COMMANDS: u64 = 4_000_000_000;

/// Configured maxima of the service's queries.
#[derive(Debug, Clone, Copy, PartialEq, Eq, Structural)]
pub struct ServiceConfig {
    pub max_signals: usize,
    pub max_rows: u64,
    pub max_response_bytes: u64,
    pub max_commands: u64,
}

pub open spec fn service_bounds_valid(c: ServiceConfig) -> bool {
    &&& 0 < c.max_signals <= HARD_MAX_SIGNALS
    &&& 0 < c.max_rows <= HARD_MAX_ROWS
    &&& TERMINAL_FRAME_RESERVE_BYTES <= c.max_response_bytes <= HARD_MAX_RESPONSE_BYTES
    &&& 0 < c.max_commands <= HARD_MAX_COMMANDS
}

impl Default for ServiceConfig {
    fn default() -> (c: Self)
        ensures
            c.max_signals == 4_096,
            c.max_rows == 1_000_000,
            c.max_response_bytes == 268_435_456,
            c.max_commands == 1_000_000_000,
    {
        ServiceConfig {
            max_signals: 4_096,
            max_rows: 1_000_000,
            max_response_bytes: 268_435_456,
            max_commands: 1_000_000_000,
        }
    }
}

impl ServiceConfig {
    /// Every maximum must be positive and within its hard bound, and the
    /// response bound must leave room for a terminal frame.
    pub fn validate(&self) -> (r: Result<(), IoFailure>)
        ensures
            r is Ok <==> service_bounds_valid(*self),
            r matches Err(f) ==> f.kind == IoErrorKind::InvalidInput && f.message@
                == "server query limits are outside supported bounds"@ && !f.generation_mismatch,
    {
        if self.max_signals == 0 || self.max_signals > HARD_MAX_SIGNALS || self.max_rows == 0
            || self.max_rows > HARD_MAX_ROWS || self.max_response_bytes
            < TERMINAL_FRAME_RESERVE_BYTES || self.max_response_bytes > HARD_MAX_RESPONSE_BYTES
            || self.max_commands == 0 || self.max_commands > HARD_MAX_COMMANDS {
            return Err(
                IoFailure::new(
                    IoErrorKind::InvalidInput,
                    String::from_str("server query limits are outside supported bounds"),
                ),
            );
        }
        Ok(())
    }
}

/// The error for a query that would exceed a service budget.
pub open spec fn service_limit_spec(kind: Seq<char>, limit: u64, actual: u64) -> ErrorSpec {
    (
        ProtocolErrorCode::LimitExceeded,
        "query limit exceeded"@,
        seq![
            ("kind"@, Ok(kind)),
            ("limit"@, Ok(decimal_chars(limit as nat))),
            ("actual"@, Ok(decimal_chars(actual as nat))),
        ],
        false,
    )
}

pub fn limit_error(kind: &str, limit: u64, actual: u64) -> (e: ProtocolError)
    ensures
        error_is(e, service_limit_spec(kind@, limit, actual)),
{
    let mut fields: Vec<(String, DetailValue)> = Vec::new();
    fields.push((String::from_str("kind"), DetailValue::Text(String::from_str(kind))));
    fields.push((String::from_str("limit"), DetailValue::Text(u64_decimal(limit))));
    fields.push((String::from_str("actual"), DetailValue::Text(u64_decimal(actual))));
    let details = ErrorDetails { fields };
    assert(crate::server::protocol::details_view(details) =~= service_limit_spec(kind@, limit, actual).2);
    ProtocolError::new(
        ProtocolErrorCode::LimitExceeded,
        String::from_str("query limit exceeded"),
        details,
        false,
    )
}

/// The budget after sending `next` more bytes on top of `current`, with the
/// terminal reserve, saturating.
pub open spec fn budget_need(current: u64, next: u64) -> u64 {
    let a = if current + next > u64::MAX { u64::MAX as int } else { current + next };
    if a + TERMINAL_FRAME_RESERVE_BYTES > u64::MAX {
        u64::MAX
    } else {
        (a + TERMINAL_FRAME_RESERVE_BYTES) as u64
    }
}

/// Refuse output that would leave no room for the terminal frame.
pub fn ensure_response_budget(current: u64, next: u64, limit: u64) -> (r: Result<(), ProtocolError>)
    ensures
        r is Ok <==> budget_need(current, next) <= limit,
        r matches Err(e) ==> error_is(
            e,
            service_limit_spec("response_bytes"@, limit, budget_need(current, next)),
        ),
{
    let actual = current.saturating_add(next).saturating_add(TERMINAL_FRAME_RESERVE_BYTES);
    if actual > limit {
        Err(limit_error("response_bytes", limit, actual))
    } else {
        Ok(())
    }
}

/// The requested value, or the configured one; a request may only lower it.
pub fn lower_limit(kind: &str, requested: Option<u64>, configured: u64) -> (r: Result<u64, ProtocolError>)
    ensures
        match requested {
            Some(v) => if v > configured {
                r matches Err(e) && error_is(e, bad(kind@ + " may only lower the configured maximum"@))
            } else {
                r == Ok::<u64, ProtocolError>(v)
            },
            None => r == Ok::<u64, ProtocolError>(configured),
        },
{
    let value = match requested {
        Some(v) => v,
        None => configured,
    };
    if value > configured {
        Err(ProtocolError::bad_request(concat(kind, " may only lower the configured maximum").as_str()))
    } else {
        Ok(value)
    }
}

/// The query budgets for a request: commands, rows and response bytes may
/// only lower the configured maxima (checked in that order), and the response
/// bound must leave room for the terminal frame. Also returns that bound.
pub fn request_limits(
    config: &ServiceConfig,
    requested_commands: Option<u64>,
    requested_rows: Option<u64>,
    requested_response: Option<u64>,
) -> (r: Result<(QueryLimits, u64), ProtocolError>)
    ensures
        match r {
            Ok((limits, response)) => {
                &&& limits.spec_max_signals() == Some(config.max_signals)
                &&& limits.spec_max_rows() == Some(
                    match requested_rows {
                        Some(v) => v,
                        None => config.max_rows,
                    },
                )
                &&& limits.spec_max_result_bytes() == Some(response)
                &&& limits.spec_max_commands() == Some(
                    match requested_commands {
                        Some(v) => v,
                        None => config.max_commands,
                    },
                )
                &&& !limits.spec_has_deadline()
                &&& response == match requested_response {
                    Some(v) => v,
                    None => config.max_response_bytes,
                }
                &&& response >= TERMINAL_FRAME_RESERVE_BYTES
                &&& response <= config.max_response_bytes
                &&& (requested_commands matches Some(v) ==> v <= config.max_commands)
                &&& (requested_rows matches Some(v) ==> v <= config.max_rows)
            },
            Err(e) => {
                ||| (requested_commands matches Some(v) && v > config.max_commands) && error_is(
                    e,
                    bad("commands"@ + " may only lower the configured maximum"@),
                )
                ||| (requested_rows matches Some(v) && v > config.max_rows) && error_is(
                    e,
                    bad("rows"@ + " may only lower the configured maximum"@),
                )
                ||| (requested_response matches Some(v) && v > config.max_response_bytes)
                    && error_is(e, bad("response_bytes"@ + " may only lower the configured maximum"@))
                ||| error_is(e, bad("max_response_bytes must reserve at least 4096 terminal bytes"@))
            },
        },
        r is Err <==> ((requested_commands matches Some(v) && v > config.max_commands) || (
        requested_rows matches Some(v) && v > config.max_rows) || (requested_response matches Some(
            v,
        ) && v > config.max_response_bytes) || (match requested_response {
            Some(v) => v,
            None => config.max_response_bytes,
        }) < TERMINAL_FRAME_RESERVE_BYTES),
{
    let commands = lower_limit("commands", requested_commands, config.max_commands)?;
    let rows = lower_limit("rows", requested_rows, config.max_rows)?;
    let response = lower_limit("response_bytes", requested_response, config.max_response_bytes)?;
    if response < TERMINAL_FRAME_RESERVE_BYTES {
        return Err(
            ProtocolError::bad_request(
                "max_response_bytes must reserve at least 4096 terminal bytes",
            ),
        );
    }
    let limits = QueryLimits::unlimited().with_max_signals(config.max_signals).with_max_rows(
        rows,
    ).with_max_result_bytes(response).with_max_commands(commands);
    Ok((limits, response))
}

/// The wire form of an optional timescale.
pub open spec fn wire_timescale_is(ts: Option<Timescale>, w: Option<WireTimescale>) -> bool {
    match (ts, w) {
        (None, None) => true,
        (Some(t), Some(x)) => x.magnitude@ == decimal_chars(t.magnitude as nat) && x.unit@ == time_unit_text(t.unit),
        _ => false,
    }
}

fn wire_timescale(ts: Option<Timescale>) -> (w: Option<WireTimescale>)
    ensures
        wire_timescale_is(ts, w),
{
    match ts {
        Some(t) => Some(WireTimescale::from_timescale(&t)),
        None => None,
    }
}

/// The `metadata` result: counts and times in decimal.
pub fn metadata_result(meta: &VcdMeta) -> (r: MetadataResult)
    ensures
        r.signal_count@ == decimal_chars(meta.signal_count as nat),
        wire_timescale_is(meta.timescale, r.timescale),
        r.start_time@ == decimal_chars(meta.start_time as nat),
        r.end_time@ == decimal_chars(meta.end_time as nat),
{
    MetadataResult {
        signal_count: usize_decimal(meta.signal_count),
        timescale: wire_timescale(meta.timescale),
        start_time: u64_decimal(meta.start_time),
        end_time: u64_decimal(meta.end_time),
    }
}

/// One streamed `extract` row: signal, time and width in decimal, value in
/// its wire form.
pub fn time_value_row(event: &TimeValue, width: u32) -> (row: TimeValueRow)
    ensures
        row.signal@ == event.signal@,
        row.time@ == decimal_chars(event.time as nat),
        row.width@ == decimal_chars(width as nat),
        wire_value_is(event.value, row.value),
{
    TimeValueRow {
        signal: event.signal.clone(),
        time: u64_decimal(event.time),
        width: u64_decimal(width as u64),
        value: WireValue::from_value(&event.value),
    }
}

/// The `find` result: whether an occurrence was found, and its time and
/// value when it was.
pub fn find_result(signal: String, event: Option<&TimeValue>, width: u32) -> (r: FindResult)
    ensures
        r.found == event is Some,
        r.signal@ == signal@,
        r.width@ == decimal_chars(width as nat),
        match event {
            Some(e) => (r.time matches Some(t) && t@ == decimal_chars(e.time as nat)) && (r.value matches Some(v) && wire_value_is(e.value, v)),
            None => r.time is None && r.value is None,
        },
{
    match event {
        Some(e) => FindResult {
            found: true,
            signal,
            time: Some(u64_decimal(e.time)),
            width: u64_decimal(width as u64),
            value: Some(WireValue::from_value(&e.value)),
        },
        None => FindResult { found: false, signal, time: None, width: u64_decimal(width as u64), value: None },
    }
}

/// The count tallied for `name`, or 0.
pub open spec fn count_for(counts: Seq<(String, usize)>, name: Seq<char>) -> usize
    decreases counts.len(),
{
    if counts.len() == 0 {
        0
    } else if counts[0].0@ == name {
        counts[0].1
    } else {
        count_for(counts.drop_first(), name)
    }
}

fn lookup_count(counts: &Vec<(String, usize)>, name: &str) -> (n: usize)
    ensures
        n == count_for(counts@, name@),
{
    let mut k: usize = 0;
    assert(counts@.skip(0) =~= counts@);
    while k < counts.len()
        invariant
            k <= counts.len(),
            count_for(counts@, name@) == count_for(counts@.skip(k as int), name@),
        decreases counts.len() - k,
    {
        assert(counts@.skip(k as int).drop_first() =~= counts@.skip(k + 1));
        assert(counts@.skip(k as int)[0] == counts@[k as int]);
        if crate::text::str_eq(counts[k].0.as_str(), name) {
            return counts[k].1;
        }
        k = k + 1;
    }
    0
}

/// The `toggles` result: one row per requested signal, in request order,
/// with its tallied count (0 when none was tallied).
pub fn toggles_result(signals: &Vec<String>, counts: &Vec<(String, usize)>) -> (r: TogglesResult)
    ensures
        r.rows@.len() == signals@.len(),
        forall|i: int| 0 <= i < signals@.len() ==> (#[trigger] r.rows@[i]).signal@ == signals@[i]@
            && r.rows@[i].toggles@ == decimal_chars(count_for(counts@, signals@[i]@) as nat),
{
    let mut rows: Vec<ToggleRow> = Vec::new();
    let mut k: usize = 0;
    while k < signals.len()
        invariant
            k <= signals.len(),
            rows@.len() == k,
            forall|i: int| 0 <= i < k ==> (#[trigger] rows@[i]).signal@ == signals@[i]@
                && rows@[i].toggles@ == decimal_chars(count_for(counts@, signals@[i]@) as nat),
        decreases signals.len() - k,
    {
        let n = lookup_count(counts, signals[k].as_str());
        rows.push(ToggleRow { signal: signals[k].clone(), toggles: usize_decimal(n) });
        k = k + 1;
    }
    TogglesResult { rows }
}

pub open spec fn method_names() -> Seq<Seq<char>> {
    seq!["ping"@, "describe"@, "list"@, "metadata"@, "extract"@, "find"@, "toggles"@, "cancel"@]
}

pub open spec fn schema_names() -> Seq<Seq<char>> {
    seq!["signal_name.v1"@, "time_value.v1"@]
}

fn strings_of(items: &[&str]) -> (out: Vec<String>)
    ensures
        names_of(out@) == items@.map_values(|s: &str| s@),
{
    let mut out: Vec<String> = Vec::new();
    let mut k: usize = 0;
    while k < items.len()
        invariant
            k <= items.len(),
            names_of(out@) == items@.take(k as int).map_values(|s: &str| s@),
        decreases items.len() - k,
    {
        let ghost before = names_of(out@);
        let item = items[k];
        out.push(String::from_str(item));
        assert(names_of(out@) =~= before.push(item@));
        assert(items@.take(k + 1) =~= items@.take(k as int).push(items@[k as int]));
        assert(names_of(out@) =~= items@.take(k + 1).map_values(|s: &str| s@));
        k = k + 1;
    }
    assert(items@.take(items.len() as int) =~= items@);
    out
}

/// The `describe` result of a generation served under these bounds.
pub fn describe_result(
    runtime: &RuntimeConfig,
    service: &ServiceConfig,
    generation: u64,
    signal_count: usize,
    timescale: Option<Timescale>,
    source_size: u64,
) -> (r: DescribeResult)
    ensures
        r.protocol@ == "1"@,
        r.generation@ == decimal_chars(generation as nat),
        r.signal_count@ == decimal_chars(signal_count as nat),
        wire_timescale_is(timescale, r.timescale),
        r.source_size@ == decimal_chars(source_size as nat),
        r.immutable_source,
        names_of(r.methods@) == method_names(),
        names_of(r.schemas@) == schema_names(),
        names_of(r.backends@) == seq!["stream"@],
        r.limits.connections@ == decimal_chars(runtime.max_connections as nat),
        r.limits.active_requests_per_connection@ == decimal_chars(runtime.max_active_requests_per_connection as nat),
        r.limits.workers@ == decimal_chars(runtime.workers as nat),
        r.limits.queued_jobs@ == decimal_chars(runtime.queue_depth as nat),
        r.limits.output_chunks_per_connection@ == decimal_chars(runtime.output_chunks as nat),
        r.limits.request_line_bytes@ == decimal_chars(runtime.request_line_bytes as nat),
        r.limits.request_id_bytes@ == decimal_chars(MAX_REQUEST_ID_BYTES as nat),
        r.limits.signals_per_query@ == decimal_chars(service.max_signals as nat),
        r.limits.response_rows@ == decimal_chars(service.max_rows as nat),
        r.limits.response_bytes@ == decimal_chars(service.max_response_bytes as nat),
        r.limits.commands@ == decimal_chars(service.max_commands as nat),
        r.limits.timeout_ms@ == decimal_chars(runtime.max_timeout_ms as nat),
        r.limits.chunk_rows@ == decimal_chars(CHUNK_ROWS as nat),
        r.limits.chunk_bytes@ == decimal_chars(CHUNK_BYTES as nat),
        r.limits.simultaneous_expensive_scans@ == decimal_chars(1),
        r.security.transport@ == "unix"@,
        r.security.socket_mode@ == "0600"@,
        !r.security.peer_uid_check,
        r.distribution.native_serve,
        r.distribution.python_console_serve,
{
    let methods = strings_of(&["ping", "describe", "list", "metadata", "extract", "find", "toggles", "cancel"]);
    let schemas = strings_of(&["signal_name.v1", "time_value.v1"]);
    let backends = strings_of(&["stream"]);
    proof {
        reveal_strlit("ping");
    }
    DescribeResult {
        protocol: String::from_str("1"),
        generation: u64_decimal(generation),
        signal_count: usize_decimal(signal_count),
        timescale: wire_timescale(timescale),
        source_size: u64_decimal(source_size),
        immutable_source: true,
        methods,
        schemas,
        backends,
        limits: ServerLimits {
            connections: usize_decimal(runtime.max_connections),
            active_requests_per_connection: usize_decimal(runtime.max_active_requests_per_connection),
            workers: usize_decimal(runtime.workers),
            queued_jobs: usize_decimal(runtime.queue_depth),
            output_chunks_per_connection: usize_decimal(runtime.output_chunks),
            request_line_bytes: usize_decimal(runtime.request_line_bytes),
            request_id_bytes: usize_decimal(MAX_REQUEST_ID_BYTES),
            signals_per_query: usize_decimal(service.max_signals),
            response_rows: u64_decimal(service.max_rows),
            response_bytes: u64_decimal(service.max_response_bytes),
            commands: u64_decimal(service.max_commands),
            timeout_ms: u64_decimal(runtime.max_timeout_ms),
            chunk_rows: u64_decimal(CHUNK_ROWS),
            chunk_bytes: u64_decimal(CHUNK_BYTES),
            simultaneous_expensive_scans: u64_decimal(1),
        },
        security: SecurityCapabilities {
            transport: String::from_str("unix"),
            socket_mode: String::from_str("0600"),
            peer_uid_check: false,
        },
        distribution: DistributionCapabilities { native_serve: true, python_console_serve: true },
    }
}

/// The encoded length of a frame line, refused above the frame bound (the
/// error reports one byte over the bound).
pub fn frame_bytes(line_len: u64, frame_limit: u64) -> (r: Result<u64, ProtocolError>)
    ensures
        line_len <= frame_limit ==> r == Ok::<u64, ProtocolError>(line_len),
        line_len > frame_limit ==> (r matches Err(e) && error_is(
            e,
            service_limit_spec("encoded_frame_bytes"@, frame_limit, (frame_limit + 1) as u64),
        )),
{
    if line_len > frame_limit {
        Err(limit_error("encoded_frame_bytes", frame_limit, frame_limit + 1))
    } else {
        Ok(line_len)
    }
}

/// The encoded length of a unary response line: within the frame bound, and
/// alone within the response bound.
pub fn unary_bytes(line_len: u64, frame_limit: u64, response_limit: u64) -> (r: Result<u64, ProtocolError>)
    ensures
        line_len > frame_limit ==> (r matches Err(e) && error_is(
            e,
            service_limit_spec("encoded_frame_bytes"@, frame_limit, (frame_limit + 1) as u64),
        )),
        line_len <= frame_limit && line_len > response_limit ==> (r matches Err(e) && error_is(
            e,
            service_limit_spec("response_bytes"@, response_limit, line_len),
        )),
        r is Ok <==> line_len <= frame_limit && line_len <= response_limit,
        r matches Ok(n) ==> n == line_len,
{
    let bytes = frame_bytes(line_len, frame_limit)?;
    if bytes > response_limit {
        Err(limit_error("response_bytes", response_limit, bytes))
    } else {
        Ok(bytes)
    }
}

/// What to do with a chunk of rows.
#[derive(Debug, Clone, Copy, PartialEq, Eq, Structural)]
pub enum ChunkStep {
    /// Send it as the frame with this sequence number.
    Send { seq: u32 },
    /// Its frame is over the frame bound: send its first `at` rows, then the
    /// rest, as chunks of their own.
    Split { at: usize },
}

/// The accounting of a streamed response: the next sequence number, the
/// encoded bytes and rows sent so far, and the bounds.
#[derive(Debug, Clone, Copy)]
pub struct ResponseStream {
    next_seq: u32,
    encoded: u64,
    rows: u64,
    response_limit: u64,
    frame_limit: u64,
}

impl ResponseStream {
    pub closed spec fn spec_next_seq(&self) -> u32 {
        self.next_seq
    }

    pub closed spec fn spec_encoded(&self) -> u64 {
        self.encoded
    }

    pub closed spec fn spec_rows(&self) -> u64 {
        self.rows
    }

    pub closed spec fn spec_response_limit(&self) -> u64 {
        self.response_limit
    }

    pub closed spec fn spec_frame_limit(&self) -> u64 {
        self.frame_limit
    }

    /// Start a stream whose begin frame line is `line_len` bytes: it must fit
    /// the frame bound and leave the terminal reserve in the response bound.
    pub fn begin(line_len: u64, response_limit: u64, frame_limit: u64) -> (r: Result<Self, ProtocolError>)
        ensures
            line_len > frame_limit ==> (r matches Err(e) && error_is(
                e,
                service_limit_spec("encoded_frame_bytes"@, frame_limit, (frame_limit + 1) as u64),
            )),
            line_len <= frame_limit && budget_need(0, line_len) > response_limit ==> (r matches Err(e)
                && error_is(e, service_limit_spec("response_bytes"@, response_limit, budget_need(0, line_len)))),
            r is Ok <==> line_len <= frame_limit && budget_need(0, line_len) <= response_limit,
            r matches Ok(s) ==> {
                &&& s.spec_next_seq() == 1
                &&& s.spec_encoded() == line_len
                &&& s.spec_rows() == 0
                &&& s.spec_response_limit() == response_limit
                &&& s.spec_frame_limit() == frame_limit
            },
    {
        let bytes = frame_bytes(line_len, frame_limit)?;
        ensure_response_budget(0, bytes, response_limit)?;
        Ok(ResponseStream { next_seq: 1, encoded: bytes, rows: 0, response_limit, frame_limit })
    }

    pub fn next_seq(&self) -> (n: u32)
        ensures
            n == self.spec_next_seq(),
    {
        self.next_seq
    }

    pub fn rows(&self) -> (n: u64)
        ensures
            n == self.spec_rows(),
    {
        self.rows
    }

    pub fn encoded(&self) -> (n: u64)
        ensures
            n == self.spec_encoded(),
    {
        self.encoded
    }

    /// Decide on a chunk of `rows` rows (at least one) whose frame line is
    /// `line_len` bytes: over the frame bound it is split in half, or refused
    /// when it is a single row; otherwise it must leave the terminal reserve
    /// in the response bound.
    pub fn plan_chunk(&self, line_len: u64, rows: usize) -> (r: Result<ChunkStep, ProtocolError>)
        requires
            rows > 0,
        ensures
            line_len > self.spec_frame_limit() && rows == 1 ==> (r matches Err(e) && error_is(
                e,
                service_limit_spec("chunk_bytes"@, self.spec_frame_limit(), (self.spec_frame_limit() + 1) as u64),
            )),
            line_len > self.spec_frame_limit() && rows > 1 ==> r == Ok::<ChunkStep, ProtocolError>(
                ChunkStep::Split { at: rows / 2 },
            ),
            line_len <= self.spec_frame_limit() ==> if budget_need(self.spec_encoded(), line_len)
                <= self.spec_response_limit() {
                r == Ok::<ChunkStep, ProtocolError>(ChunkStep::Send { seq: self.spec_next_seq() })
            } else {
                r matches Err(e) && error_is(
                    e,
                    service_limit_spec(
                        "response_bytes"@,
                        self.spec_response_limit(),
                        budget_need(self.spec_encoded(), line_len),
                    ),
                )
            },
    {
        if line_len > self.frame_limit {
            if rows == 1 {
                return Err(limit_error("chunk_bytes", self.frame_limit, self.frame_limit + 1));
            }
            return Ok(ChunkStep::Split { at: rows / 2 });
        }
        ensure_response_budget(self.encoded, line_len, self.response_limit)?;
        Ok(ChunkStep::Send { seq: self.next_seq })
    }

    /// Count a sent chunk of `rows` rows and `line_len` bytes (both sums
    /// saturating); the next sequence number follows, unless it would
    /// overflow.
    pub fn record_chunk(&mut self, line_len: u64, rows: u64) -> (r: Result<(), ProtocolError>)
        ensures
            final(self).spec_encoded() == sat_add(old(self).spec_encoded(), line_len),
            final(self).spec_rows() == sat_add(old(self).spec_rows(), rows),
            final(self).spec_response_limit() == old(self).spec_response_limit(),
            final(self).spec_frame_limit() == old(self).spec_frame_limit(),
            old(self).spec_next_seq() < u32::MAX ==> r is Ok && final(self).spec_next_seq()
                == old(self).spec_next_seq() + 1,
            old(self).spec_next_seq() == u32::MAX ==> (r matches Err(e) && error_is(
                e,
                lifecycle_error_spec("response sequence overflow"@),
            )),
    {
        self.encoded = self.encoded.saturating_add(line_len);
        self.rows = self.rows.saturating_add(rows);
        if self.next_seq == u32::MAX {
            return Err(lifecycle_error("response sequence overflow"));
        }
        self.next_seq = self.next_seq + 1;
        Ok(())
    }

    /// A list stream may take `pending` more rows only while the rows sent and
    /// pending stay under `max_rows`.
    pub fn check_listed_rows(&self, pending: u64, max_rows: u64) -> (r: Result<(), ProtocolError>)
        ensures
            r is Ok <==> self.spec_rows() + pending < max_rows,
            r matches Err(e) ==> error_is(
                e,
                service_limit_spec("rows"@, max_rows, sat_add(max_rows, 1)),
            ),
    {
        if self.rows.saturating_add(pending) >= max_rows {
            Err(limit_error("rows", max_rows, max_rows.saturating_add(1)))
        } else {
            Ok(())
        }
    }

    /// The end frame line of `line_len` bytes must fit the frame bound and,
    /// with everything sent before it, the response bound.
    pub fn check_end(&self, line_len: u64) -> (r: Result<(), ProtocolError>)
        ensures
            line_len > self.spec_frame_limit() ==> (r matches Err(e) && error_is(
                e,
                service_limit_spec("encoded_frame_bytes"@, self.spec_frame_limit(), (self.spec_frame_limit() + 1) as u64),
            )),
            line_len <= self.spec_frame_limit() && sat_add(self.spec_encoded(), line_len)
                > self.spec_response_limit() ==> (r matches Err(e) && error_is(
                e,
                service_limit_spec(
                    "response_bytes"@,
                    self.spec_response_limit(),
                    sat_add(self.spec_encoded(), line_len),
                ),
            )),
            r is Ok <==> line_len <= self.spec_frame_limit() && sat_add(self.spec_encoded(), line_len)
                <= self.spec_response_limit(),
    {
        let bytes = frame_bytes(line_len, self.frame_limit)?;
        let total = self.encoded.saturating_add(bytes);
        if total > self.response_limit {
            Err(limit_error("response_bytes", self.response_limit, total))
        } else {
            Ok(())
        }
    }
}

/// `a + b`, saturating at `u64::MAX`.
pub open spec fn sat_add(a: u64, b: u64) -> u64 {
    if a + b > u64::MAX {
        u64::MAX
    } else {
        (a + b) as u64
    }
}

} // verus!
