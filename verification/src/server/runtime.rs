//! Pure decisions of the connection runtime: configuration bounds, the
//! response frame lifecycle, per-connection active request bookkeeping and
//! effective request timeouts.

use vstd::prelude::*;

use crate::query::{millis, now_plus, CancellationToken};
use crate::server::protocol::{
    bad, duplicate_id_spec, error_is, no_details, ErrorSpec, ProtocolError, ProtocolErrorCode,
    Request, RequestMethod, MAX_REQUEST_LINE_BYTES, CHUNK_BYTES, TERMINAL_FRAME_RESERVE_BYTES,
};
use crate::{IoErrorKind, IoFailure};

verus! {

/// Largest configurable request timeout: one year.
pub const HARD_MAX_TIMEOUT_MS: u64 = 31_536_000_000;

/// Bounds of the connection runtime.
#[derive(Debug, Clone, Copy, PartialEq, Eq, Structural)]
pub struct RuntimeConfig {
    pub max_connections: usize,
    pub max_active_requests_per_connection: usize,
    pub workers: usize,
    pub queue_depth: usize,
    pub output_chunks: usize,
    pub request_line_bytes: usize,
    pub max_encoded_frame_bytes: usize,
    pub max_timeout_ms: u64,
}

/// The bounds that hold independently of the clock.
pub open spec fn runtime_bounds_valid(c: RuntimeConfig) -> bool {
    &&& c.max_connections != 0
    &&& c.max_active_requests_per_connection != 0
    &&& c.workers != 0
    &&& c.queue_depth != 0
    &&& c.output_chunks != 0
    &&& c.request_line_bytes != 0
    &&& c.max_encoded_frame_bytes >= TERMINAL_FRAME_RESERVE_BYTES
    &&& c.max_timeout_ms != 0
    &&& c.max_timeout_ms <= HARD_MAX_TIMEOUT_MS
}

pub open spec fn invalid_runtime_text() -> Seq<char> {
    "server runtime limits must be non-zero"@
}

impl Default for RuntimeConfig {
    fn default() -> (c: Self)
        ensures
            c.max_connections == 32,
            c.max_active_requests_per_connection == 8,
            c.workers == 4,
            c.queue_depth == 64,
            c.output_chunks == 8,
            c.request_line_bytes == MAX_REQUEST_LINE_BYTES,
            c.max_encoded_frame_bytes == CHUNK_BYTES,
            c.max_timeout_ms == 120_000,
    {
        RuntimeConfig {
            max_connections: 32,
            max_active_requests_per_connection: 8,
            workers: 4,
            queue_depth: 64,
            output_chunks: 8,
            request_line_bytes: MAX_REQUEST_LINE_BYTES,
            max_encoded_frame_bytes: 262_144,
            max_timeout_ms: 120_000,
        }
    }
}

impl RuntimeConfig {
    /// Refuse zero bounds, a frame bound below the terminal reserve, and a
    /// timeout above one year or beyond what the clock can represent from
    /// now (that last part depends on the clock and is not described).
    pub fn validate(&self) -> (r: Result<(), IoFailure>)
        ensures
            !runtime_bounds_valid(*self) ==> r is Err,
            r is Ok ==> runtime_bounds_valid(*self),
            r matches Err(f) ==> f.kind == IoErrorKind::InvalidInput && f.message@
                == invalid_runtime_text() && !f.generation_mismatch,
    {
        if self.max_connections == 0 || self.max_active_requests_per_connection == 0
            || self.workers == 0 || self.queue_depth == 0 || self.output_chunks == 0
            || self.request_line_bytes == 0 || (self.max_encoded_frame_bytes as u64)
            < TERMINAL_FRAME_RESERVE_BYTES || self.max_timeout_ms == 0 || self.max_timeout_ms
            > HARD_MAX_TIMEOUT_MS || now_plus(millis(self.max_timeout_ms)).is_none() {
            return Err(
                IoFailure::new(
                    IoErrorKind::InvalidInput,
                    String::from_str("server runtime limits must be non-zero"),
                ),
            );
        }
        Ok(())
    }
}

/// Counters of the runtime at one moment.
#[derive(Debug, Clone, Copy, PartialEq, Eq, Structural)]
pub struct RuntimeStatsSnapshot {
    pub queued: usize,
    pub active: usize,
    pub completed: usize,
    pub rejected: usize,
    pub panicked: usize,
    pub connections: usize,
    pub output_blocked: usize,
    pub forced_disconnects: usize,
    pub max_frame_buffer_bytes: usize,
}

/// Where a request's response stands.
#[derive(Debug, Clone, Copy, PartialEq, Eq, Structural)]
pub enum OutputLifecycle {
    NotStarted,
    Streaming { next_seq: u32 },
    Terminal,
}

/// Kind of a response frame.
#[derive(Debug, Clone, Copy, PartialEq, Eq, Structural)]
pub enum FrameKind {
    Result,
    Error,
    Begin,
    Chunk,
    End,
}

/// What the lifecycle reads of a frame: its kind, request id and sequence.
#[derive(Debug, Clone)]
pub struct FrameHead {
    pub kind: FrameKind,
    pub id: Option<String>,
    pub seq: u32,
}

pub open spec fn lifecycle_error_spec(message: Seq<char>) -> ErrorSpec {
    (ProtocolErrorCode::Internal, message, no_details(), false)
}

/// The lifecycle after `frame` is sent for request `request_id`, or why it
/// may not be sent: a unary result or error, or a begin frame, may start a
/// response at sequence 0; chunks and then an end frame continue a stream at
/// consecutive sequence numbers; nothing follows a terminal frame.
pub open spec fn next_lifecycle_spec(
    lifecycle: OutputLifecycle,
    request_id: Seq<char>,
    kind: FrameKind,
    id: Option<Seq<char>>,
    seq: u32,
) -> Result<OutputLifecycle, ErrorSpec> {
    let own = id == Some(request_id);
    match lifecycle {
        OutputLifecycle::Terminal => Err(lifecycle_error_spec("response already terminated"@)),
        OutputLifecycle::NotStarted => if own && seq == 0 && (kind == FrameKind::Result || kind
            == FrameKind::Error) {
            Ok(OutputLifecycle::Terminal)
        } else if own && seq == 0 && kind == FrameKind::Begin {
            Ok(OutputLifecycle::Streaming { next_seq: 1 })
        } else {
            Err(lifecycle_error_spec("response frame violates request lifecycle or sequence"@))
        },
        OutputLifecycle::Streaming { next_seq } => if own && seq == next_seq && kind
            == FrameKind::Chunk {
            if next_seq == u32::MAX {
                Err(lifecycle_error_spec("response sequence overflow"@))
            } else {
                Ok(OutputLifecycle::Streaming { next_seq: (next_seq + 1) as u32 })
            }
        } else if own && seq == next_seq && kind == FrameKind::End {
            Ok(OutputLifecycle::Terminal)
        } else {
            Err(lifecycle_error_spec("response frame violates request lifecycle or sequence"@))
        },
    }
}

/// A terminated response accepts no further frame, and a streaming
/// response accepts only its own frames at the next sequence number, so
/// every response is one result or error, or a begin, contiguous chunks and
/// an end.
pub proof fn law_lifecycle_is_contiguous(
    lifecycle: OutputLifecycle,
    request_id: Seq<char>,
    kind: FrameKind,
    id: Option<Seq<char>>,
    seq: u32,
)
    ensures
        lifecycle == OutputLifecycle::Terminal ==> next_lifecycle_spec(lifecycle, request_id, kind, id, seq) is Err,
        next_lifecycle_spec(lifecycle, request_id, kind, id, seq) is Ok ==> id == Some(request_id),
        lifecycle matches OutputLifecycle::Streaming { next_seq } ==> (next_lifecycle_spec(lifecycle, request_id, kind, id, seq) is Ok
            ==> seq == next_seq && (kind == FrameKind::Chunk || kind == FrameKind::End)),
        lifecycle == OutputLifecycle::NotStarted && next_lifecycle_spec(lifecycle, request_id, kind, id, seq) is Ok ==> seq == 0
            && kind != FrameKind::Chunk && kind != FrameKind::End,
{
}

pub(crate) fn lifecycle_error(message: &str) -> (e: ProtocolError)
    ensures
        error_is(e, lifecycle_error_spec(message@)),
{
    ProtocolError::new(
        ProtocolErrorCode::Internal,
        String::from_str(message),
        crate::server::protocol::empty_details(),
        false,
    )
}

pub open spec fn opt_view(o: Option<String>) -> Option<Seq<char>> {
    match o {
        Some(s) => Some(s@),
        None => None,
    }
}

/// Check a frame against the response lifecycle.
pub fn next_lifecycle(lifecycle: OutputLifecycle, request_id: &String, frame: &FrameHead) -> (r: Result<OutputLifecycle, ProtocolError>)
    ensures
        match (r, next_lifecycle_spec(lifecycle, request_id@, frame.kind, opt_view(frame.id), frame.seq)) {
            (Ok(a), Ok(b)) => a == b,
            (Err(e), Err(es)) => error_is(e, es),
            _ => false,
        },
{
    let own = match &frame.id {
        Some(id) => *id == *request_id,
        None => false,
    };
    match lifecycle {
        OutputLifecycle::Terminal => Err(lifecycle_error("response already terminated")),
        OutputLifecycle::NotStarted => {
            if own && frame.seq == 0 && (frame.kind == FrameKind::Result || frame.kind
                == FrameKind::Error) {
                Ok(OutputLifecycle::Terminal)
            } else if own && frame.seq == 0 && frame.kind == FrameKind::Begin {
                Ok(OutputLifecycle::Streaming { next_seq: 1 })
            } else {
                Err(lifecycle_error("response frame violates request lifecycle or sequence"))
            }
        },
        OutputLifecycle::Streaming { next_seq } => {
            if own && frame.seq == next_seq && frame.kind == FrameKind::Chunk {
                if next_seq == u32::MAX {
                    Err(lifecycle_error("response sequence overflow"))
                } else {
                    Ok(OutputLifecycle::Streaming { next_seq: next_seq + 1 })
                }
            } else if own && frame.seq == next_seq && frame.kind == FrameKind::End {
                Ok(OutputLifecycle::Terminal)
            } else {
                Err(lifecycle_error("response frame violates request lifecycle or sequence"))
            }
        },
    }
}

/// The frame that must close a response that has not terminated: an error
/// frame at sequence 0 before it started, an end frame at the next sequence
/// while it streams, nothing once terminal.
pub fn terminal_frame(lifecycle: OutputLifecycle) -> (r: Option<(FrameKind, u32)>)
    ensures
        r == (match lifecycle {
            OutputLifecycle::NotStarted => Some((FrameKind::Error, 0u32)),
            OutputLifecycle::Streaming { next_seq } => Some((FrameKind::End, next_seq)),
            OutputLifecycle::Terminal => None,
        }),
{
    match lifecycle {
        OutputLifecycle::NotStarted => Some((FrameKind::Error, 0u32)),
        OutputLifecycle::Streaming { next_seq } => Some((FrameKind::End, next_seq)),
        OutputLifecycle::Terminal => None,
    }
}

/// The timeout a request asks for, if its method takes one.
pub open spec fn requested_timeout(method: RequestMethod) -> Option<u64> {
    match method {
        RequestMethod::List(p) => p.timeout_ms,
        RequestMethod::Metadata(p) => p.timeout_ms,
        RequestMethod::Extract(p) => p.timeout_ms,
        RequestMethod::Find(p) => p.timeout_ms,
        RequestMethod::Toggles(p) => p.timeout_ms,
        _ => None,
    }
}

pub fn request_timeout_ms(method: &RequestMethod) -> (t: Option<u64>)
    ensures
        t == requested_timeout(*method),
{
    match method {
        RequestMethod::List(p) => p.timeout_ms,
        RequestMethod::Metadata(p) => p.timeout_ms,
        RequestMethod::Extract(p) => p.timeout_ms,
        RequestMethod::Find(p) => p.timeout_ms,
        RequestMethod::Toggles(p) => p.timeout_ms,
        _ => None,
    }
}

/// The request's timeout, or the configured maximum when it asks for none;
/// a request may only lower the maximum.
pub fn effective_timeout_ms(method: &RequestMethod, configured_maximum: u64) -> (r: Result<u64, ProtocolError>)
    ensures
        match requested_timeout(*method) {
            Some(t) => if t > configured_maximum {
                r matches Err(e) && error_is(
                    e,
                    bad("timeout_ms may only lower the configured maximum"@),
                )
            } else {
                r == Ok::<u64, ProtocolError>(t)
            },
            None => r == Ok::<u64, ProtocolError>(configured_maximum),
        },
{
    let requested = match request_timeout_ms(method) {
        Some(t) => t,
        None => configured_maximum,
    };
    if requested > configured_maximum {
        return Err(ProtocolError::bad_request("timeout_ms may only lower the configured maximum"));
    }
    Ok(requested)
}

/// The ids of a connection's active requests with their cancellation
/// tokens, bounded in number.
pub struct ActiveRequests {
    entries: Vec<(String, CancellationToken)>,
    max_active: usize,
}

pub open spec fn active_limit_spec(max: usize, count: nat) -> ErrorSpec {
    (
        ProtocolErrorCode::LimitExceeded,
        "active requests per connection limit exceeded"@,
        seq![
            ("kind"@, Ok("active_requests"@)),
            ("limit"@, Ok(crate::text::decimal_chars(max as nat))),
            ("actual"@, Ok(crate::text::decimal_chars(count + 1))),
        ],
        false,
    )
}

impl ActiveRequests {
    /// The active ids, in registration order.
    pub closed spec fn ids(&self) -> Seq<Seq<char>> {
        self.entries@.map_values(|e: (String, CancellationToken)| e.0@)
    }

    pub closed spec fn limit(&self) -> usize {
        self.max_active
    }

    /// No id is active twice, and the bound holds.
    pub open spec fn wf(&self) -> bool {
        &&& forall|i: int, j: int|
            0 <= i < j < self.ids().len() ==> self.ids()[i] != self.ids()[j]
        &&& self.ids().len() <= self.limit()
    }

    pub fn new(max_active: usize) -> (a: Self)
        ensures
            a.wf(),
            a.ids() == Seq::<Seq<char>>::empty(),
            a.limit() == max_active,
    {
        let a = ActiveRequests { entries: Vec::new(), max_active };
        assert(a.ids() =~= Seq::<Seq<char>>::empty());
        a
    }

    fn position(&self, id: &str) -> (r: Option<usize>)
        ensures
            match r {
                Some(i) => i < self.ids().len() && self.ids()[i as int] == id@,
                None => !self.ids().contains(id@),
            },
    {
        let wanted = String::from_str(id);
        let mut i: usize = 0;
        while i < self.entries.len()
            invariant
                i <= self.entries.len(),
                wanted@ == id@,
                forall|j: int| 0 <= j < i ==> self.ids()[j] != id@,
            decreases self.entries.len() - i,
        {
            if self.entries[i].0 == wanted {
                return Some(i);
            }
            i = i + 1;
        }
        None
    }

    pub fn is_active(&self, id: &str) -> (b: bool)
        ensures
            b == self.ids().contains(id@),
    {
        self.position(id).is_some()
    }

    pub fn active_count(&self) -> (n: usize)
        ensures
            n == self.ids().len(),
    {
        self.entries.len()
    }

    /// Register a request: refused when its id is active or the bound is
    /// reached; otherwise it gets a fresh cancellation token.
    pub fn register(&mut self, id: &str) -> (r: Result<CancellationToken, ProtocolError>)
        requires
            old(self).wf(),
        ensures
            final(self).wf(),
            final(self).limit() == old(self).limit(),
            if old(self).ids().contains(id@) {
                &&& r matches Err(e) && error_is(e, crate::server::protocol::duplicate_id_spec(id@))
                &&& final(self).ids() == old(self).ids()
            } else if old(self).ids().len() >= old(self).limit() {
                &&& r matches Err(e) && error_is(
                    e,
                    active_limit_spec(old(self).limit(), old(self).ids().len()),
                )
                &&& final(self).ids() == old(self).ids()
            } else {
                &&& r is Ok
                &&& final(self).ids() == old(self).ids().push(id@)
            },
    {
        if self.is_active(id) {
            return Err(ProtocolError::duplicate_request_id(id));
        }
        if self.entries.len() >= self.max_active {
            let mut fields: Vec<(String, crate::server::protocol::DetailValue)> = Vec::new();
            fields.push((String::from_str("kind"), crate::server::protocol::DetailValue::Text(String::from_str("active_requests"))));
            fields.push((String::from_str("limit"), crate::server::protocol::DetailValue::Text(crate::text::usize_decimal(self.max_active))));
            fields.push((String::from_str("actual"), crate::server::protocol::DetailValue::Text(crate::text::u128_decimal(self.entries.len() as u128 + 1))));
            let details = crate::server::protocol::ErrorDetails { fields };
            assert(crate::server::protocol::details_view(details) =~= active_limit_spec(self.max_active, self.ids().len()).2);
            return Err(
                ProtocolError::new(
                    ProtocolErrorCode::LimitExceeded,
                    String::from_str("active requests per connection limit exceeded"),
                    details,
                    false,
                ),
            );
        }
        let token = CancellationToken::new();
        let ghost before = self.ids();
        self.entries.push((String::from_str(id), token.clone()));
        assert(self.ids() =~= before.push(id@));
        Ok(token)
    }

    /// Cancel an active request; whether it was active.
    pub fn cancel(&self, id: &str) -> (found: bool)
        ensures
            found == self.ids().contains(id@),
    {
        match self.position(id) {
            Some(i) => {
                self.entries[i].1.cancel();
                true
            },
            None => false,
        }
    }

    /// Forget a finished request.
    pub fn remove(&mut self, id: &str)
        requires
            old(self).wf(),
        ensures
            final(self).wf(),
            final(self).limit() == old(self).limit(),
            forall|k: Seq<char>| #[trigger] final(self).ids().contains(k) <==> (old(self).ids().contains(k) && k != id@),
    {
        match self.position(id) {
            Some(i) => {
                let ghost before = self.ids();
                self.entries.remove(i);
                assert(self.ids() =~= before.remove(i as int));
                assert forall|k: Seq<char>| #[trigger] self.ids().contains(k) <==> (before.contains(k) && k != id@) by {
                    if before.contains(k) && k != id@ {
                        let j = choose|j: int| 0 <= j < before.len() && before[j] == k;
                        if j < i {
                            assert(self.ids()[j] == k);
                        } else {
                            assert(j != i);
                            assert(self.ids()[j - 1] == k);
                        }
                    }
                    if self.ids().contains(k) {
                        let j = choose|j: int| 0 <= j < self.ids().len() && self.ids()[j] == k;
                        if j < i {
                            assert(before[j] == k);
                            assert(j != i);
                        } else {
                            assert(before[j + 1] == k);
                        }
                    }
                }
            },
            None => {},
        }
    }

    /// Cancel every active request.
    pub fn cancel_all(&self) {
        let mut i: usize = 0;
        while i < self.entries.len()
            invariant
                i <= self.entries.len(),
            decreases self.entries.len() - i,
        {
            self.entries[i].1.cancel();
            i = i + 1;
        }
    }
}

/// What a connection does with one decoded request.
pub enum Admission {
    /// Answer with this error, without a request id, then close the
    /// connection.
    Refuse(ProtocolError),
    /// Answer a cancel request: whether its target was active (it is now
    /// cancelled).
    Cancelled { id: String, found: bool },
    /// Answer the request with this error; the connection goes on.
    Reject { id: String, error: ProtocolError },
    /// Queue the request with its timeout; it is active under this token.
    Run { request: Request, timeout_ms: u64, token: CancellationToken },
}

/// The admission of a decoded request, given the ids active before and
/// after: a duplicate id closes the connection; a cancel is answered at
/// once; a timeout above the maximum is rejected; beyond the active bound
/// the connection closes; otherwise the request runs and becomes active.
pub open spec fn admission_is(
    a: Admission,
    req: Request,
    before: Seq<Seq<char>>,
    limit: usize,
    max_timeout_ms: u64,
    after: Seq<Seq<char>>,
) -> bool {
    if before.contains(req.id@) {
        &&& a matches Admission::Refuse(e) && error_is(e, duplicate_id_spec(req.id@))
        &&& after == before
    } else {
        match req.method {
            RequestMethod::Cancel(c) => {
                &&& a matches Admission::Cancelled { id, found } && id@ == req.id@ && found
                    == before.contains(c.request_id@)
                &&& after == before
            },
            _ => if requested_timeout(req.method) matches Some(t) && t > max_timeout_ms {
                &&& a matches Admission::Reject { id, error } && id@ == req.id@ && error_is(
                    error,
                    bad("timeout_ms may only lower the configured maximum"@),
                )
                &&& after == before
            } else if before.len() >= limit {
                &&& a matches Admission::Refuse(e) && error_is(e, active_limit_spec(limit, before.len()))
                &&& after == before
            } else {
                &&& a matches Admission::Run { request, timeout_ms, .. } && request == req
                    && timeout_ms == (match requested_timeout(req.method) {
                    Some(t) => t,
                    None => max_timeout_ms,
                })
                &&& after == before.push(req.id@)
            },
        }
    }
}

/// Decide what a connection does with a decoded request (a decoding error
/// closes the connection), registering the requests that run.
pub fn admit_request(active: &mut ActiveRequests, decoded: Result<Request, ProtocolError>, max_timeout_ms: u64) -> (a: Admission)
    requires
        old(active).wf(),
    ensures
        final(active).wf(),
        final(active).limit() == old(active).limit(),
        match decoded {
            Err(e) => a == Admission::Refuse(e) && final(active).ids() == old(active).ids(),
            Ok(req) => admission_is(
                a,
                req,
                old(active).ids(),
                old(active).limit(),
                max_timeout_ms,
                final(active).ids(),
            ),
        },
{
    let request = match decoded {
        Err(e) => {
            return Admission::Refuse(e);
        },
        Ok(request) => request,
    };
    if active.is_active(request.id.as_str()) {
        return Admission::Refuse(ProtocolError::duplicate_request_id(request.id.as_str()));
    }
    let cancelled = match &request.method {
        RequestMethod::Cancel(cancel) => Some(active.cancel(cancel.request_id.as_str())),
        _ => None,
    };
    if let Some(found) = cancelled {
        return Admission::Cancelled { id: request.id, found };
    }
    let timeout_ms = match effective_timeout_ms(&request.method, max_timeout_ms) {
        Ok(t) => t,
        Err(error) => {
            return Admission::Reject { id: request.id, error };
        },
    };
    match active.register(request.id.as_str()) {
        Ok(token) => Admission::Run { request, timeout_ms, token },
        Err(e) => Admission::Refuse(e),
    }
}

/// Whether a connection limiter admits one more connection: the new count
/// when below the bound.
pub fn admit_connection(active: usize, max: usize) -> (r: Option<usize>)
    ensures
        r == (if active < max { Some((active + 1) as usize) } else { None::<usize> }),
{
    if active < max {
        Some(active + 1)
    } else {
        None
    }
}

} // verus!
