//! Protocol v1 request decoding, bounded error values and wire result types.

use vstd::prelude::*;

use crate::query::{limit_kind_text, QueryError, QueryLimitKind};
use crate::text::{
    char_utf8_len, char_utf8_len_exec, chars_of, decimal_chars, string_of, u64_decimal, utf8_len,
};
use crate::{change_value_text, concat, time_unit_text, ChangeValue, Timescale, VcdError};

verus! {

pub const PROTOCOL_VERSION: u8 = 1;

pub const MAX_REQUEST_LINE_BYTES: usize = 1_048_576;

pub const MAX_REQUEST_ID_BYTES: usize = 128;

pub const TERMINAL_FRAME_RESERVE_BYTES: u64 = 4_096;

pub const CHUNK_ROWS: u64 = 1_024;

pub const CHUNK_BYTES: u64 = 262_144;

pub const MAX_ERROR_MESSAGE_BYTES: usize = 256;

pub const MAX_ERROR_DETAIL_STRING_BYTES: usize = 256;

pub const MAX_ERROR_DETAIL_ITEMS: usize = 8;

pub const MAX_ERROR_DETAIL_FIELDS: usize = 16;

/// Stable protocol error codes.
#[derive(Debug, Clone, Copy, PartialEq, Eq, Hash, Structural)]
pub enum ProtocolErrorCode {
    BadRequest,
    UnsupportedVersion,
    UnknownMethod,
    DuplicateRequestId,
    SignalNotFound,
    InvalidWindow,
    InvalidOccurrence,
    LimitExceeded,
    QueueFull,
    Cancelled,
    DeadlineExceeded,
    StaleSource,
    SourceUnavailable,
    ParseError,
    Internal,
}

pub open spec fn protocol_code_text(code: ProtocolErrorCode) -> Seq<char> {
    match code {
        ProtocolErrorCode::BadRequest => "BAD_REQUEST"@,
        ProtocolErrorCode::UnsupportedVersion => "UNSUPPORTED_VERSION"@,
        ProtocolErrorCode::UnknownMethod => "UNKNOWN_METHOD"@,
        ProtocolErrorCode::DuplicateRequestId => "DUPLICATE_REQUEST_ID"@,
        ProtocolErrorCode::SignalNotFound => "SIGNAL_NOT_FOUND"@,
        ProtocolErrorCode::InvalidWindow => "INVALID_WINDOW"@,
        ProtocolErrorCode::InvalidOccurrence => "INVALID_OCCURRENCE"@,
        ProtocolErrorCode::LimitExceeded => "LIMIT_EXCEEDED"@,
        ProtocolErrorCode::QueueFull => "QUEUE_FULL"@,
        ProtocolErrorCode::Cancelled => "CANCELLED"@,
        ProtocolErrorCode::DeadlineExceeded => "DEADLINE_EXCEEDED"@,
        ProtocolErrorCode::StaleSource => "STALE_SOURCE"@,
        ProtocolErrorCode::SourceUnavailable => "SOURCE_UNAVAILABLE"@,
        ProtocolErrorCode::ParseError => "PARSE_ERROR"@,
        ProtocolErrorCode::Internal => "INTERNAL"@,
    }
}

impl ProtocolErrorCode {
    /// The wire spelling of the code.
    pub fn as_str(self) -> (s: &'static str)
        ensures
            s@ == protocol_code_text(self),
    {
        proof {
            reveal_strlit("BAD_REQUEST");
            reveal_strlit("UNSUPPORTED_VERSION");
            reveal_strlit("UNKNOWN_METHOD");
            reveal_strlit("DUPLICATE_REQUEST_ID");
            reveal_strlit("SIGNAL_NOT_FOUND");
            reveal_strlit("INVALID_WINDOW");
            reveal_strlit("INVALID_OCCURRENCE");
            reveal_strlit("LIMIT_EXCEEDED");
            reveal_strlit("QUEUE_FULL");
            reveal_strlit("CANCELLED");
            reveal_strlit("DEADLINE_EXCEEDED");
            reveal_strlit("STALE_SOURCE");
            reveal_strlit("SOURCE_UNAVAILABLE");
            reveal_strlit("PARSE_ERROR");
            reveal_strlit("INTERNAL");
        }
        match self {
            ProtocolErrorCode::BadRequest => "BAD_REQUEST",
            ProtocolErrorCode::UnsupportedVersion => "UNSUPPORTED_VERSION",
            ProtocolErrorCode::UnknownMethod => "UNKNOWN_METHOD",
            ProtocolErrorCode::DuplicateRequestId => "DUPLICATE_REQUEST_ID",
            ProtocolErrorCode::SignalNotFound => "SIGNAL_NOT_FOUND",
            ProtocolErrorCode::InvalidWindow => "INVALID_WINDOW",
            ProtocolErrorCode::InvalidOccurrence => "INVALID_OCCURRENCE",
            ProtocolErrorCode::LimitExceeded => "LIMIT_EXCEEDED",
            ProtocolErrorCode::QueueFull => "QUEUE_FULL",
            ProtocolErrorCode::Cancelled => "CANCELLED",
            ProtocolErrorCode::DeadlineExceeded => "DEADLINE_EXCEEDED",
            ProtocolErrorCode::StaleSource => "STALE_SOURCE",
            ProtocolErrorCode::SourceUnavailable => "SOURCE_UNAVAILABLE",
            ProtocolErrorCode::ParseError => "PARSE_ERROR",
            ProtocolErrorCode::Internal => "INTERNAL",
        }
    }
}

/// One value of an error's details object: a string or a list of strings.
#[derive(Debug, Clone)]
pub enum DetailValue {
    Text(String),
    List(Vec<String>),
}

/// The details object of a protocol error, fields in order.
#[derive(Debug, Clone)]
pub struct ErrorDetails {
    pub fields: Vec<(String, DetailValue)>,
}

/// Mathematical form of a detail value.
pub open spec fn detail_view(v: DetailValue) -> Result<Seq<char>, Seq<Seq<char>>> {
    match v {
        DetailValue::Text(t) => Ok(t@),
        DetailValue::List(items) => Err(items@.map_values(|s: String| s@)),
    }
}

/// Mathematical form of a details object: its keys and values in order.
pub open spec fn details_view(d: ErrorDetails) -> Seq<(Seq<char>, Result<Seq<char>, Seq<Seq<char>>>)> {
    d.fields@.map_values(|f: (String, DetailValue)| (f.0@, detail_view(f.1)))
}

/// Number of leading characters of `s` whose UTF-8 encoding fits in `budget`
/// bytes.
pub open spec fn fit_prefix(s: Seq<char>, budget: int) -> nat
    decreases s.len(),
{
    if s.len() == 0 || char_utf8_len(s[0]) > budget {
        0
    } else {
        1 + fit_prefix(s.drop_first(), budget - char_utf8_len(s[0]))
    }
}

pub open spec fn ellipsis() -> char {
    '\u{2026}'
}

/// `s` unchanged when its UTF-8 length is at most `max` bytes; otherwise its
/// longest prefix that leaves room for a trailing ellipsis within `max` bytes,
/// followed by the ellipsis.
pub open spec fn truncate_text(s: Seq<char>, max: nat) -> Seq<char> {
    if utf8_len(s) <= max {
        s
    } else {
        s.take(fit_prefix(s, if max >= 3 { max - 3 } else { 0 }) as int).push(ellipsis())
    }
}

proof fn lemma_fit_prefix_bound(s: Seq<char>, budget: int)
    ensures
        fit_prefix(s, budget) <= s.len(),
    decreases s.len(),
{
    if s.len() > 0 && char_utf8_len(s[0]) <= budget {
        lemma_fit_prefix_bound(s.drop_first(), budget - char_utf8_len(s[0]));
    }
}

/// The length of `s` in bytes: the UTF-8 encoded length of its characters.
pub(crate) fn byte_len(s: &str) -> (n: usize)
    ensures
        n == utf8_len(s@),
{
    let bytes = s.as_bytes();
    proof {
        crate::text::lemma_encode_utf8_len(s@);
    }
    bytes.len()
}

/// Every accumulated line is, with its newline, within the bound: its UTF-8
/// encoding is the bytes it was decoded from.
pub proof fn law_lines_fit_the_bound(start: Seq<u8>, bytes: Seq<u8>, max: nat, k: int)
    requires
        0 <= k < accumulate_lines(start, bytes, max).1.len(),
    ensures
        vstd::utf8::encode_utf8(accumulate_lines(start, bytes, max).1[k]).len() + 1 <= max,
        utf8_len(accumulate_lines(start, bytes, max).1[k]) + 1 <= max,
    decreases bytes.len(),
{
    let line = accumulate_lines(start, bytes, max).1[k];
    if bytes.len() > 0 {
        let prior = accumulate_lines(start, bytes.drop_last(), max);
        if k < prior.1.len() {
            law_lines_fit_the_bound(start, bytes.drop_last(), max, k);
            if prior.2 is None {
                let next = line_step(prior, bytes.last(), max);
                assert(next.1.len() >= prior.1.len());
                assert(next.1[k] == prior.1[k]);
            }
        } else {
            let buffer = prior.0;
            assert(prior.2 is None);
            assert(bytes.last() == 10u8);
            assert(buffer.len() + 1 <= max);
            assert(vstd::utf8::valid_utf8(buffer));
            assert(line == vstd::utf8::decode_utf8(buffer));
            vstd::utf8::decode_utf8_encode_utf8(buffer);
        }
    }
    crate::text::lemma_encode_utf8_len(line);
}

/// Two calls of [`JsonLineAccumulator::push`] on an accumulator, the first
/// succeeding, give the lines and pending bytes of one call with the joined
/// bytes on the same accumulator.
pub proof fn law_push_in_two_parts(a: JsonLineAccumulator, x: Seq<u8>, y: Seq<u8>)
    requires
        a.wf(),
        !a.is_poisoned(),
        accumulate_lines(a.pending(), x, a.max_line()).2 is None,
    ensures
        ({
            let first = accumulate_lines(a.pending(), x, a.max_line());
            let second = accumulate_lines(first.0, y, a.max_line());
            let joined = accumulate_lines(a.pending(), x + y, a.max_line());
            &&& joined.1 == first.1 + second.1
            &&& joined.0 == second.0
            &&& joined.2 == second.2
        }),
{
    law_accumulate_concat(a.pending(), x, y, a.max_line());
}

/// `text` bounded to `max_bytes` of UTF-8 at a character boundary.
pub fn truncate_utf8(text: String, max_bytes: usize) -> (out: String)
    ensures
        out@ == truncate_text(text@, max_bytes as nat),
{
    if byte_len(text.as_str()) <= max_bytes {
        return text;
    }
    let chars = chars_of(text.as_str());
    let budget: usize = max_bytes.saturating_sub(3);
    let mut used: usize = 0;
    let mut i: usize = 0;
    let mut done = false;
    let mut kept: Vec<char> = Vec::new();
    proof {
        lemma_fit_prefix_bound(chars@, budget as int);
        assert(chars@.skip(0) == chars@);
    }
    while i < chars.len() && !done
        invariant
            i <= chars.len(),
            used <= budget,
            kept@ == chars@.take(i as int),
            fit_prefix(chars@, budget as int) == i + fit_prefix(
                chars@.skip(i as int),
                budget - used,
            ),
            done ==> fit_prefix(chars@.skip(i as int), budget - used) == 0,
        decreases chars.len() - i, if done { 0int } else { 1int },
    {
        let c = chars[i];
        let n = char_utf8_len_exec(c);
        assert(chars@.skip(i as int)[0] == c);
        if n > budget - used {
            done = true;
        } else {
            assert(chars@.skip(i as int).drop_first() == chars@.skip(i + 1));
            used = used + n;
            kept.push(c);
            i = i + 1;
            assert(kept@ == chars@.take(i as int));
        }
    }
    proof {
        if !done {
            assert(chars@.skip(i as int).len() == 0);
        }
        assert(fit_prefix(chars@, budget as int) == i);
    }
    kept.push('\u{2026}');
    let out = string_of(kept.as_slice());
    assert(out@ == chars@.take(i as int).push(ellipsis()));
    out
}

/// A detail value with every string bounded.
pub open spec fn bounded_detail(v: Result<Seq<char>, Seq<Seq<char>>>) -> Result<Seq<char>, Seq<Seq<char>>> {
    match v {
        Ok(t) => Ok(truncate_text(t, MAX_ERROR_DETAIL_STRING_BYTES as nat)),
        Err(items) => Err(
            items.take(
                if items.len() <= MAX_ERROR_DETAIL_ITEMS {
                    items.len() as int
                } else {
                    MAX_ERROR_DETAIL_ITEMS as int
                },
            ).map_values(|s: Seq<char>| truncate_text(s, MAX_ERROR_DETAIL_STRING_BYTES as nat)),
        ),
    }
}

/// A details object keeping its first fields, with keys and values bounded.
pub open spec fn bounded_details(d: Seq<(Seq<char>, Result<Seq<char>, Seq<Seq<char>>>)>) -> Seq<(Seq<char>, Result<Seq<char>, Seq<Seq<char>>>)> {
    d.take(
        if d.len() <= MAX_ERROR_DETAIL_FIELDS {
            d.len() as int
        } else {
            MAX_ERROR_DETAIL_FIELDS as int
        },
    ).map_values(
        |f: (Seq<char>, Result<Seq<char>, Seq<Seq<char>>>)|
            (truncate_text(f.0, MAX_ERROR_DETAIL_STRING_BYTES as nat), bounded_detail(f.1)),
    )
}

fn bound_detail_value(value: &DetailValue) -> (out: DetailValue)
    ensures
        detail_view(out) == bounded_detail(detail_view(*value)),
{
    match value {
        DetailValue::Text(text) => DetailValue::Text(
            truncate_utf8(text.clone(), MAX_ERROR_DETAIL_STRING_BYTES),
        ),
        DetailValue::List(items) => {
            let ghost src = items@.map_values(|s: String| s@);
            let n: usize = if items.len() <= MAX_ERROR_DETAIL_ITEMS {
                items.len()
            } else {
                MAX_ERROR_DETAIL_ITEMS
            };
            let mut out: Vec<String> = Vec::new();
            let mut i: usize = 0;
            while i < n
                invariant
                    n <= items.len(),
                    i <= n,
                    out@.len() == i,
                    src == items@.map_values(|s: String| s@),
                    forall|j: int|
                        0 <= j < i ==> #[trigger] out@[j]@ == truncate_text(
                            items@[j]@,
                            MAX_ERROR_DETAIL_STRING_BYTES as nat,
                        ),
                decreases n - i,
            {
                out.push(truncate_utf8(items[i].clone(), MAX_ERROR_DETAIL_STRING_BYTES));
                i = i + 1;
            }
            let ghost result = out@.map_values(|s: String| s@);
            assert(result =~= src.take(n as int).map_values(
                |s: Seq<char>| truncate_text(s, MAX_ERROR_DETAIL_STRING_BYTES as nat),
            ));
            DetailValue::List(out)
        },
    }
}

/// Details bounded in field count, list length and string length.
pub fn bound_error_details(details: ErrorDetails) -> (out: ErrorDetails)
    ensures
        details_view(out) == bounded_details(details_view(details)),
{
    let ghost src = details_view(details);
    let fields = details.fields;
    let n: usize = if fields.len() <= MAX_ERROR_DETAIL_FIELDS {
        fields.len()
    } else {
        MAX_ERROR_DETAIL_FIELDS
    };
    let mut out: Vec<(String, DetailValue)> = Vec::new();
    let mut i: usize = 0;
    while i < n
        invariant
            n <= fields.len(),
            i <= n,
            out@.len() == i,
            src == fields@.map_values(|f: (String, DetailValue)| (f.0@, detail_view(f.1))),
            forall|j: int|
                0 <= j < i ==> #[trigger] out@[j].0@ == truncate_text(
                    fields@[j].0@,
                    MAX_ERROR_DETAIL_STRING_BYTES as nat,
                ) && detail_view(out@[j].1) == bounded_detail(detail_view(fields@[j].1)),
        decreases n - i,
    {
        let key = truncate_utf8(fields[i].0.clone(), MAX_ERROR_DETAIL_STRING_BYTES);
        let value = bound_detail_value(&fields[i].1);
        out.push((key, value));
        i = i + 1;
    }
    let result = ErrorDetails { fields: out };
    assert(details_view(result) =~= bounded_details(src));
    result
}


/// A protocol error as the wire shows it: code, bounded message, bounded
/// details object and whether retrying may succeed.
#[derive(Debug, Clone)]
pub struct ProtocolError {
    pub code: ProtocolErrorCode,
    pub message: String,
    pub details: ErrorDetails,
    pub retryable: bool,
}

/// Mathematical form of an error before bounding: code, message, details
/// and retryability.
pub type ErrorSpec = (
    ProtocolErrorCode,
    Seq<char>,
    Seq<(Seq<char>, Result<Seq<char>, Seq<Seq<char>>>)>,
    bool,
);

/// `e` is the error built from `spec` by [`ProtocolError::new`].
pub open spec fn error_is(e: ProtocolError, spec: ErrorSpec) -> bool {
    &&& e.code == spec.0
    &&& e.message@ == truncate_text(spec.1, MAX_ERROR_MESSAGE_BYTES as nat)
    &&& details_view(e.details) == bounded_details(spec.2)
    &&& e.retryable == spec.3
}

pub open spec fn no_details() -> Seq<(Seq<char>, Result<Seq<char>, Seq<Seq<char>>>)> {
    Seq::empty()
}

/// A `BAD_REQUEST` error with this message.
pub open spec fn bad(message: Seq<char>) -> ErrorSpec {
    (ProtocolErrorCode::BadRequest, message, no_details(), false)
}

pub open spec fn one_text_field(key: Seq<char>, value: Seq<char>) -> Seq<(Seq<char>, Result<Seq<char>, Seq<Seq<char>>>)> {
    seq![(key, Ok(value))]
}

pub open spec fn unsupported_version_spec() -> ErrorSpec {
    (
        ProtocolErrorCode::UnsupportedVersion,
        "unsupported protocol version"@,
        seq![("supported_versions"@, Err(seq!["1"@]))],
        false,
    )
}

pub open spec fn unknown_method_spec(method: Seq<char>) -> ErrorSpec {
    (ProtocolErrorCode::UnknownMethod, "unknown method"@, one_text_field("method"@, method), false)
}

pub open spec fn duplicate_id_spec(id: Seq<char>) -> ErrorSpec {
    (
        ProtocolErrorCode::DuplicateRequestId,
        "request ID is already active"@,
        one_text_field("id"@, id),
        false,
    )
}

pub open spec fn invalid_window_spec() -> ErrorSpec {
    (
        ProtocolErrorCode::InvalidWindow,
        "start must be less than or equal to end"@,
        no_details(),
        false,
    )
}

pub open spec fn invalid_occurrence_spec() -> ErrorSpec {
    (ProtocolErrorCode::InvalidOccurrence, "occurrence must be >= 1"@, no_details(), false)
}

fn text_field(key: &str, value: String) -> (f: (String, DetailValue))
    ensures
        f.0@ == key@,
        detail_view(f.1) == Ok::<Seq<char>, Seq<Seq<char>>>(value@),
{
    (String::from_str(key), DetailValue::Text(value))
}

pub(crate) fn empty_details() -> (d: ErrorDetails)
    ensures
        details_view(d) == no_details(),
{
    let d = ErrorDetails { fields: Vec::new() };
    assert(details_view(d) =~= no_details());
    d
}

fn single_text_details(key: &str, value: String) -> (d: ErrorDetails)
    ensures
        details_view(d) == one_text_field(key@, value@),
{
    let mut fields: Vec<(String, DetailValue)> = Vec::new();
    fields.push(text_field(key, value));
    let d = ErrorDetails { fields };
    assert(details_view(d) =~= one_text_field(key@, value@));
    d
}

impl ProtocolError {
    /// An error with its message and details bounded for the wire.
    pub fn new(code: ProtocolErrorCode, message: String, details: ErrorDetails, retryable: bool) -> (e: Self)
        ensures
            error_is(e, (code, message@, details_view(details), retryable)),
    {
        ProtocolError {
            code,
            message: truncate_utf8(message, MAX_ERROR_MESSAGE_BYTES),
            details: bound_error_details(details),
            retryable,
        }
    }

    pub fn bad_request(message: &str) -> (e: Self)
        ensures
            error_is(e, bad(message@)),
    {
        ProtocolError::new(
            ProtocolErrorCode::BadRequest,
            String::from_str(message),
            empty_details(),
            false,
        )
    }

    pub fn unsupported_version() -> (e: Self)
        ensures
            error_is(e, unsupported_version_spec()),
    {
        let mut versions: Vec<String> = Vec::new();
        versions.push(String::from_str("1"));
        let mut fields: Vec<(String, DetailValue)> = Vec::new();
        fields.push((String::from_str("supported_versions"), DetailValue::List(versions)));
        assert(versions@.map_values(|v: String| v@) =~= seq!["1"@]);
        let details = ErrorDetails { fields };
        assert(details_view(details) =~= unsupported_version_spec().2);
        ProtocolError::new(
            ProtocolErrorCode::UnsupportedVersion,
            String::from_str("unsupported protocol version"),
            details,
            false,
        )
    }

    pub fn unknown_method(method: &str) -> (e: Self)
        ensures
            error_is(e, unknown_method_spec(method@)),
    {
        ProtocolError::new(
            ProtocolErrorCode::UnknownMethod,
            String::from_str("unknown method"),
            single_text_details("method", String::from_str(method)),
            false,
        )
    }

    pub fn duplicate_request_id(id: &str) -> (e: Self)
        ensures
            error_is(e, duplicate_id_spec(id@)),
    {
        ProtocolError::new(
            ProtocolErrorCode::DuplicateRequestId,
            String::from_str("request ID is already active"),
            single_text_details("id", String::from_str(id)),
            false,
        )
    }

    pub fn invalid_window() -> (e: Self)
        ensures
            error_is(e, invalid_window_spec()),
    {
        ProtocolError::new(
            ProtocolErrorCode::InvalidWindow,
            String::from_str("start must be less than or equal to end"),
            empty_details(),
            false,
        )
    }

    pub fn invalid_occurrence() -> (e: Self)
        ensures
            error_is(e, invalid_occurrence_spec()),
    {
        ProtocolError::new(
            ProtocolErrorCode::InvalidOccurrence,
            String::from_str("occurrence must be >= 1"),
            empty_details(),
            false,
        )
    }

    /// Display text: `CODE: message`.
    pub fn display(&self) -> (s: String)
        ensures
            s@ == protocol_code_text(self.code) + ": "@ + self.message@,
    {
        let mut s = String::from_str(self.code.as_str());
        s.append(": ");
        s.append(self.message.as_str());
        s
    }
}

/// What `String::from_utf8` makes of a byte sequence: its characters when the
/// bytes are well-formed UTF-8, and nothing otherwise.
pub open spec fn utf8_decoded(bytes: Seq<u8>) -> Option<Seq<char>> {
    if vstd::utf8::valid_utf8(bytes) {
        Some(vstd::utf8::decode_utf8(bytes))
    } else {
        None
    }
}

/// Calls `String::from_utf8`, which succeeds exactly on well-formed UTF-8
/// and then holds the characters the bytes encode.
#[verifier::external_body]
pub(crate) fn decode_utf8_bytes(bytes: Vec<u8>) -> (r: Option<String>)
    ensures
        match r {
            Some(s) => utf8_decoded(bytes@) == Some(s@),
            None => utf8_decoded(bytes@) is None,
        },
{
    String::from_utf8(bytes).ok()
}

/// Why a push stopped.
#[derive(Debug, Clone, Copy, PartialEq, Eq, Structural)]
pub enum LineFailure {
    Oversize,
    InvalidUtf8,
}

/// State of line accumulation: pending bytes, completed lines, and the
/// failure that stopped it, if any.
pub type LineState = (Seq<u8>, Seq<Seq<char>>, Option<LineFailure>);

/// One byte of input applied to a line state that has not failed.
pub open spec fn line_step(state: LineState, byte: u8, max: nat) -> LineState {
    let (buffer, lines, _) = state;
    if byte == 10u8 {
        if buffer.len() + 1 > max {
            (Seq::empty(), lines, Some(LineFailure::Oversize))
        } else {
            match utf8_decoded(buffer) {
                Some(text) => (Seq::empty(), lines.push(text), None),
                None => (Seq::empty(), lines, Some(LineFailure::InvalidUtf8)),
            }
        }
    } else if buffer.len() + 1 >= max {
        (Seq::empty(), lines, Some(LineFailure::Oversize))
    } else {
        (buffer.push(byte), lines, None)
    }
}

/// Line state after `bytes`, starting from pending bytes `start`; input after
/// a failure is not read.
pub open spec fn accumulate_lines(start: Seq<u8>, bytes: Seq<u8>, max: nat) -> LineState
    decreases bytes.len(),
{
    if bytes.len() == 0 {
        (start, Seq::empty(), None)
    } else {
        let prior = accumulate_lines(start, bytes.drop_last(), max);
        if prior.2 is Some {
            prior
        } else {
            line_step(prior, bytes.last(), max)
        }
    }
}

pub open spec fn line_limit_spec(max: nat) -> ErrorSpec {
    (
        ProtocolErrorCode::LimitExceeded,
        "request line exceeds configured byte limit"@,
        seq![
            ("kind"@, Ok("request_line_bytes"@)),
            ("limit"@, Ok(decimal_chars(max))),
            ("actual"@, Ok(decimal_chars(max + 1))),
        ],
        false,
    )
}

/// Incremental bounded JSON Lines accumulator. The bound includes the
/// terminating newline; after an error it stays poisoned.
#[derive(Debug)]
pub struct JsonLineAccumulator {
    buffer: Vec<u8>,
    max_line_bytes: usize,
    poisoned: bool,
}

impl JsonLineAccumulator {
    pub closed spec fn pending(&self) -> Seq<u8> {
        self.buffer@
    }

    pub closed spec fn max_line(&self) -> nat {
        self.max_line_bytes as nat
    }

    pub closed spec fn is_poisoned(&self) -> bool {
        self.poisoned
    }

    /// The pending bytes always leave room for the newline.
    pub open spec fn wf(&self) -> bool {
        self.max_line() > 0 && self.pending().len() < self.max_line()
    }

    pub fn new(max_line_bytes: usize) -> (a: Self)
        requires
            max_line_bytes > 0,
        ensures
            a.wf(),
            a.pending() == Seq::<u8>::empty(),
            a.max_line() == max_line_bytes,
            !a.is_poisoned(),
    {
        JsonLineAccumulator { buffer: Vec::new(), max_line_bytes, poisoned: false }
    }

    /// An accumulator bounded by [`MAX_REQUEST_LINE_BYTES`].
    pub fn default() -> (a: Self)
        ensures
            a.wf(),
            a.pending() == Seq::<u8>::empty(),
            a.max_line() == MAX_REQUEST_LINE_BYTES,
            !a.is_poisoned(),
    {
        JsonLineAccumulator::new(MAX_REQUEST_LINE_BYTES)
    }

    pub fn buffered_bytes(&self) -> (n: usize)
        ensures
            n == self.pending().len(),
    {
        self.buffer.len()
    }

    fn limit_error(max: usize) -> (e: ProtocolError)
        ensures
            error_is(e, line_limit_spec(max as nat)),
    {
        let mut fields: Vec<(String, DetailValue)> = Vec::new();
        fields.push(text_field("kind", String::from_str("request_line_bytes")));
        fields.push(text_field("limit", u64_decimal(max as u64)));
        fields.push(text_field("actual", crate::text::u128_decimal(max as u128 + 1)));
        let details = ErrorDetails { fields };
        assert(details_view(details) =~= line_limit_spec(max as nat).2);
        ProtocolError::new(
            ProtocolErrorCode::LimitExceeded,
            String::from_str("request line exceeds configured byte limit"),
            details,
            false,
        )
    }

    /// Feed bytes; returns the complete lines they finish, in order.
    pub fn push(&mut self, bytes: &[u8]) -> (r: Result<Vec<String>, ProtocolError>)
        requires
            old(self).wf(),
        ensures
            final(self).wf(),
            final(self).max_line() == old(self).max_line(),
            old(self).is_poisoned() ==> {
                &&& r matches Err(e) && error_is(e, bad("JSON line accumulator is poisoned"@))
                &&& final(self).pending() == old(self).pending()
                &&& final(self).is_poisoned()
            },
            !old(self).is_poisoned() ==> {
                let outcome = accumulate_lines(old(self).pending(), bytes@, old(self).max_line());
                match outcome.2 {
                    None => {
                        &&& r matches Ok(lines) && lines@.map_values(|l: String| l@) == outcome.1
                        &&& final(self).pending() == outcome.0
                        &&& !final(self).is_poisoned()
                    },
                    Some(LineFailure::Oversize) => {
                        &&& r matches Err(e) && error_is(e, line_limit_spec(old(self).max_line()))
                        &&& final(self).pending() == Seq::<u8>::empty()
                        &&& final(self).is_poisoned()
                    },
                    Some(LineFailure::InvalidUtf8) => {
                        &&& r matches Err(e) && error_is(
                            e,
                            bad("request line is not valid UTF-8"@),
                        )
                        &&& final(self).pending() == Seq::<u8>::empty()
                        &&& final(self).is_poisoned()
                    },
                }
            },
    {
        if self.poisoned {
            return Err(ProtocolError::bad_request("JSON line accumulator is poisoned"));
        }
        let ghost start = self.buffer@;
        let ghost max = self.max_line_bytes as nat;
        let mut lines: Vec<String> = Vec::new();
        let mut i: usize = 0;
        while i < bytes.len()
            invariant
                i <= bytes.len(),
                !self.poisoned,
                !old(self).poisoned,
                old(self).max_line_bytes == max,
                old(self).buffer@ == start,
                self.max_line_bytes == max,
                max > 0,
                self.buffer@.len() < max,
                accumulate_lines(start, bytes@.take(i as int), max) == (
                    self.buffer@,
                    lines@.map_values(|l: String| l@),
                    None::<LineFailure>,
                ),
            decreases bytes.len() - i,
        {
            let byte = bytes[i];
            assert(bytes@.take(i + 1).drop_last() == bytes@.take(i as int));
            assert(bytes@.take(i + 1).last() == byte);
            if byte == 10u8 {
                if self.buffer.len() + 1 > self.max_line_bytes {
                    self.buffer = Vec::new();
                    self.poisoned = true;
                    proof {
                        lemma_accumulate_stops(start, bytes@, (i + 1) as int, max);
                    }
                    return Err(JsonLineAccumulator::limit_error(self.max_line_bytes));
                }
                let ghost pending = self.buffer@;
                let mut frame: Vec<u8> = Vec::new();
                std::mem::swap(&mut frame, &mut self.buffer);
                assert(frame@ == pending);
                assert(self.max_line_bytes == max);
                match decode_utf8_bytes(frame) {
                    Some(text) => {
                        lines.push(text);
                        proof {
                            assert(lines@.map_values(|l: String| l@) =~= accumulate_lines(
                                start,
                                bytes@.take(i + 1),
                                max,
                            ).1);
                        }
                    },
                    None => {
                        self.poisoned = true;
                        proof {
                            lemma_accumulate_stops(start, bytes@, (i + 1) as int, max);
                        }
                        return Err(ProtocolError::bad_request("request line is not valid UTF-8"));
                    },
                }
            } else {
                if self.buffer.len() >= self.max_line_bytes - 1 {
                    self.buffer = Vec::new();
                    self.poisoned = true;
                    proof {
                        lemma_accumulate_stops(start, bytes@, (i + 1) as int, max);
                    }
                    return Err(JsonLineAccumulator::limit_error(self.max_line_bytes));
                }
                self.buffer.push(byte);
            }
            i = i + 1;
        }
        assert(bytes@.take(bytes@.len() as int) == bytes@);
        Ok(lines)
    }
}

/// Feeding bytes in two pushes is feeding them in one (the model of
/// [`JsonLineAccumulator::push`]): after `x` (which did not fail), `y` read
/// from what `x` left pending adds its lines after those of `x`, and ends,
/// pending bytes and failure included, as reading `x` followed by `y` at
/// once.
pub proof fn law_accumulate_concat(start: Seq<u8>, x: Seq<u8>, y: Seq<u8>, max: nat)
    requires
        accumulate_lines(start, x, max).2 is None,
    ensures
        ({
            let a = accumulate_lines(start, x, max);
            let b = accumulate_lines(a.0, y, max);
            accumulate_lines(start, x + y, max) == (b.0, a.1 + b.1, b.2)
        }),
    decreases y.len(),
{
    let a = accumulate_lines(start, x, max);
    if y.len() == 0 {
        assert(x + y =~= x);
        assert(a.1 + Seq::<Seq<char>>::empty() =~= a.1);
    } else {
        let yp = y.drop_last();
        law_accumulate_concat(start, x, yp, max);
        assert((x + y).drop_last() =~= x + yp);
        assert((x + y).last() == y.last());
        let bp = accumulate_lines(a.0, yp, max);
        if bp.2 is None {
            if y.last() == 10u8 && bp.0.len() + 1 <= max {
                if let Some(text) = utf8_decoded(bp.0) {
                    assert((a.1 + bp.1).push(text) =~= a.1 + bp.1.push(text));
                }
            }
        }
    }
}

/// Once accumulation fails, later input leaves the outcome unchanged: a
/// connection whose framing failed stays failed.
pub proof fn lemma_accumulate_stops(start: Seq<u8>, bytes: Seq<u8>, k: int, max: nat)
    requires
        0 <= k <= bytes.len(),
        accumulate_lines(start, bytes.take(k), max).2 is Some,
    ensures
        accumulate_lines(start, bytes, max) == accumulate_lines(start, bytes.take(k), max),
    decreases bytes.len() - k,
{
    if k < bytes.len() {
        assert(bytes.drop_last().take(k) == bytes.take(k));
        lemma_accumulate_stops(start, bytes.drop_last(), k, max);
    } else {
        assert(bytes.take(k) == bytes);
    }
}


/// A JSON number as the request parser reports it.
#[derive(Debug, Clone)]
pub enum JsonNumber {
    /// A non-negative integer.
    Unsigned(u64),
    /// A negative integer.
    Negative(i64),
    /// Any other number, by its text.
    Fractional(String),
}

/// A parsed JSON value; objects keep their entries in the parser's order.
#[derive(Debug)]
pub enum JsonValue {
    Null,
    Bool(bool),
    Number(JsonNumber),
    String(String),
    Array(Vec<JsonValue>),
    Object(Vec<(String, JsonValue)>),
}

#[derive(Debug, Clone, PartialEq, Eq)]
pub struct ListParams {
    pub filter: Option<String>,
    pub max_rows: Option<u64>,
    pub max_response_bytes: Option<u64>,
    pub timeout_ms: Option<u64>,
}

#[derive(Debug, Clone, Copy, PartialEq, Eq, Structural)]
pub struct MetadataParams {
    pub timeout_ms: Option<u64>,
    pub max_commands: Option<u64>,
}

#[derive(Debug, Clone, PartialEq, Eq)]
pub struct ExtractParams {
    pub signals: Vec<String>,
    pub start: Option<u64>,
    pub end: Option<u64>,
    pub max_rows: Option<u64>,
    pub max_response_bytes: Option<u64>,
    pub max_commands: Option<u64>,
    pub timeout_ms: Option<u64>,
}

#[derive(Debug, Clone, PartialEq, Eq)]
pub struct FindParams {
    pub signal: String,
    pub value: String,
    pub occurrence: usize,
    pub start: Option<u64>,
    pub end: Option<u64>,
    pub max_commands: Option<u64>,
    pub max_response_bytes: Option<u64>,
    pub timeout_ms: Option<u64>,
}

#[derive(Debug, Clone, PartialEq, Eq)]
pub struct TogglesParams {
    pub signals: Vec<String>,
    pub start: Option<u64>,
    pub end: Option<u64>,
    pub max_commands: Option<u64>,
    pub max_response_bytes: Option<u64>,
    pub timeout_ms: Option<u64>,
}

#[derive(Debug, Clone, PartialEq, Eq)]
pub struct CancelParams {
    pub request_id: String,
}

/// A request method with its validated parameters.
#[derive(Debug, Clone, PartialEq, Eq)]
pub enum RequestMethod {
    Ping,
    Describe,
    List(ListParams),
    Metadata(MetadataParams),
    Extract(ExtractParams),
    Find(FindParams),
    Toggles(TogglesParams),
    Cancel(CancelParams),
}

pub open spec fn method_name_text(m: RequestMethod) -> Seq<char> {
    match m {
        RequestMethod::Ping => "ping"@,
        RequestMethod::Describe => "describe"@,
        RequestMethod::List(_) => "list"@,
        RequestMethod::Metadata(_) => "metadata"@,
        RequestMethod::Extract(_) => "extract"@,
        RequestMethod::Find(_) => "find"@,
        RequestMethod::Toggles(_) => "toggles"@,
        RequestMethod::Cancel(_) => "cancel"@,
    }
}

impl RequestMethod {
    /// The method's wire name.
    pub fn name(&self) -> (s: &'static str)
        ensures
            s@ == method_name_text(*self),
    {
        match self {
            RequestMethod::Ping => "ping",
            RequestMethod::Describe => "describe",
            RequestMethod::List(_) => "list",
            RequestMethod::Metadata(_) => "metadata",
            RequestMethod::Extract(_) => "extract",
            RequestMethod::Find(_) => "find",
            RequestMethod::Toggles(_) => "toggles",
            RequestMethod::Cancel(_) => "cancel",
        }
    }
}

/// A decoded request.
#[derive(Debug, Clone, PartialEq, Eq)]
pub struct Request {
    pub id: String,
    pub method: RequestMethod,
}

/// Mathematical form of a string list.
pub open spec fn strings_view(v: Seq<String>) -> Seq<Seq<char>> {
    v.map_values(|s: String| s@)
}

/// Mathematical form of decoded method parameters.
pub enum MethodSpec {
    Ping,
    Describe,
    List { filter: Option<Seq<char>>, max_rows: Option<u64>, max_response_bytes: Option<u64>, timeout_ms: Option<u64> },
    Metadata { timeout_ms: Option<u64>, max_commands: Option<u64> },
    Extract {
        signals: Seq<Seq<char>>,
        start: Option<u64>,
        end: Option<u64>,
        max_rows: Option<u64>,
        max_response_bytes: Option<u64>,
        max_commands: Option<u64>,
        timeout_ms: Option<u64>,
    },
    Find {
        signal: Seq<char>,
        value: Seq<char>,
        occurrence: usize,
        start: Option<u64>,
        end: Option<u64>,
        max_commands: Option<u64>,
        max_response_bytes: Option<u64>,
        timeout_ms: Option<u64>,
    },
    Toggles {
        signals: Seq<Seq<char>>,
        start: Option<u64>,
        end: Option<u64>,
        max_commands: Option<u64>,
        max_response_bytes: Option<u64>,
        timeout_ms: Option<u64>,
    },
    Cancel { request_id: Seq<char> },
}

pub open spec fn opt_string_view(o: Option<String>) -> Option<Seq<char>> {
    match o {
        Some(s) => Some(s@),
        None => None,
    }
}

/// Mathematical form of a method.
pub open spec fn method_view(m: RequestMethod) -> MethodSpec {
    match m {
        RequestMethod::Ping => MethodSpec::Ping,
        RequestMethod::Describe => MethodSpec::Describe,
        RequestMethod::List(p) => MethodSpec::List {
            filter: opt_string_view(p.filter),
            max_rows: p.max_rows,
            max_response_bytes: p.max_response_bytes,
            timeout_ms: p.timeout_ms,
        },
        RequestMethod::Metadata(p) => MethodSpec::Metadata {
            timeout_ms: p.timeout_ms,
            max_commands: p.max_commands,
        },
        RequestMethod::Extract(p) => MethodSpec::Extract {
            signals: strings_view(p.signals@),
            start: p.start,
            end: p.end,
            max_rows: p.max_rows,
            max_response_bytes: p.max_response_bytes,
            max_commands: p.max_commands,
            timeout_ms: p.timeout_ms,
        },
        RequestMethod::Find(p) => MethodSpec::Find {
            signal: p.signal@,
            value: p.value@,
            occurrence: p.occurrence,
            start: p.start,
            end: p.end,
            max_commands: p.max_commands,
            max_response_bytes: p.max_response_bytes,
            timeout_ms: p.timeout_ms,
        },
        RequestMethod::Toggles(p) => MethodSpec::Toggles {
            signals: strings_view(p.signals@),
            start: p.start,
            end: p.end,
            max_commands: p.max_commands,
            max_response_bytes: p.max_response_bytes,
            timeout_ms: p.timeout_ms,
        },
        RequestMethod::Cancel(p) => MethodSpec::Cancel { request_id: p.request_id@ },
    }
}

/// First entry of an object with this key.
pub open spec fn field_of(obj: Seq<(String, JsonValue)>, key: Seq<char>) -> Option<JsonValue>
    decreases obj.len(),
{
    if obj.len() == 0 {
        None
    } else if obj[0].0@ == key {
        Some(obj[0].1)
    } else {
        field_of(obj.drop_first(), key)
    }
}

/// Sequencing of fallible decoding steps: the first error wins.
pub open spec fn and_then<A, B>(r: Result<A, ErrorSpec>, f: spec_fn(A) -> Result<B, ErrorSpec>) -> Result<B, ErrorSpec> {
    match r {
        Ok(a) => f(a),
        Err(e) => Err(e),
    }
}

pub open spec fn required_field(obj: Seq<(String, JsonValue)>, key: Seq<char>) -> Result<JsonValue, ErrorSpec> {
    match field_of(obj, key) {
        Some(v) => Ok(v),
        None => Err(bad("missing required field "@ + key)),
    }
}

pub open spec fn string_field(obj: Seq<(String, JsonValue)>, key: Seq<char>) -> Result<Seq<char>, ErrorSpec> {
    and_then(
        required_field(obj, key),
        |v: JsonValue|
            match v {
                JsonValue::String(s) => Ok(s@),
                _ => Err(bad(key + " must be a string"@)),
            },
    )
}

pub open spec fn opt_string_field(obj: Seq<(String, JsonValue)>, key: Seq<char>) -> Result<Option<Seq<char>>, ErrorSpec> {
    match field_of(obj, key) {
        None => Ok(None),
        Some(JsonValue::String(s)) => Ok(Some(s@)),
        Some(_) => Err(bad(key + " must be a string"@)),
    }
}

/// Non-empty, ASCII digits only, and no leading zero unless it is `0`.
pub open spec fn canonical_decimal(s: Seq<char>) -> bool {
    &&& s.len() > 0
    &&& forall|i: int| 0 <= i < s.len() ==> '0' <= #[trigger] s[i] <= '9'
    &&& !(s.len() > 1 && s[0] == '0')
}

pub open spec fn decimal_u64_spec(s: Seq<char>, field: Seq<char>) -> Result<u64, ErrorSpec> {
    if !canonical_decimal(s) {
        Err(bad(field + " must be a canonical unsigned decimal string"@))
    } else if crate::text::digits_value(s, 10) > u64::MAX {
        Err(bad(field + " overflows u64"@))
    } else {
        Ok(crate::text::digits_value(s, 10) as u64)
    }
}

pub open spec fn decimal_u128_spec(s: Seq<char>, field: Seq<char>) -> Result<u128, ErrorSpec> {
    if !canonical_decimal(s) {
        Err(bad(field + " must be a canonical unsigned decimal string"@))
    } else if crate::text::digits_value(s, 10) > u128::MAX {
        Err(bad(field + " overflows u128"@))
    } else {
        Ok(crate::text::digits_value(s, 10) as u128)
    }
}

pub open spec fn decimal_usize_spec(s: Seq<char>, field: Seq<char>) -> Result<usize, ErrorSpec> {
    and_then(
        decimal_u64_spec(s, field),
        |n: u64|
            if n > usize::MAX {
                Err(bad(field + " overflows usize"@))
            } else {
                Ok(n as usize)
            },
    )
}

pub open spec fn opt_decimal_field(obj: Seq<(String, JsonValue)>, key: Seq<char>) -> Result<Option<u64>, ErrorSpec> {
    match field_of(obj, key) {
        None => Ok(None),
        Some(JsonValue::String(s)) => and_then(decimal_u64_spec(s@, key), |n: u64| Ok(Some(n))),
        Some(_) => Err(bad(key + " must be a decimal string"@)),
    }
}

pub open spec fn opt_usize_field(obj: Seq<(String, JsonValue)>, key: Seq<char>) -> Result<Option<usize>, ErrorSpec> {
    match field_of(obj, key) {
        None => Ok(None),
        Some(JsonValue::String(s)) => and_then(decimal_usize_spec(s@, key), |n: usize| Ok(Some(n))),
        Some(_) => Err(bad(key + " must be a decimal string"@)),
    }
}

/// Every element of `items` is a JSON string.
pub open spec fn all_strings(items: Seq<JsonValue>) -> bool {
    forall|i: int| 0 <= i < items.len() ==> #[trigger] items[i] is String
}

pub open spec fn string_items(items: Seq<JsonValue>) -> Seq<Seq<char>> {
    items.map_values(|v: JsonValue| match v {
        JsonValue::String(s) => s@,
        _ => Seq::empty(),
    })
}

pub open spec fn strings_field(obj: Seq<(String, JsonValue)>, key: Seq<char>) -> Result<Seq<Seq<char>>, ErrorSpec> {
    and_then(
        required_field(obj, key),
        |v: JsonValue|
            match v {
                JsonValue::Array(items) => if all_strings(items@) {
                    Ok(string_items(items@))
                } else {
                    Err(bad(key + " entries must be strings"@))
                },
                _ => Err(bad(key + " must be an array"@)),
            },
    )
}

/// Index of the first entry whose key is not in `known`, if any.
pub open spec fn first_unknown(obj: Seq<(String, JsonValue)>, known: Seq<Seq<char>>) -> Option<Seq<char>>
    decreases obj.len(),
{
    if obj.len() == 0 {
        None
    } else if !known.contains(obj[0].0@) {
        Some(obj[0].0@)
    } else {
        first_unknown(obj.drop_first(), known)
    }
}

pub open spec fn no_unknown(obj: Seq<(String, JsonValue)>, known: Seq<Seq<char>>) -> Result<(), ErrorSpec> {
    match first_unknown(obj, known) {
        Some(key) => Err(bad("unknown method parameter "@ + key)),
        None => Ok(()),
    }
}

pub open spec fn signals_valid(signals: Seq<Seq<char>>) -> Result<(), ErrorSpec> {
    if signals.len() == 0 {
        Err(bad("signals must not be empty"@))
    } else if exists|i: int| 0 <= i < signals.len() && (#[trigger] signals[i]).len() == 0 {
        Err(bad("signal names must not be empty"@))
    } else {
        Ok(())
    }
}

pub open spec fn window_valid(start: Option<u64>, end: Option<u64>) -> Result<(), ErrorSpec> {
    match (start, end) {
        (Some(s), Some(e)) => if s > e {
            Err(invalid_window_spec())
        } else {
            Ok(())
        },
        _ => Ok(()),
    }
}

pub open spec fn response_limit_valid(limit: Option<u64>) -> Result<(), ErrorSpec> {
    match limit {
        Some(l) => if l < TERMINAL_FRAME_RESERVE_BYTES {
            Err(bad("max_response_bytes must reserve at least 4096 terminal bytes"@))
        } else {
            Ok(())
        },
        None => Ok(()),
    }
}

pub open spec fn request_id_valid(id: Seq<char>) -> Result<(), ErrorSpec> {
    if id.len() == 0 {
        Err(bad("request ID must not be empty"@))
    } else if utf8_len(id) > MAX_REQUEST_ID_BYTES {
        Err(bad("request ID exceeds 128 bytes"@))
    } else {
        Ok(())
    }
}


pub open spec fn list_fields() -> Seq<Seq<char>> {
    seq!["filter"@, "max_rows"@, "max_response_bytes"@, "timeout_ms"@]
}

pub open spec fn metadata_fields() -> Seq<Seq<char>> {
    seq!["timeout_ms"@, "max_commands"@]
}

pub open spec fn extract_fields() -> Seq<Seq<char>> {
    seq![
        "signals"@,
        "start"@,
        "end"@,
        "max_rows"@,
        "max_response_bytes"@,
        "max_commands"@,
        "timeout_ms"@,
    ]
}

pub open spec fn find_fields() -> Seq<Seq<char>> {
    seq![
        "signal"@,
        "occurrence"@,
        "value"@,
        "start"@,
        "end"@,
        "max_commands"@,
        "max_response_bytes"@,
        "timeout_ms"@,
    ]
}

pub open spec fn toggles_fields() -> Seq<Seq<char>> {
    seq![
        "signals"@,
        "start"@,
        "end"@,
        "max_commands"@,
        "max_response_bytes"@,
        "timeout_ms"@,
    ]
}

/// The optional decimal fields `keys`, read in order; the first error wins.
pub open spec fn opt_decimals(obj: Seq<(String, JsonValue)>, keys: Seq<Seq<char>>) -> Result<Seq<Option<u64>>, ErrorSpec>
    decreases keys.len(),
{
    if keys.len() == 0 {
        Ok(Seq::empty())
    } else {
        and_then(
            opt_decimals(obj, keys.drop_last()),
            |prefix: Seq<Option<u64>>|
                and_then(
                    opt_decimal_field(obj, keys.last()),
                    |v: Option<u64>| Ok(prefix.push(v)),
                ),
        )
    }
}

pub open spec fn list_numbers() -> Seq<Seq<char>> {
    seq!["max_rows"@, "max_response_bytes"@, "timeout_ms"@]
}

pub open spec fn extract_numbers() -> Seq<Seq<char>> {
    seq!["start"@, "end"@, "max_rows"@, "max_response_bytes"@, "max_commands"@, "timeout_ms"@]
}

/// Numeric fields of `find` and `toggles`, in the order they are read.
pub open spec fn scan_numbers() -> Seq<Seq<char>> {
    seq!["start"@, "end"@, "max_commands"@, "max_response_bytes"@, "timeout_ms"@]
}

/// Unknown fields, then the window, then the response limit.
pub open spec fn tail_checks(obj: Seq<(String, JsonValue)>, known: Seq<Seq<char>>, start: Option<u64>, end: Option<u64>, limit: Option<u64>) -> Result<(), ErrorSpec> {
    and_then(
        no_unknown(obj, known),
        |_u: ()| and_then(window_valid(start, end), |_w: ()| response_limit_valid(limit)),
    )
}

pub open spec fn list_spec(obj: Seq<(String, JsonValue)>) -> Result<MethodSpec, ErrorSpec> {
    and_then(opt_string_field(obj, "filter"@), |filter: Option<Seq<char>>|
    and_then(opt_decimals(obj, list_numbers()), |n: Seq<Option<u64>>|
    and_then(tail_checks(obj, list_fields(), None, None, n[1]), |_t: ()|
        Ok(MethodSpec::List { filter, max_rows: n[0], max_response_bytes: n[1], timeout_ms: n[2] }))))
}

pub open spec fn metadata_spec(obj: Seq<(String, JsonValue)>) -> Result<MethodSpec, ErrorSpec> {
    and_then(opt_decimals(obj, metadata_fields()), |n: Seq<Option<u64>>|
    and_then(no_unknown(obj, metadata_fields()), |_u: ()|
        Ok(MethodSpec::Metadata { timeout_ms: n[0], max_commands: n[1] })))
}

/// A required, valid list of signal names.
pub open spec fn signals_spec(obj: Seq<(String, JsonValue)>) -> Result<Seq<Seq<char>>, ErrorSpec> {
    and_then(strings_field(obj, "signals"@), |signals: Seq<Seq<char>>|
    and_then(signals_valid(signals), |_s: ()| Ok(signals)))
}

pub open spec fn extract_spec(obj: Seq<(String, JsonValue)>) -> Result<MethodSpec, ErrorSpec> {
    and_then(signals_spec(obj), |signals: Seq<Seq<char>>|
    and_then(opt_decimals(obj, extract_numbers()), |n: Seq<Option<u64>>|
    and_then(tail_checks(obj, extract_fields(), n[0], n[1], n[3]), |_t: ()|
        Ok(MethodSpec::Extract {
            signals,
            start: n[0],
            end: n[1],
            max_rows: n[2],
            max_response_bytes: n[3],
            max_commands: n[4],
            timeout_ms: n[5],
        }))))
}

/// The searched signal (non-empty) and occurrence (at least one, by default one).
pub open spec fn find_target(obj: Seq<(String, JsonValue)>) -> Result<(Seq<char>, usize), ErrorSpec> {
    and_then(string_field(obj, "signal"@), |signal: Seq<char>|
        if signal.len() == 0 {
            Err(bad("signal must not be empty"@))
        } else {
            and_then(opt_usize_field(obj, "occurrence"@), |o: Option<usize>|
                match o {
                    Some(n) => if n == 0 {
                        Err(invalid_occurrence_spec())
                    } else {
                        Ok((signal, n))
                    },
                    None => Ok((signal, 1usize)),
                })
        })
}

pub open spec fn find_spec(obj: Seq<(String, JsonValue)>) -> Result<MethodSpec, ErrorSpec> {
    and_then(find_target(obj), |target: (Seq<char>, usize)|
    and_then(string_field(obj, "value"@), |value: Seq<char>|
    and_then(opt_decimals(obj, scan_numbers()), |n: Seq<Option<u64>>|
    and_then(tail_checks(obj, find_fields(), n[0], n[1], n[3]), |_t: ()|
        Ok(MethodSpec::Find {
            signal: target.0,
            value,
            occurrence: target.1,
            start: n[0],
            end: n[1],
            max_commands: n[2],
            max_response_bytes: n[3],
            timeout_ms: n[4],
        })))))
}

pub open spec fn toggles_spec(obj: Seq<(String, JsonValue)>) -> Result<MethodSpec, ErrorSpec> {
    and_then(signals_spec(obj), |signals: Seq<Seq<char>>|
    and_then(opt_decimals(obj, scan_numbers()), |n: Seq<Option<u64>>|
    and_then(tail_checks(obj, toggles_fields(), n[0], n[1], n[3]), |_t: ()|
        Ok(MethodSpec::Toggles {
            signals,
            start: n[0],
            end: n[1],
            max_commands: n[2],
            max_response_bytes: n[3],
            timeout_ms: n[4],
        }))))
}

pub open spec fn cancel_spec(obj: Seq<(String, JsonValue)>) -> Result<MethodSpec, ErrorSpec> {
    and_then(string_field(obj, "request_id"@), |request_id: Seq<char>|
    and_then(request_id_valid(request_id), |_i: ()|
    and_then(no_unknown(obj, seq!["request_id"@]), |_u: ()|
        Ok(MethodSpec::Cancel { request_id }))))
}

/// What decoding a method name and its parameters object yields.
pub open spec fn method_spec(name: Seq<char>, obj: Seq<(String, JsonValue)>) -> Result<MethodSpec, ErrorSpec> {
    if name == "ping"@ {
        and_then(no_unknown(obj, Seq::empty()), |_u: ()| Ok(MethodSpec::Ping))
    } else if name == "describe"@ {
        and_then(no_unknown(obj, Seq::empty()), |_u: ()| Ok(MethodSpec::Describe))
    } else if name == "list"@ {
        list_spec(obj)
    } else if name == "metadata"@ {
        metadata_spec(obj)
    } else if name == "extract"@ {
        extract_spec(obj)
    } else if name == "find"@ {
        find_spec(obj)
    } else if name == "toggles"@ {
        toggles_spec(obj)
    } else if name == "cancel"@ {
        cancel_spec(obj)
    } else {
        Err(unknown_method_spec(name))
    }
}

/// The method name of a decoded method.
pub open spec fn method_spec_name(m: MethodSpec) -> Seq<char> {
    match m {
        MethodSpec::Ping => "ping"@,
        MethodSpec::Describe => "describe"@,
        MethodSpec::List { .. } => "list"@,
        MethodSpec::Metadata { .. } => "metadata"@,
        MethodSpec::Extract { .. } => "extract"@,
        MethodSpec::Find { .. } => "find"@,
        MethodSpec::Toggles { .. } => "toggles"@,
        MethodSpec::Cancel { .. } => "cancel"@,
    }
}

/// A method decodes only under its own name, and a decoded request's
/// method reports that name: `name()` of a decoded request is the method
/// string it was decoded from.
pub proof fn law_method_name_round_trip(name: Seq<char>, obj: Seq<(String, JsonValue)>, m: RequestMethod)
    requires
        method_spec(name, obj) == Ok::<MethodSpec, ErrorSpec>(method_view(m)),
    ensures
        method_spec_name(method_spec(name, obj)->Ok_0) == name,
        method_name_text(m) == name,
{
    assert(method_spec_name(method_view(m)) == method_name_text(m));
}

pub open spec fn object_entries(v: JsonValue, name: Seq<char>) -> Result<Seq<(String, JsonValue)>, ErrorSpec> {
    match v {
        JsonValue::Object(entries) => Ok(entries@),
        _ => Err(bad(name + " must be an object"@)),
    }
}

pub open spec fn version_valid(v: JsonValue) -> Result<(), ErrorSpec> {
    match v {
        JsonValue::Number(JsonNumber::Unsigned(n)) => if n == PROTOCOL_VERSION {
            Ok(())
        } else {
            Err(unsupported_version_spec())
        },
        JsonValue::Number(_) => Err(unsupported_version_spec()),
        _ => Err(bad("v must be JSON number 1"@)),
    }
}

/// Version, then a valid id, then the method name.
pub open spec fn envelope_head(env: Seq<(String, JsonValue)>) -> Result<(Seq<char>, Seq<char>), ErrorSpec> {
    and_then(required_field(env, "v"@), |version: JsonValue|
    and_then(version_valid(version), |_v: ()|
    and_then(string_field(env, "id"@), |id: Seq<char>|
    and_then(request_id_valid(id), |_i: ()|
    and_then(string_field(env, "method"@), |name: Seq<char>| Ok((id, name)))))))
}

/// What decoding a parsed request envelope yields: its id and method.
pub open spec fn request_spec(value: JsonValue) -> Result<(Seq<char>, MethodSpec), ErrorSpec> {
    and_then(object_entries(value, "request envelope"@), |env: Seq<(String, JsonValue)>|
    and_then(envelope_head(env), |head: (Seq<char>, Seq<char>)|
    and_then(required_field(env, "params"@), |params_value: JsonValue|
    and_then(object_entries(params_value, "params"@), |params: Seq<(String, JsonValue)>|
    and_then(method_spec(head.1, params), |method: MethodSpec| Ok((head.0, method)))))))
}

/// The `"method"` string of an envelope object, when it has one.
pub open spec fn envelope_method(value: JsonValue) -> Option<Seq<char>> {
    match value {
        JsonValue::Object(entries) => match string_field(entries@, "method"@) {
            Ok(name) => Some(name),
            Err(_) => None,
        },
        _ => None,
    }
}

/// A request decoded from an envelope reports, through `name()`, the
/// envelope's `"method"` string.
pub proof fn law_decoded_method_name(value: JsonValue, r: Request)
    requires
        request_outcome_is(Ok::<Request, ProtocolError>(r), request_spec(value)),
    ensures
        envelope_method(value) == Some(method_name_text(r.method)),
{
    let env = object_entries(value, "request envelope"@)->Ok_0;
    let head = envelope_head(env)->Ok_0;
    let params = object_entries(required_field(env, "params"@)->Ok_0, "params"@)->Ok_0;
    assert(string_field(env, "method"@) == Ok::<Seq<char>, ErrorSpec>(head.1));
    law_method_name_round_trip(head.1, params, r.method);
}

/// `r` is the outcome that `s` describes.
pub open spec fn outcome_is<T>(r: Result<T, ProtocolError>, s: Result<T, ErrorSpec>) -> bool {
    match (r, s) {
        (Ok(a), Ok(b)) => a == b,
        (Err(e), Err(es)) => error_is(e, es),
        _ => false,
    }
}

pub open spec fn string_outcome_is(r: Result<String, ProtocolError>, s: Result<Seq<char>, ErrorSpec>) -> bool {
    match (r, s) {
        (Ok(a), Ok(b)) => a@ == b,
        (Err(e), Err(es)) => error_is(e, es),
        _ => false,
    }
}

pub open spec fn method_outcome_is(r: Result<RequestMethod, ProtocolError>, s: Result<MethodSpec, ErrorSpec>) -> bool {
    match (r, s) {
        (Ok(a), Ok(b)) => method_view(a) == b,
        (Err(e), Err(es)) => error_is(e, es),
        _ => false,
    }
}

/// `r` is the decoding outcome that `s` describes.
pub open spec fn request_outcome_is(r: Result<Request, ProtocolError>, s: Result<(Seq<char>, MethodSpec), ErrorSpec>) -> bool {
    match (r, s) {
        (Ok(a), Ok(b)) => a.id@ == b.0 && method_view(a.method) == b.1,
        (Err(e), Err(es)) => error_is(e, es),
        _ => false,
    }
}


fn bad_request_error(message: String) -> (e: ProtocolError)
    ensures
        error_is(e, bad(message@)),
{
    ProtocolError::new(ProtocolErrorCode::BadRequest, message, empty_details(), false)
}

/// First entry of `obj` whose key is `key`.
fn find_field<'a>(obj: &'a Vec<(String, JsonValue)>, key: &str) -> (r: Option<&'a JsonValue>)
    ensures
        match r {
            Some(v) => field_of(obj@, key@) == Some(*v),
            None => field_of(obj@, key@) is None,
        },
{
    let wanted = String::from_str(key);
    let mut i: usize = 0;
    assert(obj@.skip(0) == obj@);
    while i < obj.len()
        invariant
            i <= obj.len(),
            wanted@ == key@,
            field_of(obj@, key@) == field_of(obj@.skip(i as int), key@),
        decreases obj.len() - i,
    {
        assert(obj@.skip(i as int)[0] == obj@[i as int]);
        assert(obj@.skip(i as int).drop_first() == obj@.skip(i + 1));
        if obj[i].0 == wanted {
            return Some(&obj[i].1);
        }
        i = i + 1;
    }
    None
}

fn take_required<'a>(obj: &'a Vec<(String, JsonValue)>, key: &str) -> (r: Result<&'a JsonValue, ProtocolError>)
    ensures
        match (r, required_field(obj@, key@)) {
            (Ok(a), Ok(b)) => *a == b,
            (Err(e), Err(es)) => error_is(e, es),
            _ => false,
        },
{
    match find_field(obj, key) {
        Some(v) => Ok(v),
        None => Err(bad_request_error(concat("missing required field ", key))),
    }
}

fn take_string(obj: &Vec<(String, JsonValue)>, key: &str) -> (r: Result<String, ProtocolError>)
    ensures
        string_outcome_is(r, string_field(obj@, key@)),
{
    match take_required(obj, key)? {
        JsonValue::String(value) => Ok(value.clone()),
        _ => Err(bad_request_error(concat(key, " must be a string"))),
    }
}

fn take_optional_string(obj: &Vec<(String, JsonValue)>, key: &str) -> (r: Result<Option<String>, ProtocolError>)
    ensures
        match (r, opt_string_field(obj@, key@)) {
            (Ok(a), Ok(b)) => opt_string_view(a) == b,
            (Err(e), Err(es)) => error_is(e, es),
            _ => false,
        },
{
    match find_field(obj, key) {
        None => Ok(None),
        Some(JsonValue::String(value)) => Ok(Some(value.clone())),
        Some(_) => Err(bad_request_error(concat(key, " must be a string"))),
    }
}

fn canonical_decimal_exec(s: &[char]) -> (b: bool)
    ensures
        b == canonical_decimal(s@),
{
    if s.len() == 0 {
        return false;
    }
    let mut i: usize = 0;
    while i < s.len()
        invariant
            i <= s.len(),
            forall|j: int| 0 <= j < i ==> '0' <= #[trigger] s@[j] <= '9',
        decreases s.len() - i,
    {
        if !('0' <= s[i] && s[i] <= '9') {
            return false;
        }
        i = i + 1;
    }
    !(s.len() > 1 && s[0] == '0')
}

/// Value of a canonical decimal string, when it fits in 128 bits.
fn canonical_value(s: &[char]) -> (r: Option<u128>)
    requires
        canonical_decimal(s@),
    ensures
        match r {
            Some(n) => n == crate::text::digits_value(s@, 10),
            None => crate::text::digits_value(s@, 10) > u128::MAX,
        },
{
    assert(crate::text::all_digits(s@, 10)) by {
        assert forall|i: int| 0 <= i < s@.len() implies (#[trigger] crate::text::digit_value(
            s@[i],
            10,
        )) is Some by {
            assert('0' <= s@[i] <= '9');
        }
    }
    assert(s@[0] != '+');
    crate::text::parse_u128_radix(s, 10)
}

/// Decimal wire numbers round-trip: reading the decimal spelling of any
/// number as a canonical decimal gives the number back.
pub proof fn law_decimal_round_trip(n: u64, field: Seq<char>)
    ensures
        decimal_u64_spec(crate::text::decimal_chars(n as nat), field) == Ok::<u64, ErrorSpec>(n),
{
    crate::text::lemma_decimal_chars(n as nat);
}

/// A decimal wire string that reads as a number is that number's decimal
/// spelling: canonical decimals print back as themselves.
pub proof fn law_canonical_decimal_prints_back(s: Seq<char>, field: Seq<char>)
    requires
        decimal_u64_spec(s, field) is Ok,
    ensures
        crate::text::decimal_chars(decimal_u64_spec(s, field)->Ok_0 as nat) == s,
{
    crate::text::lemma_canonical_decimal(s);
}

/// A canonical unsigned decimal string as `u64`.
pub fn parse_decimal_u64(value: &str, field: &str) -> (r: Result<u64, ProtocolError>)
    ensures
        outcome_is(r, decimal_u64_spec(value@, field@)),
{
    let chars = chars_of(value);
    if !canonical_decimal_exec(chars.as_slice()) {
        return Err(bad_request_error(concat(field, " must be a canonical unsigned decimal string")));
    }
    match canonical_value(chars.as_slice()) {
        Some(n) => if n <= u64::MAX as u128 {
            Ok(n as u64)
        } else {
            Err(bad_request_error(concat(field, " overflows u64")))
        },
        None => Err(bad_request_error(concat(field, " overflows u64"))),
    }
}

/// A canonical unsigned decimal string as `u128`.
pub fn parse_decimal_u128(value: &str, field: &str) -> (r: Result<u128, ProtocolError>)
    ensures
        outcome_is(r, decimal_u128_spec(value@, field@)),
{
    let chars = chars_of(value);
    if !canonical_decimal_exec(chars.as_slice()) {
        return Err(bad_request_error(concat(field, " must be a canonical unsigned decimal string")));
    }
    match canonical_value(chars.as_slice()) {
        Some(n) => Ok(n),
        None => Err(bad_request_error(concat(field, " overflows u128"))),
    }
}

/// A canonical unsigned decimal string as `usize`.
pub fn parse_decimal_usize(value: &str, field: &str) -> (r: Result<usize, ProtocolError>)
    ensures
        outcome_is(r, decimal_usize_spec(value@, field@)),
{
    let n = parse_decimal_u64(value, field)?;
    if n <= usize::MAX as u64 {
        Ok(n as usize)
    } else {
        Err(bad_request_error(concat(field, " overflows usize")))
    }
}

fn take_optional_decimal(obj: &Vec<(String, JsonValue)>, key: &str) -> (r: Result<Option<u64>, ProtocolError>)
    ensures
        outcome_is(r, opt_decimal_field(obj@, key@)),
{
    match find_field(obj, key) {
        None => Ok(None),
        Some(JsonValue::String(value)) => {
            let n = parse_decimal_u64(value.as_str(), key)?;
            Ok(Some(n))
        },
        Some(_) => Err(bad_request_error(concat(key, " must be a decimal string"))),
    }
}

fn take_optional_decimal_usize(obj: &Vec<(String, JsonValue)>, key: &str) -> (r: Result<Option<usize>, ProtocolError>)
    ensures
        outcome_is(r, opt_usize_field(obj@, key@)),
{
    match find_field(obj, key) {
        None => Ok(None),
        Some(JsonValue::String(value)) => {
            let n = parse_decimal_usize(value.as_str(), key)?;
            Ok(Some(n))
        },
        Some(_) => Err(bad_request_error(concat(key, " must be a decimal string"))),
    }
}

fn take_required_strings(obj: &Vec<(String, JsonValue)>, key: &str) -> (r: Result<Vec<String>, ProtocolError>)
    ensures
        match (r, strings_field(obj@, key@)) {
            (Ok(a), Ok(b)) => strings_view(a@) == b,
            (Err(e), Err(es)) => error_is(e, es),
            _ => false,
        },
{
    match take_required(obj, key)? {
        JsonValue::Array(values) => {
            let mut out: Vec<String> = Vec::new();
            let mut i: usize = 0;
            let ghost field = required_field(obj@, key@);
            while i < values.len()
                invariant
                    field == required_field(obj@, key@),
                    field == Ok::<JsonValue, ErrorSpec>(JsonValue::Array(*values)),
                    i <= values.len(),
                    out@.len() == i,
                    forall|j: int| 0 <= j < i ==> #[trigger] values@[j] is String,
                    forall|j: int| 0 <= j < i ==> (#[trigger] out@[j])@ == string_items(values@)[j],
                decreases values.len() - i,
            {
                match &values[i] {
                    JsonValue::String(value) => {
                        out.push(value.clone());
                    },
                    _ => {
                        assert(!(values@[i as int] is String));
                        assert(!all_strings(values@));
                        return Err(bad_request_error(concat(key, " entries must be strings")));
                    },
                }
                i = i + 1;
            }
            assert(strings_view(out@) =~= string_items(values@));
            Ok(out)
        },
        _ => Err(bad_request_error(concat(key, " must be an array"))),
    }
}

/// Whether `known` holds `key`.
fn known_holds(known: &[&str], key: &String) -> (b: bool)
    ensures
        b == known@.map_values(|k: &str| k@).contains(key@),
{
    let ghost names = known@.map_values(|k: &str| k@);
    let mut j: usize = 0;
    while j < known.len()
        invariant
            j <= known.len(),
            names == known@.map_values(|k: &str| k@),
            forall|m: int| 0 <= m < j ==> names[m] != key@,
        decreases known.len() - j,
    {
        let candidate = String::from_str(known[j]);
        if candidate == *key {
            assert(names[j as int] == key@);
            return true;
        }
        j = j + 1;
    }
    false
}

fn reject_unknown(obj: &Vec<(String, JsonValue)>, known: &[&str]) -> (r: Result<(), ProtocolError>)
    ensures
        outcome_is(r, no_unknown(obj@, known@.map_values(|k: &str| k@))),
{
    let ghost names = known@.map_values(|k: &str| k@);
    let mut i: usize = 0;
    assert(obj@.skip(0) == obj@);
    while i < obj.len()
        invariant
            i <= obj.len(),
            names == known@.map_values(|k: &str| k@),
            first_unknown(obj@, names) == first_unknown(obj@.skip(i as int), names),
        decreases obj.len() - i,
    {
        assert(obj@.skip(i as int)[0] == obj@[i as int]);
        assert(obj@.skip(i as int).drop_first() == obj@.skip(i + 1));
        if !known_holds(known, &obj[i].0) {
            return Err(bad_request_error(concat("unknown method parameter ", obj[i].0.as_str())));
        }
        i = i + 1;
    }
    Ok(())
}

fn validate_signals(signals: &Vec<String>) -> (r: Result<(), ProtocolError>)
    ensures
        outcome_is(r, signals_valid(strings_view(signals@))),
{
    if signals.len() == 0 {
        return Err(ProtocolError::bad_request("signals must not be empty"));
    }
    let mut i: usize = 0;
    while i < signals.len()
        invariant
            i <= signals.len(),
            forall|j: int| 0 <= j < i ==> (#[trigger] signals@[j])@.len() > 0,
        decreases signals.len() - i,
    {
        if signals[i].as_str().is_empty() {
            assert(strings_view(signals@)[i as int].len() == 0);
            return Err(ProtocolError::bad_request("signal names must not be empty"));
        }
        i = i + 1;
    }
    assert forall|j: int| 0 <= j < signals@.len() implies (#[trigger] strings_view(
        signals@,
    )[j]).len() != 0 by {
        assert(signals@[j]@.len() > 0);
    }
    Ok(())
}

fn validate_window(start: Option<u64>, end: Option<u64>) -> (r: Result<(), ProtocolError>)
    ensures
        outcome_is(r, window_valid(start, end)),
{
    match (start, end) {
        (Some(s), Some(e)) => if s > e {
            Err(ProtocolError::invalid_window())
        } else {
            Ok(())
        },
        _ => Ok(()),
    }
}

fn validate_response_limit(limit: Option<u64>) -> (r: Result<(), ProtocolError>)
    ensures
        outcome_is(r, response_limit_valid(limit)),
{
    match limit {
        Some(l) => if l < TERMINAL_FRAME_RESERVE_BYTES {
            Err(
                ProtocolError::bad_request(
                    "max_response_bytes must reserve at least 4096 terminal bytes",
                ),
            )
        } else {
            Ok(())
        },
        None => Ok(()),
    }
}

fn validate_request_id(id: &str) -> (r: Result<(), ProtocolError>)
    ensures
        outcome_is(r, request_id_valid(id@)),
{
    if id.is_empty() {
        return Err(ProtocolError::bad_request("request ID must not be empty"));
    }
    if byte_len(id) > MAX_REQUEST_ID_BYTES {
        return Err(ProtocolError::bad_request("request ID exceeds 128 bytes"));
    }
    Ok(())
}

/// The optional decimal fields `keys`, in order.
fn take_optional_decimals(obj: &Vec<(String, JsonValue)>, keys: &[&str]) -> (r: Result<Vec<Option<u64>>, ProtocolError>)
    ensures
        r matches Ok(v) ==> v@.len() == keys@.len(),
        match (r, opt_decimals(obj@, keys@.map_values(|k: &str| k@))) {
            (Ok(a), Ok(b)) => a@ == b,
            (Err(e), Err(es)) => error_is(e, es),
            _ => false,
        },
{
    let ghost names = keys@.map_values(|k: &str| k@);
    let mut out: Vec<Option<u64>> = Vec::new();
    let mut i: usize = 0;
    assert(names.take(0) =~= Seq::<Seq<char>>::empty());
    while i < keys.len()
        invariant
            i <= keys.len(),
            names == keys@.map_values(|k: &str| k@),
            opt_decimals(obj@, names.take(i as int)) == Ok::<Seq<Option<u64>>, ErrorSpec>(out@),
            out@.len() == i,
        decreases keys.len() - i,
    {
        assert(names.take(i + 1).drop_last() == names.take(i as int));
        assert(names.take(i + 1).last() == keys@[i as int]@);
        let value = take_optional_decimal(obj, keys[i]);
        match value {
            Ok(v) => {
                out.push(v);
            },
            Err(e) => {
                proof {
                    lemma_opt_decimals_err(obj@, names, (i + 1) as int);
                }
                return Err(e);
            },
        }
        i = i + 1;
    }
    assert(names.take(keys.len() as int) == names);
    Ok(out)
}

/// An error among the first fields is the error of all of them.
proof fn lemma_opt_decimals_err(obj: Seq<(String, JsonValue)>, keys: Seq<Seq<char>>, k: int)
    requires
        0 <= k <= keys.len(),
        opt_decimals(obj, keys.take(k)) is Err,
    ensures
        opt_decimals(obj, keys) == opt_decimals(obj, keys.take(k)),
    decreases keys.len() - k,
{
    if k < keys.len() {
        assert(keys.drop_last().take(k) == keys.take(k));
        lemma_opt_decimals_err(obj, keys.drop_last(), k);
    } else {
        assert(keys.take(k) == keys);
    }
}


fn parse_list(params: &Vec<(String, JsonValue)>) -> (r: Result<RequestMethod, ProtocolError>)
    ensures
        method_outcome_is(r, list_spec(params@)),
{
    let filter = take_optional_string(params, "filter")?;
    let keys: [&str; 3] = ["max_rows", "max_response_bytes", "timeout_ms"];
    assert(keys@.map_values(|k: &str| k@) =~= list_numbers());
    let n = take_optional_decimals(params, &keys)?;
    let known: [&str; 4] = ["filter", "max_rows", "max_response_bytes", "timeout_ms"];
    assert(known@.map_values(|k: &str| k@) =~= list_fields());
    reject_unknown(params, &known)?;
    validate_response_limit(n[1])?;
    Ok(
        RequestMethod::List(
            ListParams { filter, max_rows: n[0], max_response_bytes: n[1], timeout_ms: n[2] },
        ),
    )
}

fn parse_metadata(params: &Vec<(String, JsonValue)>) -> (r: Result<RequestMethod, ProtocolError>)
    ensures
        method_outcome_is(r, metadata_spec(params@)),
{
    let keys: [&str; 2] = ["timeout_ms", "max_commands"];
    assert(keys@.map_values(|k: &str| k@) =~= metadata_fields());
    let n = take_optional_decimals(params, &keys)?;
    reject_unknown(params, &keys)?;
    Ok(RequestMethod::Metadata(MetadataParams { timeout_ms: n[0], max_commands: n[1] }))
}

fn take_signals(params: &Vec<(String, JsonValue)>) -> (r: Result<Vec<String>, ProtocolError>)
    ensures
        match (r, signals_spec(params@)) {
            (Ok(a), Ok(b)) => strings_view(a@) == b,
            (Err(e), Err(es)) => error_is(e, es),
            _ => false,
        },
{
    let signals = take_required_strings(params, "signals")?;
    validate_signals(&signals)?;
    Ok(signals)
}

fn parse_extract(params: &Vec<(String, JsonValue)>) -> (r: Result<RequestMethod, ProtocolError>)
    ensures
        method_outcome_is(r, extract_spec(params@)),
{
    let signals = take_signals(params)?;
    let keys: [&str; 6] = [
        "start",
        "end",
        "max_rows",
        "max_response_bytes",
        "max_commands",
        "timeout_ms",
    ];
    assert(keys@.map_values(|k: &str| k@) =~= extract_numbers());
    let n = take_optional_decimals(params, &keys)?;
    let known: [&str; 7] = [
        "signals",
        "start",
        "end",
        "max_rows",
        "max_response_bytes",
        "max_commands",
        "timeout_ms",
    ];
    assert(known@.map_values(|k: &str| k@) =~= extract_fields());
    reject_unknown(params, &known)?;
    validate_window(n[0], n[1])?;
    validate_response_limit(n[3])?;
    Ok(
        RequestMethod::Extract(
            ExtractParams {
                signals,
                start: n[0],
                end: n[1],
                max_rows: n[2],
                max_response_bytes: n[3],
                max_commands: n[4],
                timeout_ms: n[5],
            },
        ),
    )
}

fn take_find_target(params: &Vec<(String, JsonValue)>) -> (r: Result<(String, usize), ProtocolError>)
    ensures
        match (r, find_target(params@)) {
            (Ok(a), Ok(b)) => a.0@ == b.0 && a.1 == b.1,
            (Err(e), Err(es)) => error_is(e, es),
            _ => false,
        },
{
    let signal = take_string(params, "signal")?;
    if signal.as_str().is_empty() {
        return Err(ProtocolError::bad_request("signal must not be empty"));
    }
    let occurrence = match take_optional_decimal_usize(params, "occurrence")? {
        Some(n) => n,
        None => 1,
    };
    if occurrence == 0 {
        return Err(ProtocolError::invalid_occurrence());
    }
    Ok((signal, occurrence))
}

fn parse_find(params: &Vec<(String, JsonValue)>) -> (r: Result<RequestMethod, ProtocolError>)
    ensures
        method_outcome_is(r, find_spec(params@)),
{
    let (signal, occurrence) = take_find_target(params)?;
    let value = take_string(params, "value")?;
    let keys: [&str; 5] = ["start", "end", "max_commands", "max_response_bytes", "timeout_ms"];
    assert(keys@.map_values(|k: &str| k@) =~= scan_numbers());
    let n = take_optional_decimals(params, &keys)?;
    let known: [&str; 8] = [
        "signal",
        "occurrence",
        "value",
        "start",
        "end",
        "max_commands",
        "max_response_bytes",
        "timeout_ms",
    ];
    assert(known@.map_values(|k: &str| k@) =~= find_fields());
    reject_unknown(params, &known)?;
    validate_window(n[0], n[1])?;
    validate_response_limit(n[3])?;
    Ok(
        RequestMethod::Find(
            FindParams {
                signal,
                value,
                occurrence,
                start: n[0],
                end: n[1],
                max_commands: n[2],
                max_response_bytes: n[3],
                timeout_ms: n[4],
            },
        ),
    )
}

fn parse_toggles(params: &Vec<(String, JsonValue)>) -> (r: Result<RequestMethod, ProtocolError>)
    ensures
        method_outcome_is(r, toggles_spec(params@)),
{
    let signals = take_signals(params)?;
    let keys: [&str; 5] = ["start", "end", "max_commands", "max_response_bytes", "timeout_ms"];
    assert(keys@.map_values(|k: &str| k@) =~= scan_numbers());
    let n = take_optional_decimals(params, &keys)?;
    let known: [&str; 6] = [
        "signals",
        "start",
        "end",
        "max_commands",
        "max_response_bytes",
        "timeout_ms",
    ];
    assert(known@.map_values(|k: &str| k@) =~= toggles_fields());
    reject_unknown(params, &known)?;
    validate_window(n[0], n[1])?;
    validate_response_limit(n[3])?;
    Ok(
        RequestMethod::Toggles(
            TogglesParams {
                signals,
                start: n[0],
                end: n[1],
                max_commands: n[2],
                max_response_bytes: n[3],
                timeout_ms: n[4],
            },
        ),
    )
}

fn parse_cancel(params: &Vec<(String, JsonValue)>) -> (r: Result<RequestMethod, ProtocolError>)
    ensures
        method_outcome_is(r, cancel_spec(params@)),
{
    let request_id = take_string(params, "request_id")?;
    validate_request_id(request_id.as_str())?;
    let known: [&str; 1] = ["request_id"];
    assert(known@.map_values(|k: &str| k@) =~= seq!["request_id"@]);
    reject_unknown(params, &known)?;
    Ok(RequestMethod::Cancel(CancelParams { request_id }))
}

/// Decode a method name and its parameters object.
pub fn parse_method(name: &str, params: &Vec<(String, JsonValue)>) -> (r: Result<RequestMethod, ProtocolError>)
    ensures
        method_outcome_is(r, method_spec(name@, params@)),
{
    let n = String::from_str(name);
    let none: [&str; 0] = [];
    assert(none@.map_values(|k: &str| k@) =~= Seq::<Seq<char>>::empty());
    if n == String::from_str("ping") {
        reject_unknown(params, &none)?;
        Ok(RequestMethod::Ping)
    } else if n == String::from_str("describe") {
        reject_unknown(params, &none)?;
        Ok(RequestMethod::Describe)
    } else if n == String::from_str("list") {
        parse_list(params)
    } else if n == String::from_str("metadata") {
        parse_metadata(params)
    } else if n == String::from_str("extract") {
        parse_extract(params)
    } else if n == String::from_str("find") {
        parse_find(params)
    } else if n == String::from_str("toggles") {
        parse_toggles(params)
    } else if n == String::from_str("cancel") {
        parse_cancel(params)
    } else {
        Err(ProtocolError::unknown_method(name))
    }
}

fn expect_object<'a>(value: &'a JsonValue, name: &str) -> (r: Result<&'a Vec<(String, JsonValue)>, ProtocolError>)
    ensures
        match (r, object_entries(*value, name@)) {
            (Ok(a), Ok(b)) => a@ == b,
            (Err(e), Err(es)) => error_is(e, es),
            _ => false,
        },
{
    match value {
        JsonValue::Object(entries) => Ok(entries),
        _ => Err(bad_request_error(concat(name, " must be an object"))),
    }
}

fn check_version(version: &JsonValue) -> (r: Result<(), ProtocolError>)
    ensures
        outcome_is(r, version_valid(*version)),
{
    match version {
        JsonValue::Number(JsonNumber::Unsigned(n)) => if *n == 1u64 {
            Ok(())
        } else {
            Err(ProtocolError::unsupported_version())
        },
        JsonValue::Number(_) => Err(ProtocolError::unsupported_version()),
        _ => Err(ProtocolError::bad_request("v must be JSON number 1")),
    }
}

fn decode_envelope_head(env: &Vec<(String, JsonValue)>) -> (r: Result<(String, String), ProtocolError>)
    ensures
        match (r, envelope_head(env@)) {
            (Ok(a), Ok(b)) => a.0@ == b.0 && a.1@ == b.1,
            (Err(e), Err(es)) => error_is(e, es),
            _ => false,
        },
{
    let version = take_required(env, "v")?;
    check_version(version)?;
    let id = take_string(env, "id")?;
    validate_request_id(id.as_str())?;
    let name = take_string(env, "method")?;
    Ok((id, name))
}

/// Decode a request envelope that the strict JSON reader produced from one
/// line (`Err` carries the reader's message).
pub fn decode_request(parsed: Result<JsonValue, String>) -> (r: Result<Request, ProtocolError>)
    ensures
        match parsed {
            Err(message) => r matches Err(e) && error_is(e, bad("invalid JSON: "@ + message@)),
            Ok(value) => request_outcome_is(r, request_spec(value)),
        },
{
    let value = match parsed {
        Err(message) => {
            return Err(bad_request_error(concat("invalid JSON: ", message.as_str())));
        },
        Ok(value) => value,
    };
    let env = expect_object(&value, "request envelope")?;
    let (id, name) = decode_envelope_head(env)?;
    let params_value = take_required(env, "params")?;
    let params = expect_object(params_value, "params")?;
    let method = parse_method(name.as_str(), params)?;
    Ok(Request { id, method })
}


/// `is_active` answered `answer` for a string equal to `id`.
pub open spec fn answered<F: FnOnce(&str) -> bool>(is_active: F, id: Seq<char>, answer: bool) -> bool {
    exists|s: &str| s@ == id && #[trigger] is_active.ensures((s,), answer)
}

impl Request {
    /// Refuse a request whose id the caller reports as already active.
    pub fn validate_inactive<F: FnOnce(&str) -> bool>(&self, is_active: F) -> (r: Result<(), ProtocolError>)
        requires
            forall|s: &str| #[trigger] is_active.requires((s,)),
        ensures
            match r {
                Ok(()) => answered(is_active, self.id@, false),
                Err(e) => answered(is_active, self.id@, true) && error_is(
                    e,
                    duplicate_id_spec(self.id@),
                ),
            },
    {
        let id = self.id.as_str();
        let active = is_active(id);
        assert(is_active.ensures((id,), active));
        if active {
            Err(ProtocolError::duplicate_request_id(id))
        } else {
            Ok(())
        }
    }
}

/// Decode a request, then refuse it when its id is already active.
pub fn decode_request_with_active<F: FnOnce(&str) -> bool>(parsed: Result<JsonValue, String>, is_active: F) -> (r: Result<Request, ProtocolError>)
    requires
        forall|s: &str| #[trigger] is_active.requires((s,)),
    ensures
        match parsed {
            Err(message) => r matches Err(e) && error_is(e, bad("invalid JSON: "@ + message@)),
            Ok(value) => match request_spec(value) {
                Err(es) => r matches Err(e) && error_is(e, es),
                Ok(decoded) => match r {
                    Ok(req) => req.id@ == decoded.0 && method_view(req.method) == decoded.1
                        && answered(is_active, decoded.0, false),
                    Err(e) => answered(is_active, decoded.0, true) && error_is(
                        e,
                        duplicate_id_spec(decoded.0),
                    ),
                },
            },
        },
{
    let request = decode_request(parsed)?;
    let checked = request.validate_inactive(is_active);
    match checked {
        Ok(()) => Ok(request),
        Err(e) => Err(e),
    }
}


/// The pieces of `s` between occurrences of `", "`, scanned left to right
/// (`str::split(", ")`).
pub open spec fn split_list(s: Seq<char>) -> Seq<Seq<char>>
    decreases s.len(),
{
    if s.len() < 2 {
        seq![s]
    } else if s[0] == ',' && s[1] == ' ' {
        seq![Seq::<char>::empty()] + split_list(s.skip(2))
    } else {
        let rest = split_list(s.drop_first());
        rest.update(0, seq![s[0]] + rest[0])
    }
}

proof fn lemma_split_nonempty(s: Seq<char>)
    ensures
        split_list(s).len() >= 1,
    decreases s.len(),
{
    if s.len() >= 2 {
        if s[0] == ',' && s[1] == ' ' {
            lemma_split_nonempty(s.skip(2));
        } else {
            lemma_split_nonempty(s.drop_first());
        }
    }
}

/// The pieces of `done` and `cur` joined with what remains to be split.
pub open spec fn split_resume(done: Seq<Seq<char>>, cur: Seq<char>, rest: Seq<char>) -> Seq<Seq<char>> {
    let r = split_list(rest);
    done + r.update(0, cur + r[0])
}

/// `text.split(", ")`, collected.
pub fn split_names(text: &str) -> (out: Vec<String>)
    ensures
        strings_view(out@) == split_list(text@),
{
    let chars = chars_of(text);
    let ghost s = chars@;
    let mut done: Vec<String> = Vec::new();
    let mut cur: Vec<char> = Vec::new();
    let mut i: usize = 0;
    proof {
        lemma_split_nonempty(s);
        assert(s.skip(0) == s);
        assert(strings_view(done@) =~= Seq::<Seq<char>>::empty());
        assert(split_list(s).update(0, Seq::<char>::empty() + split_list(s)[0]) =~= split_list(s));
    }
    while i < chars.len()
        invariant
            s == chars@,
            i <= chars.len(),
            split_list(s) == split_resume(strings_view(done@), cur@, s.skip(i as int)),
        decreases chars.len() - i,
    {
        let ghost rest = s.skip(i as int);
        proof {
            lemma_split_nonempty(rest);
        }
        if i + 1 < chars.len() && chars[i] == ',' && chars[i + 1] == ' ' {
            assert(rest.skip(2) == s.skip(i + 2));
            proof {
                lemma_split_nonempty(s.skip(i + 2));
            }
            done.push(string_of(cur.as_slice()));
            cur = Vec::new();
            i = i + 2;
            assert(strings_view(done@) == strings_view(done@).drop_last().push(
                strings_view(done@).last(),
            ));
            assert(split_list(s) =~= split_resume(strings_view(done@), cur@, s.skip(i as int)));
        } else {
            assert(rest.drop_first() == s.skip(i + 1));
            let ghost old_cur = cur@;
            let ghost c = chars[i as int];
            let ghost r2 = split_list(s.skip(i + 1));
            proof {
                lemma_split_nonempty(s.skip(i + 1));
                assert(rest[0] == c);
                if rest.len() < 2 {
                    assert(rest =~= seq![c]);
                    assert(s.skip(i + 1) =~= Seq::<char>::empty());
                    assert(r2 == seq![Seq::<char>::empty()]);
                    assert(split_list(rest) == seq![rest]);
                    assert(split_list(rest) =~= r2.update(0, seq![c] + r2[0]));
                } else {
                    assert(!(rest[0] == ',' && rest[1] == ' '));
                    assert(split_list(rest) == r2.update(0, seq![c] + r2[0]));
                }
                assert(old_cur + (seq![c] + r2[0]) =~= old_cur.push(c) + r2[0]);
            }
            cur.push(chars[i]);
            i = i + 1;
            assert(split_list(s) =~= split_resume(strings_view(done@), cur@, s.skip(i as int)));
        }
    }
    assert(s.skip(i as int) =~= Seq::<char>::empty());
    done.push(string_of(cur.as_slice()));
    assert(strings_view(done@) =~= split_list(s));
    done
}

/// The protocol error for a VCD-layer error.
pub open spec fn vcd_error_spec(error: VcdError) -> ErrorSpec {
    match error {
        VcdError::MissingSignal(signal) => (
            ProtocolErrorCode::SignalNotFound,
            "one or more signals were not found"@,
            seq![("signals"@, Err(seq![signal@]))],
            false,
        ),
        VcdError::MissingSignals(signals) => (
            ProtocolErrorCode::SignalNotFound,
            "one or more signals were not found"@,
            seq![("signals"@, Err(split_list(signals@)))],
            false,
        ),
        VcdError::InvalidOccurrence => invalid_occurrence_spec(),
        VcdError::Io(_) => (
            ProtocolErrorCode::SourceUnavailable,
            "source unavailable"@,
            no_details(),
            true,
        ),
        _ => (ProtocolErrorCode::ParseError, "VCD parse error"@, no_details(), false),
    }
}

/// The protocol error for a query error.
pub open spec fn query_error_spec(error: QueryError) -> ErrorSpec {
    match error {
        QueryError::Cancelled => (
            ProtocolErrorCode::Cancelled,
            "query cancelled"@,
            no_details(),
            false,
        ),
        QueryError::DeadlineExceeded => (
            ProtocolErrorCode::DeadlineExceeded,
            "query deadline exceeded"@,
            no_details(),
            true,
        ),
        QueryError::LimitExceeded { kind, limit, actual } => (
            ProtocolErrorCode::LimitExceeded,
            "query limit exceeded"@,
            seq![
                ("kind"@, Ok(limit_kind_text(kind))),
                ("limit"@, Ok(decimal_chars(limit as nat))),
                ("actual"@, Ok(decimal_chars(actual as nat))),
            ],
            false,
        ),
        QueryError::StaleSource(_) => (
            ProtocolErrorCode::StaleSource,
            "source changed during query"@,
            no_details(),
            true,
        ),
        QueryError::QueueFull => (
            ProtocolErrorCode::QueueFull,
            "query queue is full"@,
            no_details(),
            true,
        ),
        QueryError::SourceUnavailable(_) => (
            ProtocolErrorCode::SourceUnavailable,
            "source unavailable"@,
            no_details(),
            true,
        ),
        QueryError::Vcd(e) => vcd_error_spec(e),
        QueryError::Internal(_) => (
            ProtocolErrorCode::Internal,
            "internal server error"@,
            no_details(),
            false,
        ),
    }
}

fn plain_error(code: ProtocolErrorCode, message: &str, retryable: bool) -> (e: ProtocolError)
    ensures
        error_is(e, (code, message@, no_details(), retryable)),
{
    ProtocolError::new(code, String::from_str(message), empty_details(), retryable)
}

fn list_details(key: &str, items: Vec<String>) -> (d: ErrorDetails)
    ensures
        details_view(d) == seq![(key@, Err::<Seq<char>, Seq<Seq<char>>>(strings_view(items@)))],
{
    let mut fields: Vec<(String, DetailValue)> = Vec::new();
    fields.push((String::from_str(key), DetailValue::List(items)));
    let d = ErrorDetails { fields };
    assert(details_view(d) =~= seq![(key@, Err::<Seq<char>, Seq<Seq<char>>>(strings_view(items@)))]);
    d
}

/// Map a VCD-layer error to its protocol error.
pub fn protocol_error_from_vcd(error: &VcdError) -> (e: ProtocolError)
    ensures
        error_is(e, vcd_error_spec(*error)),
{
    match error {
        VcdError::MissingSignal(signal) => {
            let mut items: Vec<String> = Vec::new();
            items.push(signal.clone());
            assert(strings_view(items@) =~= seq![signal@]);
            ProtocolError::new(
                ProtocolErrorCode::SignalNotFound,
                String::from_str("one or more signals were not found"),
                list_details("signals", items),
                false,
            )
        },
        VcdError::MissingSignals(signals) => ProtocolError::new(
            ProtocolErrorCode::SignalNotFound,
            String::from_str("one or more signals were not found"),
            list_details("signals", split_names(signals.as_str())),
            false,
        ),
        VcdError::InvalidOccurrence => ProtocolError::invalid_occurrence(),
        VcdError::Io(_) => plain_error(
            ProtocolErrorCode::SourceUnavailable,
            "source unavailable",
            true,
        ),
        _ => plain_error(ProtocolErrorCode::ParseError, "VCD parse error", false),
    }
}

/// The wire name of a limit kind.
pub fn limit_kind_name(kind: QueryLimitKind) -> (s: &'static str)
    ensures
        s@ == limit_kind_text(kind),
{
    kind.code()
}

/// Map a query error to its protocol error.
pub fn protocol_error_from_query(error: &QueryError) -> (e: ProtocolError)
    ensures
        error_is(e, query_error_spec(*error)),
{
    match error {
        QueryError::Cancelled => plain_error(ProtocolErrorCode::Cancelled, "query cancelled", false),
        QueryError::DeadlineExceeded => plain_error(
            ProtocolErrorCode::DeadlineExceeded,
            "query deadline exceeded",
            true,
        ),
        QueryError::LimitExceeded { kind, limit, actual } => {
            let mut fields: Vec<(String, DetailValue)> = Vec::new();
            fields.push(text_field("kind", String::from_str(limit_kind_name(*kind))));
            fields.push(text_field("limit", u64_decimal(*limit)));
            fields.push(text_field("actual", u64_decimal(*actual)));
            let details = ErrorDetails { fields };
            assert(details_view(details) =~= query_error_spec(*error).2);
            ProtocolError::new(
                ProtocolErrorCode::LimitExceeded,
                String::from_str("query limit exceeded"),
                details,
                false,
            )
        },
        QueryError::StaleSource(_) => plain_error(
            ProtocolErrorCode::StaleSource,
            "source changed during query",
            true,
        ),
        QueryError::QueueFull => plain_error(ProtocolErrorCode::QueueFull, "query queue is full", true),
        QueryError::SourceUnavailable(_) => plain_error(
            ProtocolErrorCode::SourceUnavailable,
            "source unavailable",
            true,
        ),
        QueryError::Vcd(e) => protocol_error_from_vcd(e),
        QueryError::Internal(_) => plain_error(
            ProtocolErrorCode::Internal,
            "internal server error",
            false,
        ),
    }
}


/// A timescale on the wire: magnitude in decimal and unit text.
#[derive(Debug, Clone, PartialEq, Eq)]
pub struct WireTimescale {
    pub magnitude: String,
    pub unit: String,
}

impl WireTimescale {
    pub fn from_timescale(timescale: &Timescale) -> (w: Self)
        ensures
            w.magnitude@ == decimal_chars(timescale.magnitude as nat),
            w.unit@ == time_unit_text(timescale.unit),
    {
        WireTimescale {
            magnitude: u64_decimal(timescale.magnitude as u64),
            unit: String::from_str(timescale.unit.text()),
        }
    }
}

/// `w` is the wire form of `value`: integers in decimal, reals by display
/// text and 16 lower-case hexadecimal digits of their bit pattern, text
/// unchanged.
pub open spec fn wire_value_is(value: ChangeValue, w: WireValue) -> bool {
    match (value, w) {
        (ChangeValue::Integer(_), WireValue::Integer { text }) => text@ == change_value_text(value),
        (ChangeValue::Float(r), WireValue::Float { text, bits }) => text@ == r.text@
            && bits@ == crate::text::zero_pad(crate::text::hex_chars(r.bits as nat), 16),
        (ChangeValue::Text(t), WireValue::Text { text }) => text@ == t@,
        _ => false,
    }
}

/// A sampled value on the wire.
#[derive(Debug, Clone, PartialEq, Eq)]
pub enum WireValue {
    Integer { text: String },
    Float { text: String, bits: String },
    Text { text: String },
}

impl WireValue {
    /// Integers in decimal; reals by display text and 16 hexadecimal digits
    /// of their bit pattern; text unchanged.
    pub fn from_value(value: &ChangeValue) -> (w: Self)
        ensures
            wire_value_is(*value, w),
    {
        match value {
            ChangeValue::Integer(i) => WireValue::Integer { text: crate::text::u128_decimal(*i) },
            ChangeValue::Float(r) => WireValue::Float {
                text: r.text.clone(),
                bits: crate::text::u128_hex_padded(r.bits as u128, 16),
            },
            ChangeValue::Text(t) => WireValue::Text { text: t.clone() },
        }
    }
}

#[derive(Debug, Clone, PartialEq, Eq)]
pub struct TimeValueRow {
    pub signal: String,
    pub time: String,
    pub width: String,
    pub value: WireValue,
}

#[derive(Debug, Clone, PartialEq, Eq)]
pub struct FindResult {
    pub found: bool,
    pub signal: String,
    pub time: Option<String>,
    pub width: String,
    pub value: Option<WireValue>,
}

#[derive(Debug, Clone, PartialEq, Eq)]
pub struct ToggleRow {
    pub signal: String,
    pub toggles: String,
}

#[derive(Debug, Clone, PartialEq, Eq)]
pub struct TogglesResult {
    pub rows: Vec<ToggleRow>,
}

#[derive(Debug, Clone, Copy, PartialEq, Eq, Structural)]
pub struct CancelResult {
    pub found: bool,
}

#[derive(Debug, Clone, PartialEq, Eq)]
pub struct PingResult {
    pub protocol: String,
    pub package_version: String,
    pub uptime_ms: String,
    pub ready: bool,
}

#[derive(Debug, Clone, PartialEq, Eq)]
pub struct MetadataResult {
    pub signal_count: String,
    pub timescale: Option<WireTimescale>,
    pub start_time: String,
    pub end_time: String,
}

/// Server limits advertised by `describe`, in decimal text.
#[derive(Debug, Clone, PartialEq, Eq)]
pub struct ServerLimits {
    pub connections: String,
    pub active_requests_per_connection: String,
    pub workers: String,
    pub queued_jobs: String,
    pub output_chunks_per_connection: String,
    pub request_line_bytes: String,
    pub request_id_bytes: String,
    pub signals_per_query: String,
    pub response_rows: String,
    pub response_bytes: String,
    pub commands: String,
    pub timeout_ms: String,
    pub chunk_rows: String,
    pub chunk_bytes: String,
    pub simultaneous_expensive_scans: String,
}

impl Default for ServerLimits {
    fn default() -> (l: Self)
        ensures
            l.connections@ == decimal_chars(32),
            l.active_requests_per_connection@ == decimal_chars(8),
            l.workers@ == decimal_chars(4),
            l.queued_jobs@ == decimal_chars(64),
            l.output_chunks_per_connection@ == decimal_chars(8),
            l.request_line_bytes@ == decimal_chars(MAX_REQUEST_LINE_BYTES as nat),
            l.request_id_bytes@ == decimal_chars(MAX_REQUEST_ID_BYTES as nat),
            l.signals_per_query@ == decimal_chars(4096),
            l.response_rows@ == decimal_chars(1_000_000),
            l.response_bytes@ == decimal_chars(268_435_456),
            l.commands@ == decimal_chars(1_000_000_000),
            l.timeout_ms@ == decimal_chars(120_000),
            l.chunk_rows@ == decimal_chars(CHUNK_ROWS as nat),
            l.chunk_bytes@ == decimal_chars(CHUNK_BYTES as nat),
            l.simultaneous_expensive_scans@ == decimal_chars(1),
    {
        ServerLimits {
            connections: u64_decimal(32),
            active_requests_per_connection: u64_decimal(8),
            workers: u64_decimal(4),
            queued_jobs: u64_decimal(64),
            output_chunks_per_connection: u64_decimal(8),
            request_line_bytes: u64_decimal(MAX_REQUEST_LINE_BYTES as u64),
            request_id_bytes: u64_decimal(MAX_REQUEST_ID_BYTES as u64),
            signals_per_query: u64_decimal(4096),
            response_rows: u64_decimal(1_000_000),
            response_bytes: u64_decimal(268_435_456),
            commands: u64_decimal(1_000_000_000),
            timeout_ms: u64_decimal(120_000),
            chunk_rows: u64_decimal(CHUNK_ROWS),
            chunk_bytes: u64_decimal(CHUNK_BYTES),
            simultaneous_expensive_scans: u64_decimal(1),
        }
    }
}

#[derive(Debug, Clone, PartialEq, Eq)]
pub struct SecurityCapabilities {
    pub transport: String,
    pub socket_mode: String,
    pub peer_uid_check: bool,
}

#[derive(Debug, Clone, Copy, PartialEq, Eq, Structural)]
pub struct DistributionCapabilities {
    pub native_serve: bool,
    pub python_console_serve: bool,
}

#[derive(Debug, Clone, PartialEq, Eq)]
pub struct DescribeResult {
    pub protocol: String,
    pub generation: String,
    pub signal_count: String,
    pub timescale: Option<WireTimescale>,
    pub source_size: String,
    pub immutable_source: bool,
    pub methods: Vec<String>,
    pub schemas: Vec<String>,
    pub backends: Vec<String>,
    pub limits: ServerLimits,
    pub security: SecurityCapabilities,
    pub distribution: DistributionCapabilities,
}

/// Statistics reported by a successful stream's end frame.
#[derive(Debug, Clone, PartialEq, Eq)]
pub struct StreamStats {
    pub rows: String,
    pub encoded_bytes: String,
    pub elapsed_ms: String,
    pub commands: String,
    pub backend: String,
}

/// The closing frame of a streamed response: complete with statistics, or
/// incomplete with the error that ended it.
#[derive(Debug, Clone)]
pub struct EndFrame {
    pub id: String,
    pub seq: u32,
    pub complete: bool,
    pub stats: Option<StreamStats>,
    pub error: Option<ProtocolError>,
}

/// `e` is the successful end frame of request `id` at `seq`: it carries
/// `stats`, except that it reports `total` encoded bytes.
pub open spec fn success_end(e: EndFrame, id: Seq<char>, seq: u32, stats: StreamStats, total: u64) -> bool {
    &&& e.id@ == id
    &&& e.seq == seq
    &&& e.complete
    &&& e.error is None
    &&& e.stats matches Some(s) && {
        &&& s.rows@ == stats.rows@
        &&& s.elapsed_ms@ == stats.elapsed_ms@
        &&& s.commands@ == stats.commands@
        &&& s.backend@ == stats.backend@
        &&& s.encoded_bytes@ == decimal_chars(total as nat)
    }
}

/// The end frame reporting candidate `c` encodes to `n` bytes.
pub open spec fn end_len_at<F: Fn(&EndFrame) -> Result<u64, String>>(
    end_len: F,
    id: Seq<char>,
    seq: u32,
    stats: StreamStats,
    c: u64,
    r: Result<u64, String>,
) -> bool {
    exists|f: EndFrame| success_end(f, id, seq, stats, c) && end_len.ensures((&f,), r)
}

/// From candidate `c`, the end frame reporting `c` encodes to `n` bytes, and
/// the next candidate `next`, the prior bytes plus `n`, differs from `c`.
pub open spec fn end_step<F: Fn(&EndFrame) -> Result<u64, String>>(
    end_len: F,
    id: Seq<char>,
    seq: u32,
    stats: StreamStats,
    prior: u64,
    c: u64,
    next: u64,
) -> bool {
    exists|n: u64| end_len_at(end_len, id, seq, stats, c, Ok::<u64, String>(n)) && next == prior + n && next != c
}

/// The candidates tried so far: 0 first, then each one step from the one
/// before.
pub open spec fn end_trace<F: Fn(&EndFrame) -> Result<u64, String>>(
    end_len: F,
    id: Seq<char>,
    seq: u32,
    stats: StreamStats,
    prior: u64,
    cs: Seq<u64>,
) -> bool {
    &&& cs.len() >= 1
    &&& cs[0] == 0
    &&& forall|k: int| 1 <= k < cs.len() ==> end_step(end_len, id, seq, stats, prior, cs[k - 1], #[trigger] cs[k])
}

/// Why building the end frame failed with `e`, after a trace of candidates:
/// for the last of at most 32, encoding failed with `e`, or the next
/// candidate would overflow; or 32 candidates were tried without settling.
pub open spec fn end_failed<F: Fn(&EndFrame) -> Result<u64, String>>(
    end_len: F,
    id: Seq<char>,
    seq: u32,
    stats: StreamStats,
    prior: u64,
    e: Seq<char>,
) -> bool {
    exists|cs: Seq<u64>| #[trigger] end_trace(end_len, id, seq, stats, prior, cs) && {
        ||| cs.len() <= 32 && exists|m: String|
            m@ == e && end_len_at(end_len, id, seq, stats, cs.last(), Err::<u64, String>(m))
        ||| cs.len() <= 32 && (exists|n: u64|
            end_len_at(end_len, id, seq, stats, cs.last(), Ok::<u64, String>(n)) && prior + n > u64::MAX)
            && e == "encoded stream byte count overflow"@
        ||| cs.len() == 33 && e == "encoded stream byte count did not stabilize"@
    }
}

/// A copy of `s`.
fn copy_text(s: &String) -> (c: String)
    ensures
        c@ == s@,
{
    string_of(chars_of(s.as_str()).as_slice())
}

/// The successful end frame reporting `total` encoded bytes.
fn success_frame(id: &String, seq: u32, stats: &StreamStats, total: u64) -> (e: EndFrame)
    ensures
        success_end(e, id@, seq, *stats, total),
{
    EndFrame {
        id: copy_text(id),
        seq,
        complete: true,
        stats: Some(StreamStats {
            rows: copy_text(&stats.rows),
            encoded_bytes: u64_decimal(total),
            elapsed_ms: copy_text(&stats.elapsed_ms),
            commands: copy_text(&stats.commands),
            backend: copy_text(&stats.backend),
        }),
        error: None,
    }
}

impl EndFrame {
    /// The end frame of a stream that `error` ended: incomplete, without
    /// statistics.
    pub fn end_error(id: String, seq: u32, error: ProtocolError) -> (e: EndFrame)
        ensures
            e.id == id,
            e.seq == seq,
            !e.complete,
            e.stats is None,
            e.error == Some(error),
    {
        EndFrame { id, seq, complete: false, stats: None, error: Some(error) }
    }

    /// The end frame of a successful stream, whose reported encoded bytes
    /// include the end line itself: starting from 0, the candidate becomes
    /// the prior bytes plus the encoded length of the end frame reporting
    /// it, until it no longer changes (at most 32 rounds). `end_len`
    /// encodes a frame, newline included.
    pub fn end_success<F: Fn(&EndFrame) -> Result<u64, String>>(
        id: String,
        seq: u32,
        stats: StreamStats,
        prior_encoded_bytes: u64,
        end_len: F,
    ) -> (r: Result<EndFrame, String>)
        requires
            forall|f: &EndFrame| #[trigger] end_len.requires((f,)),
        ensures
            match r {
                Ok(e) => {
                    &&& exists|n: u64| #![trigger end_len.ensures((&e,), Ok::<u64, String>(n))]
                        end_len.ensures((&e,), Ok::<u64, String>(n))
                        && prior_encoded_bytes + n <= u64::MAX
                        && success_end(e, id@, seq, stats, (prior_encoded_bytes + n) as u64)
                    &&& exists|cs: Seq<u64>| #[trigger] end_trace(end_len, id@, seq, stats, prior_encoded_bytes, cs)
                        && cs.len() <= 32 && success_end(e, id@, seq, stats, cs.last())
                },
                Err(e) => end_failed(end_len, id@, seq, stats, prior_encoded_bytes, e@),
            },
    {
        let prior = prior_encoded_bytes;
        let mut candidate: u64 = 0;
        let mut round: usize = 0;
        let ghost mut cs: Seq<u64> = seq![0u64];
        while round < 32
            invariant
                forall|f: &EndFrame| #[trigger] end_len.requires((f,)),
                prior == prior_encoded_bytes,
                round <= 32,
                end_trace(end_len, id@, seq, stats, prior, cs),
                cs.len() == round + 1,
                cs.last() == candidate,
            decreases 32 - round,
        {
            let frame = success_frame(&id, seq, &stats, candidate);
            let res = end_len(&frame);
            assert(end_len.ensures((&frame,), res));
            let n = match res {
                Ok(n) => n,
                Err(e) => {
                    assert(end_failed(end_len, id@, seq, stats, prior, e@)) by {
                        assert(end_len_at(end_len, id@, seq, stats, cs.last(), Err::<u64, String>(e)));
                        assert(end_trace(end_len, id@, seq, stats, prior, cs));
                    }
                    return Err(e);
                },
            };
            assert(res == Ok::<u64, String>(n));
            assert(end_len_at(end_len, id@, seq, stats, candidate, Ok::<u64, String>(n)));
            let total = match prior.checked_add(n) {
                Some(t) => t,
                None => {
                    let e = String::from_str("encoded stream byte count overflow");
                    assert(end_failed(end_len, id@, seq, stats, prior, e@)) by {
                        assert(end_trace(end_len, id@, seq, stats, prior, cs));
                    }
                    return Err(e);
                },
            };
            if total == candidate {
                assert(end_trace(end_len, id@, seq, stats, prior, cs));
                return Ok(frame);
            }
            proof {
                let next = cs.push(total);
                assert(end_step(end_len, id@, seq, stats, prior, candidate, total));
                assert forall|k: int| 1 <= k < next.len() implies end_step(
                    end_len,
                    id@,
                    seq,
                    stats,
                    prior,
                    next[k - 1],
                    #[trigger] next[k],
                ) by {
                    if k < cs.len() {
                        assert(next[k] == cs[k] && next[k - 1] == cs[k - 1]);
                    }
                }
                cs = next;
            }
            candidate = total;
            round = round + 1;
        }
        let e = String::from_str("encoded stream byte count did not stabilize");
        assert(end_failed(end_len, id@, seq, stats, prior, e@)) by {
            assert(end_trace(end_len, id@, seq, stats, prior, cs));
        }
        Err(e)
    }
}

/// The first frame of a streamed response.
#[derive(Debug, Clone, PartialEq, Eq)]
pub struct BeginFrame {
    pub v: u8,
    pub id: String,
    pub seq: u32,
    pub frame_type: String,
    pub schema: String,
    pub generation: String,
}

impl BeginFrame {
    pub fn new(id: String, schema: String, generation: String) -> (f: Self)
        ensures
            f.v == PROTOCOL_VERSION,
            f.id@ == id@,
            f.seq == 0,
            f.frame_type@ == "begin"@,
            f.schema@ == schema@,
            f.generation@ == generation@,
    {
        BeginFrame { v: PROTOCOL_VERSION, id, seq: 0, frame_type: String::from_str("begin"), schema, generation }
    }
}

} // verus!
