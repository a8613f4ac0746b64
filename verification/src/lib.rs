//! Streaming VCD/FST waveform query library: signal catalogs, value
//! normalisation, bounded query policies and a JSON Lines query protocol.

pub mod catalog;
pub mod cli;
pub mod header;
pub mod opened;
pub mod query;
pub mod report;
pub mod server;
pub mod signal_list;
pub mod text;
pub mod trace;
pub mod waveform;

pub use query::{into_vcd_error, QueryContext, QueryError, QueryLimits, QueryResult};

use vstd::prelude::*;

use crate::text::{
    chars_of, decimal_chars, hex_chars, lowercase_chars, parse_u128_radix, parse_u128_radix_spec,
    string_of, to_lowercase, trim, trim_chars, u128_decimal, u128_hex_padded, usize_decimal, zero_pad,
};

verus! {

/// Category of an operating-system or source I/O failure.
#[derive(Debug, Clone, Copy, PartialEq, Eq, Structural)]
pub enum IoErrorKind {
    NotFound,
    PermissionDenied,
    InvalidData,
    InvalidInput,
    UnexpectedEof,
    TimedOut,
    WouldBlock,
    Other,
}

/// An I/O failure held as plain values: its category, its display text, and
/// whether it is the typed marker of a source that no longer matches the
/// opened generation (never inferred from the wording).
#[derive(Debug, Clone)]
pub struct IoFailure {
    pub kind: IoErrorKind,
    pub message: String,
    pub generation_mismatch: bool,
}

impl IoFailure {
    /// An ordinary I/O failure.
    pub fn new(kind: IoErrorKind, message: String) -> (f: Self)
        ensures
            f.kind == kind,
            f.message@ == message@,
            !f.generation_mismatch,
    {
        IoFailure { kind, message, generation_mismatch: false }
    }
}

/// The typed failure reported when a source no longer matches its generation.
pub fn generation_mismatch_error() -> (e: VcdError)
    ensures
        e matches VcdError::Io(f) && f.generation_mismatch && f.kind == IoErrorKind::InvalidData
            && f.message@ == "VCD source does not match the opened generation"@,
{
    VcdError::Io(
        IoFailure {
            kind: IoErrorKind::InvalidData,
            message: String::from_str("VCD source does not match the opened generation"),
            generation_mismatch: true,
        },
    )
}

/// Whether an I/O failure is the generation-mismatch marker.
pub fn is_generation_mismatch(failure: &IoFailure) -> (b: bool)
    ensures
        b == failure.generation_mismatch,
{
    failure.generation_mismatch
}

/// Errors of the VCD layer.
#[derive(Debug, Clone)]
pub enum VcdError {
    Io(IoFailure),
    MissingEndDefinitions,
    DuplicateSignal(String),
    MissingSignals(String),
    MissingSignal(String),
    InvalidOccurrence,
    Parse(String),
}

/// Display text of a [`VcdError`].
pub open spec fn vcd_error_text(error: VcdError) -> Seq<char> {
    match error {
        VcdError::Io(failure) => "I/O error: "@ + failure.message@,
        VcdError::MissingEndDefinitions => "missing $enddefinitions marker in VCD file"@,
        VcdError::DuplicateSignal(name) => "duplicate signal name detected: "@ + name@,
        VcdError::MissingSignals(names) => "signals not found in VCD: "@ + names@,
        VcdError::MissingSignal(name) => "signal not found in VCD: "@ + name@,
        VcdError::InvalidOccurrence => "occurrence must be >= 1"@,
        VcdError::Parse(message) => "unexpected parse error: "@ + message@,
    }
}

/// `prefix` followed by `rest`.
pub fn concat(prefix: &str, rest: &str) -> (s: String)
    ensures
        s@ == prefix@ + rest@,
{
    let mut s = String::from_str(prefix);
    s.append(rest);
    s
}

impl VcdError {
    /// The human-readable message of this error.
    pub fn message(&self) -> (s: String)
        ensures
            s@ == vcd_error_text(*self),
    {
        proof {
            reveal_strlit("I/O error: ");
            reveal_strlit("missing $enddefinitions marker in VCD file");
            reveal_strlit("duplicate signal name detected: ");
            reveal_strlit("signals not found in VCD: ");
            reveal_strlit("signal not found in VCD: ");
            reveal_strlit("occurrence must be >= 1");
            reveal_strlit("unexpected parse error: ");
        }
        match self {
            VcdError::Io(failure) => concat("I/O error: ", failure.message.as_str()),
            VcdError::MissingEndDefinitions => String::from_str(
                "missing $enddefinitions marker in VCD file",
            ),
            VcdError::DuplicateSignal(name) => concat(
                "duplicate signal name detected: ",
                name.as_str(),
            ),
            VcdError::MissingSignals(names) => concat("signals not found in VCD: ", names.as_str()),
            VcdError::MissingSignal(name) => concat("signal not found in VCD: ", name.as_str()),
            VcdError::InvalidOccurrence => String::from_str("occurrence must be >= 1"),
            VcdError::Parse(message) => concat("unexpected parse error: ", message.as_str()),
        }
    }
}

/// An optional inclusive `[start, end]` time range.
#[derive(Debug, Clone, Copy, Default, PartialEq, Eq)]
pub struct TimeWindow {
    pub start: Option<u64>,
    pub end: Option<u64>,
}

impl TimeWindow {
    /// Whether `time` lies inside the window; an absent bound is open.
    pub open spec fn spec_contains(self, time: u64) -> bool {
        (self.start matches Some(start) ==> start <= time) && (self.end matches Some(end) ==> time
            <= end)
    }

    pub fn contains(&self, time: u64) -> (b: bool)
        ensures
            b == self.spec_contains(time),
    {
        if let Some(start) = self.start {
            if time < start {
                return false;
            }
        }
        if let Some(end) = self.end {
            if time > end {
                return false;
            }
        }
        true
    }
}


/// A real (floating-point) sample held as plain values: its IEEE-754 bit
/// pattern, by which values are compared, and its shortest display text.
#[derive(Debug, Clone, PartialEq, Eq)]
pub struct RealValue {
    pub bits: u64,
    pub text: String,
}

/// A sampled signal value.
#[derive(Debug, Clone, PartialEq, Eq)]
pub enum ChangeValue {
    Integer(u128),
    Float(RealValue),
    Text(String),
}

/// Display text of a sampled value.
pub open spec fn change_value_text(value: ChangeValue) -> Seq<char> {
    match value {
        ChangeValue::Integer(i) => decimal_chars(i as nat),
        ChangeValue::Float(r) => r.text@,
        ChangeValue::Text(t) => t@,
    }
}

/// Normalised comparison text of a sampled value: integers in decimal, reals
/// by their display text, text lower-cased.
pub open spec fn change_value_normal(value: ChangeValue) -> Seq<char> {
    match value {
        ChangeValue::Integer(i) => decimal_chars(i as nat),
        ChangeValue::Float(r) => r.text@,
        ChangeValue::Text(t) => lowercase_chars(t@),
    }
}

impl ChangeValue {
    pub fn normalize(&self) -> (s: String)
        ensures
            s@ == change_value_normal(*self),
    {
        match self {
            ChangeValue::Integer(i) => u128_decimal(*i),
            ChangeValue::Float(r) => r.text.clone(),
            ChangeValue::Text(t) => to_lowercase(t.as_str()),
        }
    }

    pub fn as_integer(&self) -> (r: Option<u128>)
        ensures
            r == (match *self {
                ChangeValue::Integer(i) => Some(i),
                _ => None,
            }),
    {
        match self {
            ChangeValue::Integer(i) => Some(*i),
            _ => None,
        }
    }

    /// The display text (`Display` in other front ends).
    pub fn display(&self) -> (s: String)
        ensures
            s@ == change_value_text(*self),
    {
        match self {
            ChangeValue::Integer(i) => u128_decimal(*i),
            ChangeValue::Float(r) => r.text.clone(),
            ChangeValue::Text(t) => t.clone(),
        }
    }
}

/// One extracted change: signal name, time and value.
#[derive(Debug, Clone)]
pub struct TimeValue {
    pub signal: String,
    pub time: u64,
    pub value: ChangeValue,
}

/// A value searched for by `find`.
#[derive(Debug, Clone, PartialEq, Eq)]
pub enum TargetValue {
    Integer(u128),
    Text(String),
}

pub open spec fn target_value_normal(value: TargetValue) -> Seq<char> {
    match value {
        TargetValue::Integer(i) => decimal_chars(i as nat),
        TargetValue::Text(t) => lowercase_chars(t@),
    }
}

impl TargetValue {
    pub fn normalize(&self) -> (s: String)
        ensures
            s@ == target_value_normal(*self),
    {
        match self {
            TargetValue::Integer(i) => u128_decimal(*i),
            TargetValue::Text(t) => to_lowercase(t.as_str()),
        }
    }
}

/// Normalised form of a sampled value.
pub fn normalize_change_value(value: &ChangeValue) -> (s: String)
    ensures
        s@ == change_value_normal(*value),
{
    value.normalize()
}

/// The lower-cased, trimmed text that `parse_target_value` classifies.
pub open spec fn target_text(raw: Seq<char>) -> Seq<char> {
    lowercase_chars(trim_chars(raw))
}

/// The hexadecimal reading of a target text: `0x` followed by what
/// `u128::from_str_radix(_, 16)` accepts.
pub open spec fn target_hex(text: Seq<char>) -> Option<u128> {
    if text.len() >= 2 && text[0] == '0' && text[1] == 'x' {
        parse_u128_radix_spec(text.skip(2), 16)
    } else {
        None
    }
}

/// How a target text (already trimmed and lower-cased) is classified: `0x`
/// hex, then decimal (each as the std integer parsers accept them), else the
/// text itself.
pub open spec fn classified(text: Seq<char>, t: TargetValue) -> bool {
    match target_hex(text) {
        Some(v) => t == TargetValue::Integer(v),
        None => match parse_u128_radix_spec(text, 10) {
            Some(v) => t == TargetValue::Integer(v),
            None => t matches TargetValue::Text(s) && s@ == text,
        },
    }
}

/// Classify a trimmed, lower-cased target text.
pub fn classify_target(text: String) -> (t: TargetValue)
    ensures
        classified(text@, t),
{
    let chars = chars_of(text.as_str());
    if chars.len() >= 2 && chars[0] == '0' && chars[1] == 'x' {
        let mut rest: Vec<char> = Vec::new();
        let mut i: usize = 2;
        while i < chars.len()
            invariant
                2 <= i <= chars.len(),
                rest@ == chars@.subrange(2, i as int),
            decreases chars.len() - i,
        {
            rest.push(chars[i]);
            i = i + 1;
            assert(chars@.subrange(2, i as int) == chars@.subrange(2, (i - 1) as int).push(
                chars@[i - 1],
            ));
        }
        assert(rest@ == chars@.skip(2));
        if let Some(v) = parse_u128_radix(rest.as_slice(), 16) {
            return TargetValue::Integer(v);
        }
    }
    match parse_u128_radix(chars.as_slice(), 10) {
        Some(v) => TargetValue::Integer(v),
        None => TargetValue::Text(text),
    }
}

/// A target normalises as the value it stands for does: an integer target
/// as the sampled integer (its decimal spelling), a text target as the
/// sampled text; so a target matches a sample exactly when their values
/// agree.
pub proof fn law_targets_normalise_like_samples(i: u128, t: String)
    ensures
        target_value_normal(TargetValue::Integer(i)) == change_value_normal(ChangeValue::Integer(i)),
        target_value_normal(TargetValue::Integer(i)) == decimal_chars(i as nat),
        target_value_normal(TargetValue::Text(t)) == change_value_normal(ChangeValue::Text(t)),
{
}

/// The normal text of an integer target classifies back to the same
/// integer, and so normalises to the same text.
pub proof fn law_integer_target_round_trip(i: u128, t: TargetValue)
    requires
        classified(target_value_normal(TargetValue::Integer(i)), t),
    ensures
        t == TargetValue::Integer(i),
        target_value_normal(t) == target_value_normal(TargetValue::Integer(i)),
{
    crate::text::lemma_decimal_chars(i as nat);
    let s = decimal_chars(i as nat);
    if s.len() >= 2 {
        assert('0' <= s[1] <= '9');
    }
    assert(target_hex(s) is None);
    assert forall|k: int| 0 <= k < s.len() implies (#[trigger] crate::text::digit_value(s[k], 10)) is Some by {
        assert('0' <= s[k] <= '9');
    }
    assert(crate::text::all_digits(s, 10));
    assert(s[0] != '+');
}

/// Classify a user-supplied target: trimmed and lower-cased, then
/// [`classify_target`].
pub fn parse_target_value(raw: &str) -> (t: TargetValue)
    ensures
        classified(target_text(raw@), t),
{
    let raw_chars = chars_of(raw);
    let trimmed = trim(raw_chars.as_slice());
    let trimmed_text = string_of(trimmed.as_slice());
    let text = to_lowercase(trimmed_text.as_str());
    classify_target(text)
}

/// Hex digits shown for a signal of `size` bits: `ceil(size / 4)`.
pub open spec fn hex_width(size: u32) -> nat {
    ((size as nat + 3) / 4) as nat
}

/// Display form of a value for a signal of `signal_size` bits: multi-bit
/// integers as zero-padded `0x` hexadecimal, everything else as displayed.
pub open spec fn value_for_signal_text(value: ChangeValue, signal_size: u32) -> Seq<char> {
    match value {
        ChangeValue::Integer(i) => if signal_size > 1 {
            "0x"@ + zero_pad(hex_chars(i as nat), hex_width(signal_size))
        } else {
            change_value_text(value)
        },
        _ => change_value_text(value),
    }
}

pub fn format_value_for_signal(value: &ChangeValue, signal_size: u32) -> (s: String)
    ensures
        s@ == value_for_signal_text(*value, signal_size),
{
    proof {
        reveal_strlit("0x");
    }
    if signal_size > 1 {
        if let Some(int_val) = value.as_integer() {
            let width = ((signal_size as u64 + 3) / 4) as usize;
            let digits = u128_hex_padded(int_val, width);
            return concat("0x", digits.as_str());
        }
    }
    value.display()
}

/// Format a value for display (its display text).
pub fn format_change_value(value: &ChangeValue) -> (s: String)
    ensures
        s@ == change_value_text(*value),
{
    value.display()
}


/// Unit of a `$timescale` declaration.
#[derive(Debug, Clone, Copy, PartialEq, Eq, Structural)]
pub enum TimeUnit {
    S,
    MS,
    US,
    NS,
    PS,
    FS,
}

pub open spec fn time_unit_text(unit: TimeUnit) -> Seq<char> {
    match unit {
        TimeUnit::S => "s"@,
        TimeUnit::MS => "ms"@,
        TimeUnit::US => "us"@,
        TimeUnit::NS => "ns"@,
        TimeUnit::PS => "ps"@,
        TimeUnit::FS => "fs"@,
    }
}

impl TimeUnit {
    /// The unit's spelling in VCD text.
    pub fn text(self) -> (s: &'static str)
        ensures
            s@ == time_unit_text(self),
    {
        proof {
            reveal_strlit("s");
            reveal_strlit("ms");
            reveal_strlit("us");
            reveal_strlit("ns");
            reveal_strlit("ps");
            reveal_strlit("fs");
        }
        match self {
            TimeUnit::S => "s",
            TimeUnit::MS => "ms",
            TimeUnit::US => "us",
            TimeUnit::NS => "ns",
            TimeUnit::PS => "ps",
            TimeUnit::FS => "fs",
        }
    }
}

/// A `$timescale`: magnitude and unit.
#[derive(Debug, Clone, Copy, PartialEq, Eq, Structural)]
pub struct Timescale {
    pub magnitude: u32,
    pub unit: TimeUnit,
}

/// Exact body metadata of one waveform generation.
#[derive(Debug, Clone)]
pub struct VcdMeta {
    pub timescale: Option<Timescale>,
    pub signal_count: usize,
    pub start_time: u64,
    pub end_time: u64,
}

/// One declared value change mismatch found by a comparison.
#[derive(Debug, Clone)]
pub struct SignalMismatch {
    pub signal_name: String,
    pub time: u64,
    pub value1: ChangeValue,
    pub value2: ChangeValue,
    pub is_unknown: bool,
}

/// Options of a waveform comparison.
#[derive(Debug, Clone)]
pub struct ComparisonOptions {
    /// Limit on reported mismatches per signal.
    pub max_mismatches: Option<usize>,
    /// Only compare these signals (all common signals when empty).
    pub signals_only: Vec<String>,
    /// Treat x/z differences as matches.
    pub ignore_unknown: bool,
    /// Only compare changes within this window.
    pub time_window: TimeWindow,
}

impl ComparisonOptions {
    /// No mismatch limit, no signal filter, unknowns compared, open window.
    pub fn default() -> (o: Self)
        ensures
            o.max_mismatches is None,
            o.signals_only@.len() == 0,
            !o.ignore_unknown,
            o.time_window.start is None && o.time_window.end is None,
    {
        ComparisonOptions {
            max_mismatches: None,
            signals_only: Vec::new(),
            ignore_unknown: false,
            time_window: TimeWindow { start: None, end: None },
        }
    }
}

/// The outcome of comparing two waveforms.
#[derive(Debug, Clone)]
pub struct ComparisonResult {
    pub file1: String,
    pub file2: String,
    pub common_signals: Vec<String>,
    pub signals_only_in_file1: Vec<String>,
    pub signals_only_in_file2: Vec<String>,
    pub mismatches: Vec<SignalMismatch>,
    pub total_mismatches: usize,
    pub signals_with_mismatches: usize,
    pub passed: bool,
}

pub open spec fn summary_text(
    passed: bool,
    common: nat,
    with_mismatches: nat,
    total: nat,
) -> Seq<char> {
    if passed {
        "✅ PASS - All "@ + decimal_chars(common) + " common signals match"@
    } else {
        "❌ FAIL - "@ + decimal_chars(with_mismatches) + "/"@ + decimal_chars(common)
            + " signals have mismatches ("@ + decimal_chars(total) + " total mismatches)"@
    }
}

impl ComparisonResult {
    pub fn get_summary(&self) -> (s: String)
        ensures
            s@ == summary_text(
                self.passed,
                self.common_signals@.len(),
                self.signals_with_mismatches as nat,
                self.total_mismatches as nat,
            ),
    {
        proof {
            reveal_strlit("✅ PASS - All ");
            reveal_strlit(" common signals match");
            reveal_strlit("❌ FAIL - ");
            reveal_strlit("/");
            reveal_strlit(" signals have mismatches (");
            reveal_strlit(" total mismatches)");
        }
        let common = usize_decimal(self.common_signals.len());
        if self.passed {
            let mut s = concat("✅ PASS - All ", common.as_str());
            s.append(" common signals match");
            s
        } else {
            let with = usize_decimal(self.signals_with_mismatches);
            let total = usize_decimal(self.total_mismatches);
            let mut s = concat("❌ FAIL - ", with.as_str());
            s.append("/");
            s.append(common.as_str());
            s.append(" signals have mismatches (");
            s.append(total.as_str());
            s.append(" total mismatches)");
            s
        }
    }
}

/// Machine-readable comparison summary; per-signal mismatch counts are kept
/// in order of each signal's first mismatch.
#[derive(Debug, Clone)]
pub struct JsonComparisonResult {
    pub file1: String,
    pub file2: String,
    pub common_signal_count: usize,
    pub signals_only_in_file1: Vec<String>,
    pub signals_only_in_file2: Vec<String>,
    pub mismatches_by_signal: Vec<(String, usize)>,
    pub total_mismatches: usize,
    pub signals_with_mismatches: usize,
    pub passed: bool,
}

/// Number of entries of `names` equal to `name`.
pub open spec fn count_name(names: Seq<Seq<char>>, name: Seq<char>) -> nat
    decreases names.len(),
{
    if names.len() == 0 {
        0
    } else {
        count_name(names.drop_last(), name) + if names.last() == name {
            1nat
        } else {
            0nat
        }
    }
}

pub open spec fn mismatch_names(ms: Seq<SignalMismatch>) -> Seq<Seq<char>> {
    ms.map_values(|m: SignalMismatch| m.signal_name@)
}

/// `counts` tallies `names`: each distinct name once, with its count.
pub open spec fn tallies(counts: Seq<(String, usize)>, names: Seq<Seq<char>>) -> bool {
    &&& forall|i: int, j: int|
        0 <= i < j < counts.len() ==> counts[i].0@ != counts[j].0@
    &&& forall|i: int|
        0 <= i < counts.len() ==> counts[i].1 as nat == count_name(names, #[trigger] counts[i].0@)
    &&& forall|k: int| 0 <= k < names.len() ==> has_key(counts, #[trigger] names[k])
}

/// Some entry of `counts` is keyed by `name`.
pub open spec fn has_key(counts: Seq<(String, usize)>, name: Seq<char>) -> bool {
    exists|i: int| 0 <= i < counts.len() && #[trigger] counts[i].0@ == name
}

proof fn lemma_count_name_push(names: Seq<Seq<char>>, x: Seq<char>, name: Seq<char>)
    ensures
        count_name(names.push(x), name) == count_name(names, name) + if x == name {
            1nat
        } else {
            0nat
        },
{
    assert(names.push(x).drop_last() == names);
}

proof fn lemma_count_name_absent(names: Seq<Seq<char>>, name: Seq<char>)
    requires
        forall|k: int| 0 <= k < names.len() ==> names[k] != name,
    ensures
        count_name(names, name) == 0,
    decreases names.len(),
{
    if names.len() > 0 {
        lemma_count_name_absent(names.drop_last(), name);
    }
}

proof fn lemma_count_name_bound(names: Seq<Seq<char>>, name: Seq<char>)
    ensures
        count_name(names, name) <= names.len(),
    decreases names.len(),
{
    if names.len() > 0 {
        lemma_count_name_bound(names.drop_last(), name);
    }
}

/// Tally mismatches by signal name.
pub fn tally_mismatches(mismatches: &Vec<SignalMismatch>) -> (counts: Vec<(String, usize)>)
    ensures
        tallies(counts@, mismatch_names(mismatches@)),
{
    let mut counts: Vec<(String, usize)> = Vec::new();
    let mut k: usize = 0;
    while k < mismatches.len()
        invariant
            k <= mismatches.len(),
            tallies(counts@, mismatch_names(mismatches@.take(k as int))),
        decreases mismatches.len() - k,
    {
        let ghost before = mismatch_names(mismatches@.take(k as int));
        let ghost after = mismatch_names(mismatches@.take(k + 1));
        let name = &mismatches[k].signal_name;
        assert(after == before.push(name@));
        proof {
            assert forall|n: Seq<char>| #![trigger count_name(after, n)]
                count_name(after, n) == count_name(before, n) + if name@ == n {
                    1nat
                } else {
                    0nat
                } by {
                lemma_count_name_push(before, name@, n);
            }
        }
        let mut i: usize = 0;
        while i < counts.len() && !(counts[i].0 == *name)
            invariant
                i <= counts.len(),
                forall|j: int| 0 <= j < i ==> counts@[j].0@ != name@,
            decreases counts.len() - i,
        {
            i = i + 1;
        }
        let found = i < counts.len();
        let ghost keys_before = counts@;
        if found {
            let ghost old_counts = counts@;
            proof {
                lemma_count_name_bound(before, name@);
            }
            let c = counts[i].1;
            counts.set(i, (name.clone(), c + 1));
            proof {
                assert forall|a: int, b: int| 0 <= a < b < counts@.len() implies counts@[a].0@
                    != counts@[b].0@ by {
                    assert(counts@[a].0@ == old_counts[a].0@);
                    assert(counts@[b].0@ == old_counts[b].0@);
                }
                assert forall|j: int| 0 <= j < counts@.len() implies counts@[j].1 as nat
                    == count_name(after, #[trigger] counts@[j].0@) by {
                    if j != i {
                        assert(counts@[j] == old_counts[j]);
                        assert(old_counts[j].0@ != old_counts[i as int].0@);
                    }
                }
                assert forall|kk: int| 0 <= kk < after.len() implies has_key(
                    counts@,
                    #[trigger] after[kk],
                ) by {
                    if kk < before.len() {
                        assert(after[kk] == before[kk]);
                        assert(has_key(old_counts, before[kk]));
                        let j = choose|j: int|
                            0 <= j < old_counts.len() && #[trigger] old_counts[j].0@ == before[kk];
                        assert(counts@[j].0@ == old_counts[j].0@);
                    } else {
                        assert(counts@[i as int].0@ == after[kk]);
                        assert(has_key(counts@, after[kk]));
                    }
                }
                assert(tallies(counts@, after));
            }
        } else {
            let ghost old_counts = counts@;
            proof {
                assert forall|kk: int| 0 <= kk < before.len() implies before[kk] != name@ by {
                    assert(has_key(old_counts, before[kk]));
                    let j = choose|j: int|
                        0 <= j < old_counts.len() && #[trigger] old_counts[j].0@ == before[kk];
                }
                lemma_count_name_absent(before, name@);
            }
            counts.push((name.clone(), 1));
            proof {
                assert forall|a: int, b: int| 0 <= a < b < counts@.len() implies counts@[a].0@
                    != counts@[b].0@ by {
                    assert(counts@[a] == old_counts[a]);
                    if b < old_counts.len() {
                        assert(counts@[b] == old_counts[b]);
                    }
                }
                assert forall|j: int| 0 <= j < counts@.len() implies counts@[j].1 as nat
                    == count_name(after, #[trigger] counts@[j].0@) by {
                    if j < old_counts.len() {
                        assert(counts@[j] == old_counts[j]);
                    }
                }
                assert forall|kk: int| 0 <= kk < after.len() implies has_key(
                    counts@,
                    #[trigger] after[kk],
                ) by {
                    if kk < before.len() {
                        assert(after[kk] == before[kk]);
                        assert(has_key(old_counts, before[kk]));
                        let j = choose|j: int|
                            0 <= j < old_counts.len() && #[trigger] old_counts[j].0@ == before[kk];
                        assert(counts@[j] == old_counts[j]);
                    } else {
                        assert(counts@[old_counts.len() as int].0@ == after[kk]);
                        assert(has_key(counts@, after[kk]));
                    }
                }
                assert(tallies(counts@, after));
            }
        }
        assert(tallies(counts@, after));
        k = k + 1;
    }
    assert(mismatches@.take(mismatches@.len() as int) == mismatches@);
    counts
}

impl JsonComparisonResult {
    /// Summarise a comparison result (`From<&ComparisonResult>`).
    pub fn from_result(result: &ComparisonResult) -> (j: Self)
        ensures
            j.file1@ == result.file1@,
            j.file2@ == result.file2@,
            j.common_signal_count == result.common_signals@.len(),
            j.signals_only_in_file1@ == result.signals_only_in_file1@,
            j.signals_only_in_file2@ == result.signals_only_in_file2@,
            tallies(j.mismatches_by_signal@, mismatch_names(result.mismatches@)),
            j.total_mismatches == result.total_mismatches,
            j.signals_with_mismatches == result.signals_with_mismatches,
            j.passed == result.passed,
    {
        JsonComparisonResult {
            file1: result.file1.clone(),
            file2: result.file2.clone(),
            common_signal_count: result.common_signals.len(),
            signals_only_in_file1: result.signals_only_in_file1.clone(),
            signals_only_in_file2: result.signals_only_in_file2.clone(),
            mismatches_by_signal: tally_mismatches(&result.mismatches),
            total_mismatches: result.total_mismatches,
            signals_with_mismatches: result.signals_with_mismatches,
            passed: result.passed,
        }
    }
}


/// A four-valued VCD logic level.
#[derive(Debug, Clone, Copy, PartialEq, Eq, Structural)]
pub enum LogicBit {
    V0,
    V1,
    X,
    Z,
}

pub open spec fn logic_char(b: LogicBit) -> char {
    match b {
        LogicBit::V0 => '0',
        LogicBit::V1 => '1',
        LogicBit::X => 'x',
        LogicBit::Z => 'z',
    }
}

pub fn logic_char_exec(b: LogicBit) -> (c: char)
    ensures
        c == logic_char(b),
{
    match b {
        LogicBit::V0 => '0',
        LogicBit::V1 => '1',
        LogicBit::X => 'x',
        LogicBit::Z => 'z',
    }
}

/// A VCD identifier code, held by its spelling in the file.
#[derive(Debug, Clone, PartialEq, Eq, Hash)]
pub struct IdCode {
    pub text: String,
}

/// One command of a VCD body, as the value-change logic reads it.
#[derive(Debug, Clone)]
pub enum BodyCommand {
    Timestamp(u64),
    ChangeScalar(IdCode, LogicBit),
    ChangeVector(IdCode, Vec<LogicBit>),
    ChangeReal(IdCode, RealValue),
    ChangeString(IdCode, String),
    /// Any other command (comments, dump control, declarations).
    Other,
}

/// Every level is 0 or 1.
pub open spec fn all_binary(v: Seq<LogicBit>) -> bool {
    forall|i: int| 0 <= i < v.len() ==> (#[trigger] v[i] == LogicBit::V0 || v[i] == LogicBit::V1)
}

/// Unsigned value of a binary vector, most significant level first.
pub open spec fn binary_value(v: Seq<LogicBit>) -> nat
    decreases v.len(),
{
    if v.len() == 0 {
        0
    } else {
        binary_value(v.drop_last()) * 2 + if v.last() == LogicBit::V1 {
            1nat
        } else {
            0nat
        }
    }
}

/// Text of a vector: one character per level.
pub open spec fn vector_text(v: Seq<LogicBit>) -> Seq<char> {
    v.map_values(|b: LogicBit| logic_char(b))
}

/// The sampled value of a vector change: binary vectors of at most 128
/// levels are integers, anything else is its text.
pub open spec fn vector_is_integer(v: Seq<LogicBit>) -> bool {
    all_binary(v) && v.len() <= 128
}

proof fn lemma_binary_value_bound(v: Seq<LogicBit>)
    ensures
        binary_value(v) < vstd::arithmetic::power2::pow2(v.len()),
    decreases v.len(),
{
    if v.len() > 0 {
        lemma_binary_value_bound(v.drop_last());
        vstd::arithmetic::power2::lemma_pow2_unfold(v.len());
    } else {
        vstd::arithmetic::power2::lemma_pow2_pos(0);
    }
}

/// Convert the levels of a vector change into a sampled value.
pub fn vector_to_change_value(vec: &[LogicBit]) -> (v: ChangeValue)
    ensures
        vector_is_integer(vec@) ==> v == ChangeValue::Integer(binary_value(vec@) as u128),
        !vector_is_integer(vec@) ==> (v matches ChangeValue::Text(t) && t@ == vector_text(vec@)),
{
    let mut binary = vec.len() <= 128;
    let mut i: usize = 0;
    while binary && i < vec.len()
        invariant
            i <= vec.len(),
            binary ==> vec@.len() <= 128,
            binary ==> forall|j: int| 0 <= j < i ==> (#[trigger] vec@[j] == LogicBit::V0 || vec@[j]
                == LogicBit::V1),
            !binary ==> !vector_is_integer(vec@),
        decreases vec.len() - i,
    {
        if vec[i] != LogicBit::V0 && vec[i] != LogicBit::V1 {
            binary = false;
        }
        i = i + 1;
    }
    if binary {
        let mut acc: u128 = 0;
        let mut k: usize = 0;
        proof {
            vstd::arithmetic::power2::lemma2_to64();
            vstd::arithmetic::power2::lemma_pow2_adds(64, 64);
        }
        while k < vec.len()
            invariant
                k <= vec.len() <= 128,
                all_binary(vec@),
                acc as nat == binary_value(vec@.take(k as int)),
                vstd::arithmetic::power2::pow2(128) == 0x1_0000_0000_0000_0000_0000_0000_0000_0000,
            decreases vec.len() - k,
        {
            assert(vec@.take(k + 1).drop_last() == vec@.take(k as int));
            proof {
                lemma_binary_value_bound(vec@.take(k as int));
                vstd::arithmetic::power2::lemma_pow2_strictly_increases(k as nat, 128);
                if k < 127 {
                    vstd::arithmetic::power2::lemma_pow2_strictly_increases(k as nat, 127);
                }
                vstd::arithmetic::power2::lemma_pow2_unfold(128);
            }
            let bit: u128 = if vec[k] == LogicBit::V1 {
                1
            } else {
                0
            };
            acc = acc * 2 + bit;
            k = k + 1;
        }
        assert(vec@.take(vec@.len() as int) == vec@);
        ChangeValue::Integer(acc)
    } else {
        let mut chars: Vec<char> = Vec::new();
        let mut j: usize = 0;
        while j < vec.len()
            invariant
                j <= vec.len(),
                chars@ == vector_text(vec@.take(j as int)),
            decreases vec.len() - j,
        {
            chars.push(logic_char_exec(vec[j]));
            j = j + 1;
            assert(vector_text(vec@.take(j as int)) == vector_text(vec@.take((j - 1) as int)).push(
                logic_char(vec@[j - 1]),
            ));
        }
        assert(vec@.take(vec@.len() as int) == vec@);
        ChangeValue::Text(string_of(chars.as_slice()))
    }
}

/// A copy of an identifier code.
pub fn copy_id(id: &IdCode) -> (c: IdCode)
    ensures
        c == *id,
{
    IdCode { text: id.text.clone() }
}

/// What the stream reads of a command: timestamps, the identifier of a
/// change of any kind, or nothing.
pub fn body_item_of(cmd: &BodyCommand) -> (item: crate::query::stream::BodyItem)
    ensures
        match *cmd {
            BodyCommand::Timestamp(t) => item == crate::query::stream::BodyItem::Timestamp(t),
            BodyCommand::ChangeScalar(id, _) => item == crate::query::stream::BodyItem::Change(id),
            BodyCommand::ChangeVector(id, _) => item == crate::query::stream::BodyItem::Change(id),
            BodyCommand::ChangeReal(id, _) => item == crate::query::stream::BodyItem::Change(id),
            BodyCommand::ChangeString(id, _) => item == crate::query::stream::BodyItem::Change(id),
            BodyCommand::Other => item == crate::query::stream::BodyItem::Other,
        },
{
    match cmd {
        BodyCommand::Timestamp(t) => crate::query::stream::BodyItem::Timestamp(*t),
        BodyCommand::ChangeScalar(id, _) => crate::query::stream::BodyItem::Change(copy_id(id)),
        BodyCommand::ChangeVector(id, _) => crate::query::stream::BodyItem::Change(copy_id(id)),
        BodyCommand::ChangeReal(id, _) => crate::query::stream::BodyItem::Change(copy_id(id)),
        BodyCommand::ChangeString(id, _) => crate::query::stream::BodyItem::Change(copy_id(id)),
        BodyCommand::Other => crate::query::stream::BodyItem::Other,
    }
}

/// The identifier and sampled value of a change command: a scalar as the
/// text of its level, a vector by [`vector_to_change_value`], reals and
/// strings as they are; other commands carry none.
pub fn command_to_change_value(cmd: BodyCommand) -> (r: Option<(IdCode, ChangeValue)>)
    ensures
        match cmd {
            BodyCommand::ChangeScalar(id, b) => r matches Some((i, ChangeValue::Text(t))) && i == id && t@ == seq![logic_char(b)],
            BodyCommand::ChangeVector(id, v) => r matches Some((i, val)) && i == id && if vector_is_integer(v@) {
                val == ChangeValue::Integer(binary_value(v@) as u128)
            } else {
                val matches ChangeValue::Text(t) && t@ == vector_text(v@)
            },
            BodyCommand::ChangeReal(id, rv) => r == Some((id, ChangeValue::Float(rv))),
            BodyCommand::ChangeString(id, s) => r == Some((id, ChangeValue::Text(s))),
            _ => r is None,
        },
{
    match cmd {
        BodyCommand::ChangeScalar(id, b) => {
            let mut chars: Vec<char> = Vec::new();
            chars.push(logic_char_exec(b));
            Some((id, ChangeValue::Text(string_of(chars.as_slice()))))
        },
        BodyCommand::ChangeVector(id, v) => Some((id, vector_to_change_value(v.as_slice()))),
        BodyCommand::ChangeReal(id, rv) => Some((id, ChangeValue::Float(rv))),
        BodyCommand::ChangeString(id, s) => Some((id, ChangeValue::Text(s))),
        _ => None,
    }
}

} // verus!
