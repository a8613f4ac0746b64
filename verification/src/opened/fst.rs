//! FST-specific decisions: error values, resource budgets of the hierarchy
//! walk, section preflight, timescale and value conversion, and the
//! per-change budget of signal visits.

use vstd::hash_map::StringHashMap;
use vstd::prelude::*;

use crate::query::compare::names_of;
use crate::query::stream::{event_bytes, interrupted, sat_add, sat_inc};
use crate::query::{limit_outcome, QueryContext, QueryError, QueryLimitKind, QueryResult};
use crate::server::protocol::{decode_utf8_bytes, utf8_decoded};
use crate::text::{all_digits, digits_value, parse_u128_radix_spec, utf8_len};
use crate::{generation_mismatch_error, ChangeValue, IoFailure, RealValue, TimeUnit, Timescale, VcdError};

verus! {

pub const MAX_FST_BYTES: u64 = 8_589_934_592;

pub const MAX_HIERARCHY_DEPTH: usize = 1_024;

pub const MAX_DECLARATIONS: usize = 1_000_000;

pub const MAX_NAME_BYTES: usize = 536_870_912;

pub const MAX_CATALOG_BYTES: usize = 1_073_741_824;

pub const MAX_HIERARCHY_UNCOMPRESSED_BYTES: u64 = 536_870_912;

pub const MAX_HIERARCHY_COMPRESSED_BYTES: u64 = 536_870_912;

/// Estimated catalog bytes per declared signal beyond its name.
pub const SIGNAL_OVERHEAD_BYTES: usize = 104;

/// Errors of the FST backend.
#[derive(Debug, Clone)]
pub enum FstError {
    Io { path: String, source: IoFailure },
    Parse(String),
    DuplicateSignal(String),
    MissingSignal(String),
    UnsupportedInput(String),
    UnsupportedValue(String),
    ResourceLimit { kind: String, limit: usize, actual: usize },
    StaleSource,
    ParserPanicked,
}

/// The text of an FST error.
pub open spec fn fst_error_text(e: FstError) -> Seq<char> {
    match e {
        FstError::Io { path, source } => "failed to access FST "@ + path@ + ": "@ + source.message@,
        FstError::Parse(m) => "FST parser error: "@ + m@,
        FstError::DuplicateSignal(m) => "duplicate FST signal name: "@ + m@,
        FstError::MissingSignal(m) => "FST signal not found: "@ + m@,
        FstError::UnsupportedInput(m) => "unsupported FST input: "@ + m@,
        FstError::UnsupportedValue(m) => "unsupported FST value: "@ + m@,
        FstError::ResourceLimit { kind, limit, actual } => "FST resource limit exceeded for "@ + kind@ + ": "@
            + crate::text::decimal_chars(actual as nat) + " > "@ + crate::text::decimal_chars(limit as nat),
        FstError::StaleSource => "FST source changed since it was opened"@,
        FstError::ParserPanicked => "FST parser panicked"@,
    }
}

impl FstError {
    /// The error's text (its `Display` in other front ends).
    pub fn message(&self) -> (s: String)
        ensures
            s@ == fst_error_text(*self),
    {
        proof {
            reveal_strlit(": ");
            reveal_strlit(" > ");
        }
        match self {
            FstError::Io { path, source } => {
                let mut s = crate::concat("failed to access FST ", path.as_str());
                s.append(": ");
                s.append(source.message.as_str());
                s
            },
            FstError::Parse(m) => crate::concat("FST parser error: ", m.as_str()),
            FstError::DuplicateSignal(m) => crate::concat("duplicate FST signal name: ", m.as_str()),
            FstError::MissingSignal(m) => crate::concat("FST signal not found: ", m.as_str()),
            FstError::UnsupportedInput(m) => crate::concat("unsupported FST input: ", m.as_str()),
            FstError::UnsupportedValue(m) => crate::concat("unsupported FST value: ", m.as_str()),
            FstError::ResourceLimit { kind, limit, actual } => {
                let mut s = crate::concat("FST resource limit exceeded for ", kind.as_str());
                s.append(": ");
                s.append(crate::text::usize_decimal(*actual).as_str());
                s.append(" > ");
                s.append(crate::text::usize_decimal(*limit).as_str());
                s
            },
            FstError::StaleSource => String::from_str("FST source changed since it was opened"),
            FstError::ParserPanicked => String::from_str("FST parser panicked"),
        }
    }
}

pub open spec fn resource_error_is(e: FstError, kind: Seq<char>, limit: usize, actual: usize) -> bool {
    e matches FstError::ResourceLimit { kind: k, limit: l, actual: a } && k@ == kind && l == limit
        && a == actual
}

/// Refuse a count above its limit.
pub fn ensure_resource(kind: &str, actual: usize, limit: usize) -> (r: Result<(), FstError>)
    ensures
        r is Ok <==> actual <= limit,
        r matches Err(e) ==> resource_error_is(e, kind@, limit, actual),
{
    if actual > limit {
        Err(FstError::ResourceLimit { kind: String::from_str(kind), limit, actual })
    } else {
        Ok(())
    }
}

/// Add `amount` to a running total unless the (saturating) sum exceeds the
/// limit; the total is unchanged on refusal.
pub fn charge_resource(kind: &str, current: &mut usize, amount: usize, limit: usize) -> (r: Result<(), FstError>)
    ensures
        ({
            let sum = if *old(current) + amount > usize::MAX { usize::MAX as int } else { *old(current) + amount };
            &&& r is Ok <==> sum <= limit
            &&& r is Ok ==> *final(current) == sum
            &&& r matches Err(e) ==> resource_error_is(e, kind@, limit, sum as usize) && *final(current) == *old(current)
        }),
{
    let actual = match current.checked_add(amount) {
        Some(v) => v,
        None => usize::MAX,
    };
    if actual > limit {
        return Err(FstError::ResourceLimit { kind: String::from_str(kind), limit, actual });
    }
    *current = actual;
    Ok(())
}

/// The decision on an input before it is opened as FST: inputs over
/// [`MAX_FST_BYTES`] and whole-file gzip wrappers (first byte `254`) are
/// refused.
pub fn check_fst_input(length: u64, first_byte: u8) -> (r: Result<(), FstError>)
    ensures
        length > MAX_FST_BYTES ==> (r matches Err(FstError::UnsupportedInput(m)) && m@ == "input exceeds 8589934592 byte limit"@),
        length <= MAX_FST_BYTES && first_byte == 254 ==> (r matches Err(FstError::UnsupportedInput(m)) && m@ == "whole-file gzip wrappers are disabled"@),
        length <= MAX_FST_BYTES && first_byte != 254 ==> r is Ok,
{
    if length > MAX_FST_BYTES {
        return Err(FstError::UnsupportedInput(String::from_str("input exceeds 8589934592 byte limit")));
    }
    if first_byte == 254 {
        return Err(FstError::UnsupportedInput(String::from_str("whole-file gzip wrappers are disabled")));
    }
    Ok(())
}

/// The kind of values of a variable: generic strings, reals, or digital.
pub fn fst_signal_type(is_generic_string: bool, is_real: bool) -> (t: FstSignalType)
    ensures
        t == if is_generic_string {
            FstSignalType::GenericString
        } else if is_real {
            FstSignalType::Real
        } else {
            FstSignalType::Digital
        },
{
    if is_generic_string {
        FstSignalType::GenericString
    } else if is_real {
        FstSignalType::Real
    } else {
        FstSignalType::Digital
    }
}

/// Kind of values a signal carries.
#[non_exhaustive]
#[derive(Debug, Clone, Copy, PartialEq, Eq, Structural)]
pub enum FstSignalType {
    Digital,
    Real,
    GenericString,
}

/// One declared FST signal.
#[derive(Debug, Clone)]
pub struct FstSignal {
    pub name: String,
    pub handle_index: usize,
    pub width: u32,
    pub signal_type: FstSignalType,
    pub is_alias: bool,
}

/// Header metadata of an FST file.
#[derive(Debug, Clone)]
pub struct FstMeta {
    pub start_time: u64,
    pub end_time: u64,
    pub signal_count: usize,
    pub unique_signal_count: usize,
    pub timescale_exponent: i8,
    pub timescale: Option<Timescale>,
    pub version: String,
    pub date: String,
}

/// The timescale for a power-of-ten exponent: magnitude 1, 10 or 100 of
/// seconds down to femtoseconds.
pub open spec fn timescale_of_exponent(exponent: i8) -> Option<Timescale> {
    let e = exponent as int;
    if 0 <= e <= 2 {
        Some(Timescale { magnitude: if e == 0 { 1 } else if e == 1 { 10 } else { 100 }, unit: TimeUnit::S })
    } else if -3 <= e <= -1 {
        Some(Timescale { magnitude: if e == -3 { 1 } else if e == -2 { 10 } else { 100 }, unit: TimeUnit::MS })
    } else if -6 <= e <= -4 {
        Some(Timescale { magnitude: if e == -6 { 1 } else if e == -5 { 10 } else { 100 }, unit: TimeUnit::US })
    } else if -9 <= e <= -7 {
        Some(Timescale { magnitude: if e == -9 { 1 } else if e == -8 { 10 } else { 100 }, unit: TimeUnit::NS })
    } else if -12 <= e <= -10 {
        Some(Timescale { magnitude: if e == -12 { 1 } else if e == -11 { 10 } else { 100 }, unit: TimeUnit::PS })
    } else if -15 <= e <= -13 {
        Some(Timescale { magnitude: if e == -15 { 1 } else if e == -14 { 10 } else { 100 }, unit: TimeUnit::FS })
    } else {
        None
    }
}

pub fn timescale_from_exponent(exponent: i8) -> (t: Option<Timescale>)
    ensures
        t == timescale_of_exponent(exponent),
{
    let bases: [i16; 6] = [0, -3, -6, -9, -12, -15];
    let units: [TimeUnit; 6] = [TimeUnit::S, TimeUnit::MS, TimeUnit::US, TimeUnit::NS, TimeUnit::PS, TimeUnit::FS];
    let e = exponent as i16;
    let mut i: usize = 0;
    while i < 6
        invariant
            0 <= i <= 6,
            bases@ == seq![0i16, -3i16, -6i16, -9i16, -12i16, -15i16],
            units@ == seq![TimeUnit::S, TimeUnit::MS, TimeUnit::US, TimeUnit::NS, TimeUnit::PS, TimeUnit::FS],
            e == exponent as i16,
            forall|j: int| 0 <= j < i ==> !(0 <= e - #[trigger] bases@[j] <= 2),
        decreases 6 - i,
    {
        let delta = e - bases[i];
        if delta == 0 {
            return Some(Timescale { magnitude: 1, unit: units[i] });
        } else if delta == 1 {
            return Some(Timescale { magnitude: 10, unit: units[i] });
        } else if delta == 2 {
            return Some(Timescale { magnitude: 100, unit: units[i] });
        }
        i = i + 1;
    }
    None
}

/// A value as the FST reader delivers it.
#[derive(Debug, Clone)]
pub enum FstRawValue {
    Real(RealValue),
    Bytes(Vec<u8>),
}

/// Digital text of 2..=128 binary digits is an integer.
pub open spec fn binary_integer_text(text: Seq<char>) -> bool {
    1 < text.len() <= 128 && forall|i: int| 0 <= i < text.len() ==> (#[trigger] text[i] == '0' || text[i] == '1')
}

/// `r` is what a raw FST value becomes: reals as they are; byte strings
/// must be UTF-8, and digital binary text of 2 to 128 digits is an integer.
pub open spec fn fst_value_is(r: Result<ChangeValue, FstError>, value: FstRawValue, signal_type: FstSignalType) -> bool {
    match value {
        FstRawValue::Real(rv) => r == Ok::<ChangeValue, FstError>(ChangeValue::Float(rv)),
        FstRawValue::Bytes(b) => match utf8_decoded(b@) {
            None => r matches Err(FstError::UnsupportedValue(m)) && m@ == "generic string is not valid UTF-8"@,
            Some(text) => if signal_type == FstSignalType::Digital && binary_integer_text(text)
                && parse_u128_radix_spec(text, 2) is Some {
                r == Ok::<ChangeValue, FstError>(ChangeValue::Integer(parse_u128_radix_spec(text, 2)->0))
            } else {
                r matches Ok(ChangeValue::Text(t)) && t@ == text
            },
        },
    }
}

/// Convert one raw FST value.
pub fn fst_value(value: FstRawValue, signal_type: FstSignalType) -> (r: Result<ChangeValue, FstError>)
    ensures
        fst_value_is(r, value, signal_type),
{
    match value {
        FstRawValue::Real(rv) => Ok(ChangeValue::Float(rv)),
        FstRawValue::Bytes(bytes) => {
            let ghost raw = bytes@;
            let text = match decode_utf8_bytes(bytes) {
                Some(t) => t,
                None => {
                    return Err(FstError::UnsupportedValue(String::from_str("generic string is not valid UTF-8")));
                },
            };
            let chars = crate::text::chars_of(text.as_str());
            if signal_type == FstSignalType::Digital && chars.len() > 1 && chars.len() <= 128 {
                let mut binary = true;
                let mut i: usize = 0;
                while i < chars.len()
                    invariant
                        i <= chars.len(),
                        binary ==> forall|j: int| 0 <= j < i ==> (#[trigger] chars@[j] == '0' || chars@[j] == '1'),
                        !binary ==> !binary_integer_text(chars@),
                    decreases chars.len() - i,
                {
                    if chars[i] != '0' && chars[i] != '1' {
                        binary = false;
                    }
                    i = i + 1;
                }
                if binary {
                    match crate::text::parse_u128_radix(chars.as_slice(), 2) {
                        Some(v) => {
                            return Ok(ChangeValue::Integer(v));
                        },
                        None => {},
                    }
                }
            }
            Ok(ChangeValue::Text(text))
        },
    }
}

/// Map an FST error to a query error: a stale source and I/O failures by
/// their classes, a missing signal as such, anything else as a parse error
/// carrying its message.
pub fn fst_to_query(error: FstError) -> (q: QueryError)
    ensures
        match error {
            FstError::StaleSource => q matches QueryError::StaleSource(VcdError::Io(f)) && f.generation_mismatch,
            FstError::Io { source, .. } => q == QueryError::SourceUnavailable(source),
            FstError::MissingSignal(s) => q matches QueryError::Vcd(VcdError::MissingSignal(n)) && n@ == s@,
            _ => q matches QueryError::Vcd(VcdError::Parse(_)),
        },
{
    match error {
        FstError::StaleSource => QueryError::StaleSource(generation_mismatch_error()),
        FstError::Io { source, .. } => QueryError::SourceUnavailable(source),
        FstError::MissingSignal(s) => QueryError::Vcd(VcdError::MissingSignal(s)),
        FstError::Parse(m) => QueryError::Vcd(VcdError::Parse(m)),
        FstError::DuplicateSignal(m) => QueryError::Vcd(VcdError::Parse(crate::concat("duplicate FST signal name: ", m.as_str()))),
        FstError::UnsupportedInput(m) => QueryError::Vcd(VcdError::Parse(crate::concat("unsupported FST input: ", m.as_str()))),
        FstError::UnsupportedValue(m) => QueryError::Vcd(VcdError::Parse(crate::concat("unsupported FST value: ", m.as_str()))),
        FstError::ResourceLimit { kind, .. } => QueryError::Vcd(VcdError::Parse(crate::concat("FST resource limit exceeded for ", kind.as_str()))),
        FstError::ParserPanicked => QueryError::Vcd(VcdError::Parse(String::from_str("FST parser panicked"))),
    }
}

/// One entry of the FST hierarchy as the catalog reads it.
#[derive(Debug, Clone)]
pub enum FstHierarchyItem {
    /// A scope: its name and component (the component wins unless empty).
    Scope { name: String, component: String },
    UpScope,
    Var { signal_type: FstSignalType, name: String, length: u32, handle_index: usize, is_alias: bool },
    Other,
}

/// The FST catalog under construction: open scope components, signals,
/// the name bytes charged so far, and each signal's index by its name.
pub struct FstCatalogBuilder {
    scopes: Vec<String>,
    signals: Vec<FstSignal>,
    name_bytes: usize,
    by_name: StringHashMap<usize>,
}

/// Full name of a variable under the open scopes: components and name
/// joined with dots.
pub open spec fn dotted(scopes: Seq<Seq<char>>, name: Seq<char>) -> Seq<char>
    decreases scopes.len(),
{
    if scopes.len() == 0 {
        name
    } else {
        dotted(scopes.drop_last(), scopes.last() + "."@ + name)
    }
}

/// Bytes charged for a variable's name: its length plus one per scope
/// component and separator.
pub open spec fn charged_name_len(scopes: Seq<Seq<char>>, name: Seq<char>) -> nat
    decreases scopes.len(),
{
    if scopes.len() == 0 {
        utf8_len(name)
    } else {
        charged_name_len(scopes.drop_last(), name) + utf8_len(scopes.last()) + 1
    }
}

/// `n`, saturated at `usize::MAX`.
pub open spec fn sat_usize(n: int) -> usize {
    if n > usize::MAX {
        usize::MAX
    } else {
        n as usize
    }
}

/// The name bytes after charging a variable named `name` under `scopes` on
/// top of `before` (saturating).
pub open spec fn var_name_bytes(before: usize, scopes: Seq<Seq<char>>, name: Seq<char>) -> usize {
    sat_usize(before + charged_name_len(scopes, name))
}

/// The estimated catalog bytes for `count` declarations and `name_bytes`
/// of names (saturating).
pub open spec fn catalog_estimate(name_bytes: usize, count: int) -> usize {
    sat_usize(name_bytes + sat_usize(count * SIGNAL_OVERHEAD_BYTES))
}

impl FstCatalogBuilder {
    pub closed spec fn spec_scopes(&self) -> Seq<Seq<char>> {
        self.scopes@.map_values(|s: String| s@)
    }

    pub closed spec fn spec_signals(&self) -> Seq<FstSignal> {
        self.signals@
    }

    pub closed spec fn spec_name_bytes(&self) -> usize {
        self.name_bytes
    }

    /// The name index holds exactly the declared names.
    pub closed spec fn indexed(&self) -> bool {
        forall|k: Seq<char>| #[trigger] self.by_name@.contains_key(k) <==> declares(self.signals@, k)
    }

    /// Signal names are distinct, within the bounds, and indexed.
    pub open spec fn wf(&self) -> bool {
        &&& forall|i: int, j: int| 0 <= i < j < self.spec_signals().len() ==> self.spec_signals()[i].name@ != self.spec_signals()[j].name@
        &&& self.spec_scopes().len() <= MAX_HIERARCHY_DEPTH
        &&& self.spec_signals().len() <= MAX_DECLARATIONS
        &&& self.indexed()
    }

    pub fn new() -> (b: Self)
        ensures
            b.wf(),
            b.spec_scopes().len() == 0,
            b.spec_signals().len() == 0,
            b.spec_name_bytes() == 0,
    {
        let b = FstCatalogBuilder { scopes: Vec::new(), signals: Vec::new(), name_bytes: 0, by_name: StringHashMap::new() };
        assert(b.spec_scopes() =~= Seq::<Seq<char>>::empty());
        b
    }

    /// Accept one hierarchy entry, enforcing depth, declaration, name and
    /// catalog byte budgets and distinct full names.
    #[verifier::loop_isolation(false)]
    pub fn on_entry(&mut self, entry: FstHierarchyItem) -> (r: Result<(), FstError>)
        requires
            old(self).wf(),
        ensures
            final(self).wf(),
            match entry {
                FstHierarchyItem::Scope { name, component } => {
                    let c = if component@.len() == 0 { name@ } else { component@ };
                    let bytes = sat_usize(old(self).spec_name_bytes() + utf8_len(c));
                    if old(self).spec_scopes().len() + 1 > MAX_HIERARCHY_DEPTH {
                        &&& r matches Err(e) && resource_error_is(e, "hierarchy_depth"@, MAX_HIERARCHY_DEPTH, (old(self).spec_scopes().len() + 1) as usize)
                        &&& final(self).spec_scopes() == old(self).spec_scopes()
                        &&& final(self).spec_signals() == old(self).spec_signals()
                        &&& final(self).spec_name_bytes() == old(self).spec_name_bytes()
                    } else if bytes > MAX_NAME_BYTES {
                        &&& r matches Err(e) && resource_error_is(e, "name_bytes"@, MAX_NAME_BYTES, bytes)
                        &&& final(self).spec_scopes() == old(self).spec_scopes()
                        &&& final(self).spec_signals() == old(self).spec_signals()
                        &&& final(self).spec_name_bytes() == old(self).spec_name_bytes()
                    } else {
                        &&& r is Ok
                        &&& final(self).spec_scopes() == old(self).spec_scopes().push(c)
                        &&& final(self).spec_signals() == old(self).spec_signals()
                        &&& final(self).spec_name_bytes() == bytes
                    }
                },
                FstHierarchyItem::UpScope => {
                    &&& r is Ok
                    &&& final(self).spec_scopes() == if old(self).spec_scopes().len() > 0 { old(self).spec_scopes().drop_last() } else { old(self).spec_scopes() }
                    &&& final(self).spec_signals() == old(self).spec_signals()
                    &&& final(self).spec_name_bytes() == old(self).spec_name_bytes()
                },
                FstHierarchyItem::Var { signal_type, name, length, handle_index, is_alias } => {
                    let n = old(self).spec_signals().len();
                    let full = dotted(old(self).spec_scopes(), name@);
                    let bytes = var_name_bytes(old(self).spec_name_bytes(), old(self).spec_scopes(), name@);
                    let estimate = catalog_estimate(bytes, (n + 1) as int);
                    &&& final(self).spec_scopes() == old(self).spec_scopes()
                    &&& if n + 1 > MAX_DECLARATIONS {
                        &&& r matches Err(e) && resource_error_is(e, "declarations"@, MAX_DECLARATIONS, (n + 1) as usize)
                        &&& final(self).spec_signals() == old(self).spec_signals()
                        &&& final(self).spec_name_bytes() == old(self).spec_name_bytes()
                    } else if bytes > MAX_NAME_BYTES {
                        &&& r matches Err(e) && resource_error_is(e, "name_bytes"@, MAX_NAME_BYTES, bytes)
                        &&& final(self).spec_signals() == old(self).spec_signals()
                        &&& final(self).spec_name_bytes() == old(self).spec_name_bytes()
                    } else if estimate > MAX_CATALOG_BYTES {
                        &&& r matches Err(e) && resource_error_is(e, "catalog_bytes"@, MAX_CATALOG_BYTES, estimate)
                        &&& final(self).spec_signals() == old(self).spec_signals()
                        &&& final(self).spec_name_bytes() == bytes
                    } else if declares(old(self).spec_signals(), full) {
                        &&& r matches Err(e) && (e matches FstError::DuplicateSignal(d) && d@ == full)
                        &&& final(self).spec_signals() == old(self).spec_signals()
                        &&& final(self).spec_name_bytes() == bytes
                    } else {
                        &&& r is Ok
                        &&& final(self).spec_name_bytes() == bytes
                        &&& final(self).spec_signals().len() == n + 1
                        &&& final(self).spec_signals().drop_last() == old(self).spec_signals()
                        &&& final(self).spec_signals().last().name@ == full
                        &&& final(self).spec_signals().last().handle_index == handle_index
                        &&& final(self).spec_signals().last().width == length
                        &&& final(self).spec_signals().last().signal_type == signal_type
                        &&& final(self).spec_signals().last().is_alias == is_alias
                    }
                },
                FstHierarchyItem::Other => r is Ok && final(self).spec_scopes() == old(self).spec_scopes()
                    && final(self).spec_signals() == old(self).spec_signals()
                    && final(self).spec_name_bytes() == old(self).spec_name_bytes(),
            },
    {
        match entry {
            FstHierarchyItem::Scope { name, component } => {
                let c = if component.as_str().is_empty() { name } else { component };
                ensure_resource("hierarchy_depth", self.scopes.len() + 1, MAX_HIERARCHY_DEPTH)?;
                let n = crate::server::protocol::byte_len(c.as_str());
                charge_resource("name_bytes", &mut self.name_bytes, n, MAX_NAME_BYTES)?;
                let ghost before = self.spec_scopes();
                self.scopes.push(c);
                assert(self.spec_scopes() =~= before.push(c@));
                Ok(())
            },
            FstHierarchyItem::UpScope => {
                let ghost before = self.spec_scopes();
                if self.scopes.len() > 0 {
                    self.scopes.pop();
                    assert(self.spec_scopes() =~= before.drop_last());
                }
                Ok(())
            },
            FstHierarchyItem::Var { signal_type, name, length, handle_index, is_alias } => {
                ensure_resource("declarations", self.signals.len() + 1, MAX_DECLARATIONS)?;
                let ghost sc = self.spec_scopes();
                let mut charged = crate::server::protocol::byte_len(name.as_str());
                let mut j: usize = 0;
                while j < self.scopes.len()
                    invariant
                        j <= self.scopes.len(),
                        sc == self.spec_scopes(),
                        self.wf(),
                        self.spec_signals() == old(self).spec_signals(),
                        self.spec_scopes() == old(self).spec_scopes(),
                        self.spec_name_bytes() == old(self).spec_name_bytes(),
                        charged == sat_usize(charged_name_len(sc.take(j as int), name@) as int),
                    decreases self.scopes.len() - j,
                {
                    let part = crate::server::protocol::byte_len(self.scopes[j].as_str());
                    proof {
                        assert(sc.take(j + 1).drop_last() =~= sc.take(j as int));
                        assert(sc.take(j + 1).last() == self.scopes@[j as int]@);
                    }
                    charged = charged.saturating_add(part).saturating_add(1);
                    j = j + 1;
                }
                assert(sc.take(sc.len() as int) =~= sc);
                let mut full = name;
                let mut k = self.scopes.len();
                proof {
                    assert(sc.take(k as int) =~= sc);
                }
                while k > 0
                    invariant
                        k <= self.scopes.len(),
                        sc == self.spec_scopes(),
                        self.wf(),
                        self.spec_signals() == old(self).spec_signals(),
                        self.spec_scopes() == old(self).spec_scopes(),
                        self.spec_name_bytes() == old(self).spec_name_bytes(),
                        dotted(sc, name@) == dotted(sc.take(k as int), full@),
                    decreases k,
                {
                    let mut prefix = self.scopes[k - 1].clone();
                    prefix.append(".");
                    prefix.append(full.as_str());
                    proof {
                        reveal_strlit(".");
                        assert(sc.take(k as int).drop_last() =~= sc.take(k - 1));
                        assert(sc.take(k as int).last() == self.scopes@[k - 1]@);
                    }
                    full = prefix;
                    k = k - 1;
                }
                proof {
                    assert(sc.take(0) =~= Seq::<Seq<char>>::empty());
                }
                charge_resource("name_bytes", &mut self.name_bytes, charged, MAX_NAME_BYTES)?;
                let per_signal = match (self.signals.len() + 1).checked_mul(SIGNAL_OVERHEAD_BYTES) {
                    Some(v) => v,
                    None => usize::MAX,
                };
                let estimated = self.name_bytes.saturating_add(per_signal);
                ensure_resource("catalog_bytes", estimated, MAX_CATALOG_BYTES)?;
                assert(full@ == dotted(sc, name@));
                if self.by_name.contains_key(full.as_str()) {
                    return Err(FstError::DuplicateSignal(full));
                }
                let ghost before = self.spec_signals();
                let index = self.signals.len();
                self.by_name.insert(full.clone(), index);
                self.signals.push(FstSignal { name: full, handle_index, width: length, signal_type, is_alias });
                assert(self.spec_signals().drop_last() =~= before);
                proof {
                    let key = self.signals@[index as int].name@;
                    assert forall|q: Seq<char>| #[trigger] self.by_name@.contains_key(q) <==> declares(self.signals@, q) by {
                        if declares(self.signals@, q) {
                            let i = choose|i: int| 0 <= i < self.signals@.len() && #[trigger] self.signals@[i].name@ == q;
                            if i < index {
                                assert(before[i].name@ == q);
                                assert(declares(before, q));
                            }
                        }
                        if q != key && declares(before, q) {
                            let i = choose|i: int| 0 <= i < before.len() && #[trigger] before[i].name@ == q;
                            assert(self.signals@[i].name@ == q);
                        }
                    }
                    assert(declares(self.signals@, key)) by {
                        assert(self.signals@[index as int].name@ == key);
                    }
                }
                Ok(())
            },
            FstHierarchyItem::Other => Ok(()),
        }
    }

    /// The declared signals and how many distinct value handles they use.
    pub fn finish(self) -> (r: (Vec<FstSignal>, usize))
        requires
            self.wf(),
        ensures
            r.0@ == self.spec_signals(),
            r.1 == handle_set(self.spec_signals()).len(),
    {
        let signals = self.signals;
        let mut handles: Vec<usize> = Vec::new();
        let mut i: usize = 0;
        assert(handles@.to_set() =~= handle_set(signals@.take(0)));
        while i < signals.len()
            invariant
                i <= signals.len(),
                handles@.no_duplicates(),
                handles@.to_set() == handle_set(signals@.take(i as int)),
            decreases signals.len() - i,
        {
            let h = signals[i].handle_index;
            let mut seen = false;
            let mut j: usize = 0;
            while j < handles.len()
                invariant
                    j <= handles.len(),
                    seen == handles@.take(j as int).contains(h),
                decreases handles.len() - j,
            {
                let ghost prefix = handles@.take(j as int);
                assert(handles@.take(j + 1) =~= prefix.push(handles@[j as int]));
                if handles[j] == h {
                    seen = true;
                    assert(handles@.take(j + 1)[j as int] == h);
                } else {
                    assert(handles@.take(j + 1).contains(h) ==> prefix.contains(h)) by {
                        if handles@.take(j + 1).contains(h) {
                            let w = choose|w: int| 0 <= w < j + 1 && #[trigger] handles@.take(j + 1)[w] == h;
                            assert(w < j);
                            assert(prefix[w] == h);
                        }
                    }
                    assert(prefix.contains(h) ==> handles@.take(j + 1).contains(h)) by {
                        if prefix.contains(h) {
                            let w = choose|w: int| 0 <= w < j && #[trigger] prefix[w] == h;
                            assert(handles@.take(j + 1)[w] == h);
                        }
                    }
                }
                j = j + 1;
            }
            assert(handles@.take(handles.len() as int) =~= handles@);
            let ghost before = handles@;
            if !seen {
                handles.push(h);
                assert forall|a: int, b: int| 0 <= a < handles@.len() && 0 <= b < handles@.len() && a != b implies handles@[a] != handles@[b] by {
                    if a < before.len() && b < before.len() {
                    } else if a == before.len() {
                        assert(before.contains(before[b]));
                    } else {
                        assert(before.contains(before[a]));
                    }
                }
            }
            proof {
                assert(signals@.take(i + 1) =~= signals@.take(i as int).push(signals@[i as int]));
                assert(signals@.take(i + 1).map_values(|x: FstSignal| x.handle_index) =~= signals@.take(i as int).map_values(|x: FstSignal| x.handle_index).push(h));
                assert(handles@.to_set() =~= before.to_set().insert(h)) by {
                    if !seen {
                        assert(handles@ =~= before.push(h));
                        before.lemma_push_to_set_commute(h);
                    } else {
                        assert(before.to_set().contains(h));
                    }
                }
                signals@.take(i as int).map_values(|x: FstSignal| x.handle_index).lemma_push_to_set_commute(h);
            }
            i = i + 1;
        }
        assert(signals@.take(signals.len() as int) =~= signals@);
        proof {
            handles@.unique_seq_to_set();
        }
        let count = handles.len();
        (signals, count)
    }
}

/// The distinct value handles of a signal sequence.
pub open spec fn handle_set(signals: Seq<FstSignal>) -> Set<usize> {
    signals.map_values(|x: FstSignal| x.handle_index).to_set()
}

/// `value` as `usize`, or `usize::MAX` when it does not fit.
pub open spec fn clamp_usize(value: u64) -> usize {
    if value <= usize::MAX { value as usize } else { usize::MAX }
}

fn clamp_to_usize(value: u64) -> (r: usize)
    ensures
        r == clamp_usize(value),
{
    if value <= usize::MAX as u64 {
        value as usize
    } else {
        usize::MAX
    }
}

/// What to do with one top-level FST section.
#[derive(Debug, Clone, Copy, PartialEq, Eq, Structural)]
pub enum SectionPlan {
    /// The terminating empty section: stop.
    End,
    /// Skip to the section's end.
    Skip { section_end: u64 },
    /// A compressed hierarchy section: read its uncompressed length (and,
    /// for the LZ4 double-compressed kind, its intermediate length), check
    /// them, then skip to the end.
    CheckHierarchy { section_end: u64, intermediate: bool },
}

pub open spec fn is_hierarchy_kind(kind: u8) -> bool {
    kind == 4 || kind == 6 || kind == 7
}

/// Plan one section from its kind byte, the offset after that byte, its
/// declared length and the file length: lengths below 8, overflowing ends
/// and ends beyond the file are refused; hierarchy sections are bounded.
pub fn plan_section(kind: u8, section_start: u64, section_length: u64, file_len: u64) -> (r: Result<SectionPlan, FstError>)
    ensures
        kind == 255 && section_length == 0 ==> r == Ok::<SectionPlan, FstError>(SectionPlan::End),
        !(kind == 255 && section_length == 0) ==> {
            if section_length < 8 {
                r matches Err(FstError::Parse(m)) && m@ == "invalid FST section length"@
            } else if section_start + section_length > u64::MAX {
                r matches Err(FstError::Parse(m)) && m@ == "FST section length overflow"@
            } else if section_start + section_length > file_len {
                r matches Err(FstError::Parse(m)) && m@ == "FST section extends beyond input"@
            } else if is_hierarchy_kind(kind) {
                if section_length > MAX_HIERARCHY_COMPRESSED_BYTES {
                    r matches Err(e) && resource_error_is(e, "hierarchy_compressed_bytes"@, MAX_HIERARCHY_COMPRESSED_BYTES as usize, clamp_usize(section_length))
                } else if section_length < 16 {
                    r matches Err(FstError::Parse(m)) && m@ == "compressed FST hierarchy header is truncated"@
                } else {
                    r == Ok::<SectionPlan, FstError>(SectionPlan::CheckHierarchy { section_end: (section_start + section_length) as u64, intermediate: kind == 7 })
                }
            } else {
                r == Ok::<SectionPlan, FstError>(SectionPlan::Skip { section_end: (section_start + section_length) as u64 })
            }
        },
{
    if kind == 255 && section_length == 0 {
        return Ok(SectionPlan::End);
    }
    if section_length < 8 {
        return Err(FstError::Parse(String::from_str("invalid FST section length")));
    }
    let section_end = match section_start.checked_add(section_length) {
        Some(e) => e,
        None => {
            return Err(FstError::Parse(String::from_str("FST section length overflow")));
        },
    };
    if section_end > file_len {
        return Err(FstError::Parse(String::from_str("FST section extends beyond input")));
    }
    if kind == 4 || kind == 6 || kind == 7 {
        if section_length > MAX_HIERARCHY_COMPRESSED_BYTES {
            return Err(FstError::ResourceLimit {
                kind: String::from_str("hierarchy_compressed_bytes"),
                limit: MAX_HIERARCHY_COMPRESSED_BYTES as usize,
                actual: clamp_to_usize(section_length),
            });
        }
        if section_length < 16 {
            return Err(FstError::Parse(String::from_str("compressed FST hierarchy header is truncated")));
        }
        return Ok(SectionPlan::CheckHierarchy { section_end, intermediate: kind == 7 });
    }
    Ok(SectionPlan::Skip { section_end })
}

/// Refuse a declared hierarchy length above the limit.
pub fn check_hierarchy_length(kind: &str, length: u64, limit: u64) -> (r: Result<(), FstError>)
    ensures
        r is Ok <==> length <= limit,
        r matches Err(e) ==> resource_error_is(e, kind@, clamp_usize(limit), clamp_usize(length)),
{
    if length > limit {
        Err(FstError::ResourceLimit { kind: String::from_str(kind), limit: clamp_to_usize(limit), actual: clamp_to_usize(length) })
    } else {
        Ok(())
    }
}

/// Decoding of an unsigned LEB128 length, byte by byte (at most ten).
pub struct VarintDecoder {
    value: u64,
    index: u32,
}

/// Value bits contributed by byte number `index`.
pub open spec fn varint_bits(byte: u8, index: u32) -> u64 {
    ((byte & 0x7f) as u64) << (7 * index) as u64
}

impl VarintDecoder {
    pub closed spec fn spec_value(&self) -> u64 {
        self.value
    }

    pub closed spec fn spec_index(&self) -> u32 {
        self.index
    }

    pub fn new() -> (d: Self)
        ensures
            d.spec_value() == 0,
            d.spec_index() == 0,
    {
        VarintDecoder { value: 0, index: 0 }
    }

    /// Feed the next byte: the value when its continuation bit is clear, an
    /// error after ten bytes, otherwise `None` (more bytes needed).
    pub fn feed(&mut self, byte: u8) -> (r: Option<Result<u64, FstError>>)
        requires
            old(self).spec_index() < 10,
        ensures
            final(self).spec_value() == old(self).spec_value() | varint_bits(byte, old(self).spec_index()),
            final(self).spec_index() == old(self).spec_index() + 1,
            byte & 0x80 == 0 ==> r == Some(Ok::<u64, FstError>(final(self).spec_value())),
            byte & 0x80 != 0 && final(self).spec_index() == 10 ==> (r matches Some(Err(FstError::Parse(m))) && m@ == "invalid FST hierarchy length encoding"@),
            byte & 0x80 != 0 && final(self).spec_index() < 10 ==> r is None,
    {
        let shift: u32 = 7 * self.index;
        let bits: u64 = ((byte & 0x7f) as u64) << shift;
        self.value = self.value | bits;
        self.index = self.index + 1;
        if byte & 0x80 == 0 {
            Some(Ok(self.value))
        } else if self.index == 10 {
            Some(Err(FstError::Parse(String::from_str("invalid FST hierarchy length encoding"))))
        } else {
            None
        }
    }
}


/// Declared FST signals with a name index.
pub struct FstSignalTable {
    signals: Vec<FstSignal>,
    by_name: StringHashMap<usize>,
}

impl FstSignalTable {
    pub closed spec fn spec_signals(&self) -> Seq<FstSignal> {
        self.signals@
    }

    pub closed spec fn name_index(&self) -> Map<Seq<char>, usize> {
        self.by_name@
    }

    /// The index maps every name to its signal and nothing else.
    pub open spec fn wf(&self) -> bool {
        &&& forall|i: int| 0 <= i < self.spec_signals().len() ==> self.name_index().contains_key(#[trigger] self.spec_signals()[i].name@) && self.name_index()[self.spec_signals()[i].name@] == i
        &&& forall|k: Seq<char>| #[trigger] self.name_index().contains_key(k) ==> self.name_index()[k] < self.spec_signals().len() && self.spec_signals()[self.name_index()[k] as int].name@ == k
    }

    /// Index signals whose names are distinct.
    pub fn from_signals(signals: Vec<FstSignal>) -> (t: Self)
        requires
            forall|i: int, j: int| 0 <= i < j < signals@.len() ==> signals@[i].name@ != signals@[j].name@,
        ensures
            t.wf(),
            t.spec_signals() == signals@,
    {
        let mut by_name: StringHashMap<usize> = StringHashMap::new();
        let mut i: usize = 0;
        while i < signals.len()
            invariant
                i <= signals.len(),
                forall|a: int, b: int| 0 <= a < b < signals@.len() ==> signals@[a].name@ != signals@[b].name@,
                forall|a: int| 0 <= a < i ==> by_name@.contains_key(#[trigger] signals@[a].name@) && by_name@[signals@[a].name@] == a,
                forall|k: Seq<char>| #[trigger] by_name@.contains_key(k) ==> by_name@[k] < i && signals@[by_name@[k] as int].name@ == k,
            decreases signals.len() - i,
        {
            let ghost before = by_name@;
            by_name.insert(signals[i].name.clone(), i);
            assert forall|a: int| 0 <= a < i + 1 implies by_name@.contains_key(#[trigger] signals@[a].name@) && by_name@[signals@[a].name@] == a by {
                if a < i {
                    assert(signals@[a].name@ != signals@[i as int].name@);
                }
            }
            i = i + 1;
        }
        FstSignalTable { signals, by_name }
    }

    pub fn signal_count(&self) -> (n: usize)
        ensures
            n == self.spec_signals().len(),
    {
        self.signals.len()
    }

    pub fn signals(&self) -> (s: &Vec<FstSignal>)
        ensures
            s@ == self.spec_signals(),
    {
        &self.signals
    }

    /// The signal with this full name, when the index holds it.
    pub open spec fn named(&self, name: Seq<char>) -> FstSignal {
        self.spec_signals()[self.name_index()[name] as int]
    }

    /// The signal with this full name.
    pub fn signal(&self, name: &str) -> (r: Option<&FstSignal>)
        requires
            self.wf(),
        ensures
            match r {
                Some(s) => (exists|i: int| 0 <= i < self.spec_signals().len() && self.spec_signals()[i] == *s && s.name@ == name@)
                    && *s == self.named(name@),
                None => forall|i: int| 0 <= i < self.spec_signals().len() ==> self.spec_signals()[i].name@ != name@,
            },
    {
        match self.by_name.get(name) {
            Some(i) => Some(&self.signals[*i]),
            None => {
                proof {
                    assert forall|i: int| 0 <= i < self.spec_signals().len() implies self.spec_signals()[i].name@ != name@ by {
                        assert(self.name_index().contains_key(self.spec_signals()[i].name@));
                    }
                }
                None
            },
        }
    }

    /// The signal names in declaration order.
    pub open spec fn names(&self) -> Seq<Seq<char>> {
        self.spec_signals().map_values(|s: FstSignal| s.name@)
    }

    /// Names of the signals, in declaration order, that contain `filter`
    /// (all of them without one).
    pub fn list_signals(&self, filter: Option<&str>) -> (out: Vec<String>)
        ensures
            out@.map_values(|n: String| n@) == self.names().filter(|n: Seq<char>| match filter {
                Some(f) => crate::text::contains_seq(n, f@),
                None => true,
            }),
    {
        let ghost pred = |n: Seq<char>| match filter {
            Some(f) => crate::text::contains_seq(n, f@),
            None => true,
        };
        let mut out: Vec<String> = Vec::new();
        let mut i: usize = 0;
        proof {
            assert(self.names().take(0) =~= Seq::<Seq<char>>::empty());
            reveal(Seq::filter);
            assert(Seq::<Seq<char>>::empty().filter(pred) =~= Seq::<Seq<char>>::empty());
            assert(out@.map_values(|n: String| n@) =~= Seq::<Seq<char>>::empty());
        }
        while i < self.signals.len()
            invariant
                i <= self.signals.len(),
                pred == (|n: Seq<char>| match filter {
                    Some(f) => crate::text::contains_seq(n, f@),
                    None => true,
                }),
                out@.map_values(|n: String| n@) == self.names().take(i as int).filter(pred),
            decreases self.signals.len() - i,
        {
            let keep = match filter {
                Some(f) => crate::text::contains_str(self.signals[i].name.as_str(), f),
                None => true,
            };
            let ghost before = out@.map_values(|n: String| n@);
            assert(pred(self.signals@[i as int].name@) == keep);
            proof {
                reveal(Seq::filter);
                assert(self.names().take(i + 1).drop_last() =~= self.names().take(i as int));
                assert(self.names().take(i + 1).last() == self.signals@[i as int].name@);
            }
            if keep {
                out.push(self.signals[i].name.clone());
                assert(out@.map_values(|n: String| n@) =~= before.push(self.signals@[i as int].name@));
            }
            i = i + 1;
        }
        assert(self.names().take(self.signals@.len() as int) =~= self.names());
        out
    }
}

/// Some signal has this name.
pub open spec fn declares(signals: Seq<FstSignal>, name: Seq<char>) -> bool {
    exists|i: int| 0 <= i < signals.len() && signals[i].name@ == name
}

/// The handles of the targets' signals, without repeats, in first-seen
/// order.
pub open spec fn target_handles(table: FstSignalTable, targets: Seq<Seq<char>>) -> Seq<usize>
    decreases targets.len(),
{
    if targets.len() == 0 {
        Seq::empty()
    } else {
        let prev = target_handles(table, targets.drop_last());
        let h = table.named(targets.last()).handle_index;
        if prev.contains(h) {
            prev
        } else {
            prev.push(h)
        }
    }
}

/// The targets whose signal has handle `h`, in request order.
pub open spec fn handle_targets(table: FstSignalTable, targets: Seq<Seq<char>>, h: usize) -> Seq<Seq<char>>
    decreases targets.len(),
{
    if targets.len() == 0 {
        Seq::empty()
    } else {
        let prev = handle_targets(table, targets.drop_last(), h);
        if table.named(targets.last()).handle_index == h {
            prev.push(targets.last())
        } else {
            prev
        }
    }
}

/// The value kind of the last target whose signal has handle `h`.
pub open spec fn handle_type(table: FstSignalTable, targets: Seq<Seq<char>>, h: usize) -> FstSignalType
    decreases targets.len(),
{
    if targets.len() == 0 {
        FstSignalType::Digital
    } else if table.named(targets.last()).handle_index == h {
        table.named(targets.last()).signal_type
    } else {
        handle_type(table, targets.drop_last(), h)
    }
}

/// The plan reads the targets' handles, and per handle (in the same order)
/// routes its changes, with the kind of its signal, to every target that
/// has it.
pub open spec fn routes_targets(handles: Seq<usize>, routes: Seq<(usize, FstSignalType, Vec<String>)>, table: FstSignalTable, targets: Seq<Seq<char>>) -> bool {
    &&& handles == target_handles(table, targets)
    &&& handles.no_duplicates()
    &&& routes.len() == handles.len()
    &&& forall|k: int| 0 <= k < routes.len() ==> {
        &&& (#[trigger] routes[k]).0 == handles[k]
        &&& routes[k].1 == handle_type(table, targets, handles[k])
        &&& names_of(routes[k].2@) == handle_targets(table, targets, handles[k])
    }
}

proof fn lemma_absent_handle(table: FstSignalTable, targets: Seq<Seq<char>>, h: usize)
    requires
        !target_handles(table, targets).contains(h),
    ensures
        handle_targets(table, targets, h) == Seq::<Seq<char>>::empty(),
    decreases targets.len(),
{
    if targets.len() > 0 {
        let prev = target_handles(table, targets.drop_last());
        if prev.contains(h) {
            let i = choose|i: int| 0 <= i < prev.len() && prev[i] == h;
            if !prev.contains(table.named(targets.last()).handle_index) {
                assert(prev.push(table.named(targets.last()).handle_index)[i] == h);
            }
        }
        if table.named(targets.last()).handle_index == h {
            if !prev.contains(h) {
                assert(prev.push(h)[prev.len() as int] == h);
            }
        }
        lemma_absent_handle(table, targets.drop_last(), h);
    }
}

/// Handles to read and, per handle, its value kind and requested names.
pub struct FstVisitPlan {
    pub handles: Vec<usize>,
    pub routes: Vec<(usize, FstSignalType, Vec<String>)>,
    pub start: u64,
    pub end: u64,
}

/// Prepare an occurrence search in an FST: occurrence 0 is refused first,
/// then the context is checked, then the signal must exist; its width.
pub fn find_prepare_fst(table: &FstSignalTable, signal: &str, occurrence: usize, context: &QueryContext) -> (r: QueryResult<u32>)
    requires
        table.wf(),
    ensures
        occurrence < 1 ==> r == Err::<u32, QueryError>(QueryError::Vcd(VcdError::InvalidOccurrence)),
        occurrence >= 1 && r is Err && !interrupted(*context, r) ==> !declares(table.spec_signals(), signal@)
            && (r matches Err(QueryError::Vcd(VcdError::MissingSignal(n))) && n@ == signal@),
        occurrence >= 1 && r is Ok ==> declares(table.spec_signals(), signal@)
            && r == Ok::<u32, QueryError>(table.named(signal@).width),
        occurrence >= 1 && !interrupted(*context, r) ==> (r is Ok <==> declares(table.spec_signals(), signal@)),
{
    if occurrence < 1 {
        return Err(QueryError::Vcd(VcdError::InvalidOccurrence));
    }
    context.check()?;
    match table.signal(signal) {
        Some(s) => Ok(s.width),
        None => Err(QueryError::Vcd(VcdError::MissingSignal(String::from_str(signal)))),
    }
}

#[verifier::loop_isolation(false)]
/// Plan a visit of `targets` in a window: the signal budget is checked
/// first, an empty window plans nothing, and every target must exist. The
/// window defaults to the file's start and end.
pub fn plan_visit(table: &FstSignalTable, targets: &Vec<String>, start: Option<u64>, end: Option<u64>, end_time: u64, context: &QueryContext) -> (r: QueryResult<Option<FstVisitPlan>>)
    requires
        table.wf(),
    ensures
        !interrupted(*context, r) ==> {
            let budget = limit_outcome(
                QueryLimitKind::Signals,
                match context.spec_limits().spec_max_signals() { Some(l) => Some(l as u64), None => None },
                targets@.len() as u64,
            );
            match budget {
                Err(e) => r matches Err(e2) && e2 == e,
                Ok(()) => if start matches Some(s) && end matches Some(e) && s > e {
                    r matches Ok(None)
                } else {
                    match r {
                        Ok(Some(plan)) => {
                            &&& plan.start == match start { Some(s) => s, None => 0 }
                            &&& plan.end == match end { Some(e) => e, None => end_time }
                            &&& forall|t: int| 0 <= t < targets@.len() ==> declares(table.spec_signals(), #[trigger] targets@[t]@)
                            &&& routes_targets(plan.handles@, plan.routes@, *table, names_of(targets@))
                        },
                        Err(QueryError::Vcd(VcdError::MissingSignal(n))) => exists|t: int| {
                            &&& 0 <= t < targets@.len()
                            &&& #[trigger] targets@[t]@ == n@
                            &&& forall|i: int| 0 <= i < table.spec_signals().len() ==> table.spec_signals()[i].name@ != n@
                            &&& forall|u: int| 0 <= u < t ==> declares(table.spec_signals(), #[trigger] targets@[u]@)
                        },
                        _ => false,
                    }
                },
            }
        },
{
    context.check_signal_count(targets.len())?;
    match (start, end) {
        (Some(s), Some(e)) => if s > e {
            return Ok(None);
        },
        _ => {},
    }
    let mut handles: Vec<usize> = Vec::new();
    let mut routes: Vec<(usize, FstSignalType, Vec<String>)> = Vec::new();
    let ghost tv = names_of(targets@);
    let mut t: usize = 0;
    assert(routes_targets(handles@, routes@, *table, tv.take(0)));
    while t < targets.len()
        invariant
            table.wf(),
            t <= targets.len(),
            tv == names_of(targets@),
            forall|u: int| 0 <= u < t ==> declares(table.spec_signals(), #[trigger] targets@[u]@),
            routes_targets(handles@, routes@, *table, tv.take(t as int)),
        decreases targets.len() - t,
    {
        let signal = match table.signal(targets[t].as_str()) {
            Some(s) => s,
            None => {
                let n = targets[t].clone();
                assert(targets@[t as int]@ == n@);
                return Err(QueryError::Vcd(VcdError::MissingSignal(n)));
            },
        };
        assert(declares(table.spec_signals(), targets@[t as int]@));
        let ghost before = tv.take(t as int);
        let ghost after = tv.take(t + 1);
        let ghost x = tv[t as int];
        assert(after.drop_last() =~= before);
        assert(after.last() == x);
        assert(x == targets@[t as int]@);
        let h = signal.handle_index;
        assert(table.named(x).handle_index == h);
        let mut found: Option<usize> = None;
        let mut j: usize = 0;
        while j < routes.len()
            invariant
                j <= routes.len(),
                found matches Some(k) ==> k < routes.len() && routes@[k as int].0 == h,
                found is None ==> forall|i: int| 0 <= i < j ==> routes@[i].0 != h,
            decreases routes.len() - j,
        {
            if routes[j].0 == h {
                found = Some(j);
            }
            j = j + 1;
        }
        let ghost old_routes = routes@;
        let ghost old_handles = handles@;
        match found {
            Some(k) => {
                let (rh, _, mut names) = routes.remove(k);
                let ghost before_names = names_of(names@);
                names.push(targets[t].clone());
                assert(names_of(names@) =~= before_names.push(x));
                routes.insert(k, (rh, signal.signal_type, names));
                proof {
                    assert(old_handles[k as int] == h);
                    assert(old_handles.contains(h));
                    assert(target_handles(*table, after) == old_handles);
                    assert forall|q: int| 0 <= q < routes@.len() implies {
                        &&& (#[trigger] routes@[q]).0 == handles@[q]
                        &&& routes@[q].1 == handle_type(*table, after, handles@[q])
                        &&& names_of(routes@[q].2@) == handle_targets(*table, after, handles@[q])
                    } by {
                        if q < k {
                            assert(routes@[q] == old_routes[q]);
                        } else if q > k {
                            assert(routes@[q] == old_routes[q]);
                        }
                        if q != k {
                            assert(old_handles[q] != old_handles[k as int]);
                        }
                    }
                    assert(routes@.len() == old_routes.len());
                }
            },
            None => {
                proof {
                    assert(!old_handles.contains(h)) by {
                        if old_handles.contains(h) {
                            let i = choose|i: int| 0 <= i < old_handles.len() && old_handles[i] == h;
                            assert(old_routes[i].0 == h);
                        }
                    }
                    lemma_absent_handle(*table, before, h);
                }
                handles.push(h);
                let mut names: Vec<String> = Vec::new();
                names.push(targets[t].clone());
                assert(names_of(names@) =~= Seq::<Seq<char>>::empty().push(x));
                routes.push((h, signal.signal_type, names));
                proof {
                    assert(target_handles(*table, after) == old_handles.push(h));
                    assert forall|a: int, b: int| 0 <= a < handles@.len() && 0 <= b < handles@.len() && a != b implies handles@[a] != handles@[b] by {
                        if a == old_handles.len() {
                            assert(old_handles.contains(old_handles[b]));
                        } else if b == old_handles.len() {
                            assert(old_handles.contains(old_handles[a]));
                        }
                    }
                    assert forall|q: int| 0 <= q < routes@.len() implies {
                        &&& (#[trigger] routes@[q]).0 == handles@[q]
                        &&& routes@[q].1 == handle_type(*table, after, handles@[q])
                        &&& names_of(routes@[q].2@) == handle_targets(*table, after, handles@[q])
                    } by {
                        if q < old_routes.len() {
                            assert(routes@[q] == old_routes[q]);
                            assert(handles@[q] == old_handles[q]);
                            assert(old_routes[q].0 != h);
                        }
                    }
                }
            },
        }
        t = t + 1;
    }
    assert(tv.take(targets.len() as int) =~= tv);
    context.check()?;
    let s = match start {
        Some(s) => s,
        None => 0,
    };
    let e = match end {
        Some(e) => e,
        None => end_time,
    };
    let plan = FstVisitPlan { handles, routes, start: s, end: e };
    assert(!(start matches Some(a) && end matches Some(b) && a > b));
    Ok(Some(plan))
}

/// Work, rows and logical bytes of one FST visit.
pub struct FstVisitBudget {
    work: u64,
    rows: u64,
    bytes: u64,
}

impl FstVisitBudget {
    pub closed spec fn spec_work(&self) -> u64 {
        self.work
    }

    /// Value changes accounted so far.
    pub fn work(&self) -> (n: u64)
        ensures
            n == self.spec_work(),
    {
        self.work
    }

    pub closed spec fn spec_rows(&self) -> u64 {
        self.rows
    }

    pub closed spec fn spec_bytes(&self) -> u64 {
        self.bytes
    }

    pub fn new() -> (b: Self)
        ensures
            b.spec_work() == 0,
            b.spec_rows() == 0,
            b.spec_bytes() == 0,
    {
        FstVisitBudget { work: 0, rows: 0, bytes: 0 }
    }

    #[verifier::loop_isolation(false)]
    /// Account one value change delivered by the reader: it counts as work,
    /// the context is checked, the command budget enforced; changes outside
    /// the window or of unrequested handles are skipped (`Ok(None)`);
    /// otherwise the route serving the handle.
    pub fn accept_change(&mut self, context: &QueryContext, plan: &FstVisitPlan, time: u64, handle: usize) -> (r: QueryResult<Option<usize>>)
        ensures
            final(self).spec_work() == sat_inc(old(self).spec_work()),
            final(self).spec_rows() == old(self).spec_rows(),
            final(self).spec_bytes() == old(self).spec_bytes(),
            !interrupted(*context, r) ==> match limit_outcome(QueryLimitKind::Commands, context.spec_limits().spec_max_commands(), sat_inc(old(self).spec_work())) {
                Err(e) => r matches Err(e2) && e2 == e,
                Ok(()) => if time < plan.start || time > plan.end {
                    r matches Ok(None)
                } else {
                    match r {
                        Ok(Some(k)) => k < plan.routes@.len() && plan.routes@[k as int].0 == handle,
                        Ok(None) => forall|k: int| 0 <= k < plan.routes@.len() ==> plan.routes@[k].0 != handle,
                        Err(_) => false,
                    }
                },
            },
    {
        self.work = self.work.saturating_add(1);
        context.check()?;
        match context.limits().max_commands() {
            Some(limit) => if self.work > limit {
                return Err(QueryError::LimitExceeded { kind: QueryLimitKind::Commands, limit, actual: self.work });
            },
            None => {},
        }
        if time < plan.start || time > plan.end {
            return Ok(None);
        }
        let mut k: usize = 0;
        while k < plan.routes.len()
            invariant
                k <= plan.routes.len(),
                forall|j: int| 0 <= j < k ==> plan.routes@[j].0 != handle,
            decreases plan.routes.len() - k,
        {
            if plan.routes[k].0 == handle {
                return Ok(Some(k));
            }
            k = k + 1;
        }
        Ok(None)
    }

    /// Charge one emitted row for `name`; refused when the row or byte budget
    /// would be exceeded (counters unchanged then).
    pub fn charge(&mut self, context: &QueryContext, name: &str, value: &ChangeValue) -> (r: QueryResult<()>)
        ensures
            final(self).spec_work() == old(self).spec_work(),
            ({
                let next_rows = sat_inc(old(self).spec_rows());
                let next_bytes = sat_add(old(self).spec_bytes(), event_bytes(name@, *value) as int);
                match limit_outcome(QueryLimitKind::Rows, context.spec_limits().spec_max_rows(), next_rows) {
                    Err(e) => r == Err::<(), QueryError>(e) && final(self).spec_rows() == old(self).spec_rows(),
                    Ok(()) => match limit_outcome(QueryLimitKind::ResultBytes, context.spec_limits().spec_max_result_bytes(), next_bytes) {
                        Err(e) => r == Err::<(), QueryError>(e) && final(self).spec_rows() == old(self).spec_rows(),
                        Ok(()) => r is Ok && final(self).spec_rows() == next_rows && final(self).spec_bytes() == next_bytes,
                    },
                }
            }),
    {
        let next_rows = self.rows.saturating_add(1);
        match context.limits().max_rows() {
            Some(limit) => if next_rows > limit {
                return Err(QueryError::LimitExceeded { kind: QueryLimitKind::Rows, limit, actual: next_rows });
            },
            None => {},
        }
        let next_bytes = self.bytes.saturating_add(crate::query::stream::logical_event_bytes(name, value));
        match context.limits().max_result_bytes() {
            Some(limit) => if next_bytes > limit {
                return Err(QueryError::LimitExceeded { kind: QueryLimitKind::ResultBytes, limit, actual: next_bytes });
            },
            None => {},
        }
        self.rows = next_rows;
        self.bytes = next_bytes;
        Ok(())
    }
}

} // verus!
