//! Architectural trace extraction: retired instructions and register writes
//! sampled on each rising clock edge while the core is out of reset.

use vstd::prelude::*;

use crate::query::stream::copy_value;
use crate::text::{
    chars_of, decimal_chars, hex_chars, parse_u128_radix, parse_u128_radix_spec, str_eq, trim,
    trim_chars, u128_decimal_padded, u128_hex_padded, zero_pad,
};
use crate::{concat, ChangeValue};

verus! {

/// Number of signals a trace reads.
pub const TRACE_ROLES: usize = 10;

/// Hierarchical names of the signals a trace reads.
#[derive(Debug, Clone, PartialEq, Eq)]
pub struct SignalPaths {
    pub clk: String,
    pub rst_n: String,
    pub inst_retired: String,
    pub instruction: String,
    pub pc: String,
    pub rf_we_qual: String,
    pub rf_we_lsu: String,
    pub rd_addr: String,
    pub rd_wdata: String,
    pub rd_wdata_lsu: String,
}

/// Replacement names, field by field; absent fields keep the default.
#[derive(Debug, Clone, Default, PartialEq, Eq)]
pub struct PathOverrides {
    pub clk: Option<String>,
    pub rst_n: Option<String>,
    pub inst_retired: Option<String>,
    pub instruction: Option<String>,
    pub pc: Option<String>,
    pub rf_we_qual: Option<String>,
    pub rf_we_lsu: Option<String>,
    pub rd_addr: Option<String>,
    pub rd_wdata: Option<String>,
    pub rd_wdata_lsu: Option<String>,
}

/// The names in role order: clock, reset, retire strobe, instruction, PC,
/// qualified and load/store write enables, destination register, and the
/// two write data buses.
pub open spec fn paths_seq(p: SignalPaths) -> Seq<Seq<char>> {
    seq![
        p.clk@,
        p.rst_n@,
        p.inst_retired@,
        p.instruction@,
        p.pc@,
        p.rf_we_qual@,
        p.rf_we_lsu@,
        p.rd_addr@,
        p.rd_wdata@,
        p.rd_wdata_lsu@,
    ]
}

pub open spec fn cpu_scope() -> Seq<char> {
    "tb.U_CHIP.U_TOP_VCORE.U_TOP_CORE.U_TOP_CPU.U_CPU"@
}

pub open spec fn clock_scope() -> Seq<char> {
    "tb.U_CHIP.U_TOP_VCORE.U_TOP_CORE.U_TOP_CPU"@
}

pub open spec fn rf_scope() -> Seq<char> {
    "tb.U_CHIP.U_TOP_VCORE.U_TOP_CORE.U_TOP_CPU.U_CPU.U_RF"@
}

/// The built-in signal names of the reference core.
pub fn default_paths() -> (p: SignalPaths)
    ensures
        p.clk@ == clock_scope() + ".clk_cpu"@,
        p.rst_n@ == cpu_scope() + ".rst_cpu_n"@,
        p.inst_retired@ == cpu_scope() + ".inst_retired"@,
        p.instruction@ == cpu_scope() + ".instruction_r[31:0]"@,
        p.pc@ == cpu_scope() + ".pc_exe_r[21:0]"@,
        p.rf_we_qual@ == rf_scope() + ".rf_write_enable_qual"@,
        p.rf_we_lsu@ == rf_scope() + ".rf_write_enable_lsu"@,
        p.rd_addr@ == rf_scope() + ".rd_addr[4:0]"@,
        p.rd_wdata@ == rf_scope() + ".rd_wdata[31:0]"@,
        p.rd_wdata_lsu@ == rf_scope() + ".rd_wdata_lsu[31:0]"@,
{
    let cpu = "tb.U_CHIP.U_TOP_VCORE.U_TOP_CORE.U_TOP_CPU.U_CPU";
    let clk_parent = "tb.U_CHIP.U_TOP_VCORE.U_TOP_CORE.U_TOP_CPU";
    let rf = "tb.U_CHIP.U_TOP_VCORE.U_TOP_CORE.U_TOP_CPU.U_CPU.U_RF";
    SignalPaths {
        clk: concat(clk_parent, ".clk_cpu"),
        rst_n: concat(cpu, ".rst_cpu_n"),
        inst_retired: concat(cpu, ".inst_retired"),
        instruction: concat(cpu, ".instruction_r[31:0]"),
        pc: concat(cpu, ".pc_exe_r[21:0]"),
        rf_we_qual: concat(rf, ".rf_write_enable_qual"),
        rf_we_lsu: concat(rf, ".rf_write_enable_lsu"),
        rd_addr: concat(rf, ".rd_addr[4:0]"),
        rd_wdata: concat(rf, ".rd_wdata[31:0]"),
        rd_wdata_lsu: concat(rf, ".rd_wdata_lsu[31:0]"),
    }
}

pub open spec fn pick(over: Option<String>, base: String) -> String {
    match over {
        Some(v) => v,
        None => base,
    }
}

fn pick_exec(over: Option<String>, base: String) -> (s: String)
    ensures
        s == pick(over, base),
{
    match over {
        Some(v) => v,
        None => base,
    }
}

impl SignalPaths {
    /// Each name given in `over` replaces the corresponding one.
    pub fn with_overrides(self, over: PathOverrides) -> (p: SignalPaths)
        ensures
            p.clk == pick(over.clk, self.clk),
            p.rst_n == pick(over.rst_n, self.rst_n),
            p.inst_retired == pick(over.inst_retired, self.inst_retired),
            p.instruction == pick(over.instruction, self.instruction),
            p.pc == pick(over.pc, self.pc),
            p.rf_we_qual == pick(over.rf_we_qual, self.rf_we_qual),
            p.rf_we_lsu == pick(over.rf_we_lsu, self.rf_we_lsu),
            p.rd_addr == pick(over.rd_addr, self.rd_addr),
            p.rd_wdata == pick(over.rd_wdata, self.rd_wdata),
            p.rd_wdata_lsu == pick(over.rd_wdata_lsu, self.rd_wdata_lsu),
    {
        SignalPaths {
            clk: pick_exec(over.clk, self.clk),
            rst_n: pick_exec(over.rst_n, self.rst_n),
            inst_retired: pick_exec(over.inst_retired, self.inst_retired),
            instruction: pick_exec(over.instruction, self.instruction),
            pc: pick_exec(over.pc, self.pc),
            rf_we_qual: pick_exec(over.rf_we_qual, self.rf_we_qual),
            rf_we_lsu: pick_exec(over.rf_we_lsu, self.rf_we_lsu),
            rd_addr: pick_exec(over.rd_addr, self.rd_addr),
            rd_wdata: pick_exec(over.rd_wdata, self.rd_wdata),
            rd_wdata_lsu: pick_exec(over.rd_wdata_lsu, self.rd_wdata_lsu),
        }
    }

    /// The names in role order.
    pub fn target_names(&self) -> (out: Vec<String>)
        ensures
            out@.map_values(|s: String| s@) == paths_seq(*self),
    {
        let out = vec![
            self.clk.clone(),
            self.rst_n.clone(),
            self.inst_retired.clone(),
            self.instruction.clone(),
            self.pc.clone(),
            self.rf_we_qual.clone(),
            self.rf_we_lsu.clone(),
            self.rd_addr.clone(),
            self.rd_wdata.clone(),
            self.rd_wdata_lsu.clone(),
        ];
        assert(out@.map_values(|s: String| s@) =~= paths_seq(*self));
        out
    }
}

/// A sampled value read as a logic level: integers are high when non-zero,
/// the texts `0` and `1` are levels, anything else is none.
pub open spec fn bool_of(v: ChangeValue) -> Option<bool> {
    match v {
        ChangeValue::Integer(i) => Some(i != 0),
        ChangeValue::Text(t) => if t@ == seq!['0'] {
            Some(false)
        } else if t@ == seq!['1'] {
            Some(true)
        } else {
            None
        },
        ChangeValue::Float(_) => None,
    }
}

/// A sampled value read as a 64-bit number: integers keep their low 64
/// bits, text is trimmed and parsed as an unsigned decimal (`u64::from_str`).
pub open spec fn u64_of(v: ChangeValue) -> Option<u64> {
    match v {
        ChangeValue::Integer(i) => Some((i % 0x1_0000_0000_0000_0000) as u64),
        ChangeValue::Text(t) => match parse_u128_radix_spec(trim_chars(t@), 10) {
            Some(n) => if n <= u64::MAX {
                Some(n as u64)
            } else {
                None
            },
            None => None,
        },
        ChangeValue::Float(_) => None,
    }
}

pub fn value_to_bool(val: &ChangeValue) -> (r: Option<bool>)
    ensures
        r == bool_of(*val),
{
    match val {
        ChangeValue::Integer(i) => Some(*i != 0),
        ChangeValue::Text(t) => {
            let chars = chars_of(t.as_str());
            if chars.len() == 1 && chars[0] == '0' {
                assert(t@ =~= seq!['0']);
                Some(false)
            } else if chars.len() == 1 && chars[0] == '1' {
                assert(t@ =~= seq!['1']);
                Some(true)
            } else {
                None
            }
        },
        ChangeValue::Float(_) => None,
    }
}

pub fn value_to_u64(val: &ChangeValue) -> (r: Option<u64>)
    ensures
        r == u64_of(*val),
{
    match val {
        ChangeValue::Integer(i) => Some((*i % 0x1_0000_0000_0000_0000u128) as u64),
        ChangeValue::Text(t) => {
            let chars = chars_of(t.as_str());
            let trimmed = trim(chars.as_slice());
            match parse_u128_radix(trimmed.as_slice(), 10) {
                Some(n) => if n <= 0xffff_ffff_ffff_ffffu128 {
                    Some(n as u64)
                } else {
                    None
                },
                None => None,
            }
        },
        ChangeValue::Float(_) => None,
    }
}

/// The level of role `k`; an absent or unreadable value is low.
pub open spec fn role_high(values: Seq<Option<ChangeValue>>, k: int) -> bool {
    match values[k] {
        Some(v) => bool_of(v) == Some(true),
        None => false,
    }
}

/// The number of role `k`, if it has a readable one.
pub open spec fn role_number(values: Seq<Option<ChangeValue>>, k: int) -> Option<u64> {
    match values[k] {
        Some(v) => u64_of(v),
        None => None,
    }
}

/// `PC : 0x{pc:08x} I : 0x{instr:08x} ` and a newline.
pub open spec fn retire_line(pc: u64, instr: u64) -> Seq<char> {
    "PC : 0x"@ + zero_pad(hex_chars(pc as nat), 8) + " I : 0x"@ + zero_pad(hex_chars(instr as nat), 8)
        + " \n"@
}

/// `x{addr:02} <= 0x{data:08x}` and a newline.
pub open spec fn write_line(addr: u64, data: u64) -> Seq<char> {
    "x"@ + zero_pad(decimal_chars(addr as nat), 2) + " <= 0x"@ + zero_pad(hex_chars(data as nat), 8)
        + "\n"@
}

/// The register write reported from data role `data`, when the destination
/// and the data are both readable.
pub open spec fn write_lines(values: Seq<Option<ChangeValue>>, data: int) -> Seq<Seq<char>> {
    match (role_number(values, 7), role_number(values, data)) {
        (Some(addr), Some(d)) => seq![write_line(addr, d)],
        _ => Seq::empty(),
    }
}

/// What one clock cycle reports: nothing in reset; otherwise the retired
/// instruction when the retire strobe is high and PC and instruction are
/// readable, then the register write of the qualified port, or else of the
/// load/store port.
pub open spec fn cycle_lines(values: Seq<Option<ChangeValue>>) -> Seq<Seq<char>> {
    if !role_high(values, 1) {
        Seq::empty()
    } else {
        let retire = match (role_number(values, 4), role_number(values, 3)) {
            (Some(pc), Some(instr)) => if role_high(values, 2) {
                seq![retire_line(pc, instr)]
            } else {
                Seq::empty()
            },
            _ => Seq::empty(),
        };
        let write = if role_high(values, 5) {
            write_lines(values, 8)
        } else if role_high(values, 6) {
            write_lines(values, 9)
        } else {
            Seq::empty()
        };
        retire + write
    }
}

/// Some event of `pending` sets the clock (named `clk`) high.
pub open spec fn clock_goes_high(clk: Seq<char>, pending: Seq<(String, ChangeValue)>) -> bool
    decreases pending.len(),
{
    if pending.len() == 0 {
        false
    } else {
        clock_goes_high(clk, pending.drop_last()) || (pending.last().0@ == clk && bool_of(
            pending.last().1,
        ) == Some(true))
    }
}

/// Every role named `name` takes the value `v`.
pub open spec fn apply_event(
    paths: Seq<Seq<char>>,
    values: Seq<Option<ChangeValue>>,
    name: Seq<char>,
    v: ChangeValue,
) -> Seq<Option<ChangeValue>> {
    Seq::new(values.len(), |k: int| if paths[k] == name { Some(v) } else { values[k] })
}

/// Values and clock level after applying `pending` in order.
pub open spec fn apply_all(
    paths: Seq<Seq<char>>,
    values: Seq<Option<ChangeValue>>,
    clock: Option<bool>,
    pending: Seq<(String, ChangeValue)>,
) -> (Seq<Option<ChangeValue>>, Option<bool>)
    decreases pending.len(),
{
    if pending.len() == 0 {
        (values, clock)
    } else {
        let (vs, c) = apply_all(paths, values, clock, pending.drop_last());
        let e = pending.last();
        (apply_event(paths, vs, e.0@, e.1), if e.0@ == paths[0] {
            bool_of(e.1)
        } else {
            c
        })
    }
}

/// The end of one timestamp: a rising clock edge (low before the timestamp,
/// set high by one of its events) reports the cycle of the values before
/// the timestamp, unless it is the first edge, which only starts tracing;
/// then the timestamp's events are applied in order. Result: values, clock
/// level, whether tracing started, and the reported lines.
pub open spec fn flush_spec(
    paths: Seq<Seq<char>>,
    values: Seq<Option<ChangeValue>>,
    clock: Option<bool>,
    started: bool,
    pending: Seq<(String, ChangeValue)>,
) -> (Seq<Option<ChangeValue>>, Option<bool>, bool, Seq<Seq<char>>) {
    let rising = clock == Some(false) && clock_goes_high(paths[0], pending);
    let lines = if rising && started {
        cycle_lines(values)
    } else {
        Seq::empty()
    };
    let (vs, c) = apply_all(paths, values, clock, pending);
    (vs, c, started || rising, lines)
}

/// The trace of a stream of changes, one timestamp at a time.
pub struct TraceExtractor {
    paths: Vec<String>,
    values: Vec<Option<ChangeValue>>,
    clock: Option<bool>,
    started: bool,
    current_time: Option<u64>,
    pending: Vec<(String, ChangeValue)>,
}

impl TraceExtractor {
    pub closed spec fn spec_paths(&self) -> Seq<Seq<char>> {
        self.paths@.map_values(|s: String| s@)
    }

    pub closed spec fn spec_values(&self) -> Seq<Option<ChangeValue>> {
        self.values@
    }

    pub closed spec fn spec_clock(&self) -> Option<bool> {
        self.clock
    }

    pub closed spec fn spec_started(&self) -> bool {
        self.started
    }

    pub closed spec fn spec_time(&self) -> Option<u64> {
        self.current_time
    }

    pub closed spec fn spec_pending(&self) -> Seq<(String, ChangeValue)> {
        self.pending@
    }

    pub open spec fn wf(&self) -> bool {
        self.spec_paths().len() == TRACE_ROLES && self.spec_values().len() == TRACE_ROLES
    }

    /// Nothing seen yet: no values, clock unknown, tracing not started.
    pub fn new(paths: &SignalPaths) -> (t: Self)
        ensures
            t.wf(),
            t.spec_paths() == paths_seq(*paths),
            t.spec_values() == Seq::new(TRACE_ROLES as nat, |_k: int| None::<ChangeValue>),
            t.spec_clock() is None,
            !t.spec_started(),
            t.spec_time() is None,
            t.spec_pending().len() == 0,
    {
        let names = paths.target_names();
        let mut values: Vec<Option<ChangeValue>> = Vec::new();
        let mut k: usize = 0;
        while k < TRACE_ROLES
            invariant
                k <= TRACE_ROLES,
                values@ == Seq::new(k as nat, |_j: int| None::<ChangeValue>),
            decreases TRACE_ROLES - k,
        {
            values.push(None);
            k = k + 1;
        }
        TraceExtractor {
            paths: names,
            values,
            clock: None,
            started: false,
            current_time: None,
            pending: Vec::new(),
        }
    }

    fn role_high_exec(&self, k: usize) -> (b: bool)
        requires
            self.wf(),
            k < TRACE_ROLES,
        ensures
            b == role_high(self.spec_values(), k as int),
    {
        match &self.values[k] {
            Some(v) => match value_to_bool(v) {
                Some(b) => b,
                None => false,
            },
            None => false,
        }
    }

    fn role_number_exec(&self, k: usize) -> (n: Option<u64>)
        requires
            self.wf(),
            k < TRACE_ROLES,
        ensures
            n == role_number(self.spec_values(), k as int),
    {
        match &self.values[k] {
            Some(v) => value_to_u64(v),
            None => None,
        }
    }

    fn push_write(&self, out: &mut Vec<String>, data: usize)
        requires
            self.wf(),
            data < TRACE_ROLES,
        ensures
            final(out)@.map_values(|s: String| s@) == old(out)@.map_values(|s: String| s@)
                + write_lines(self.spec_values(), data as int),
    {
        let ghost before = out@.map_values(|s: String| s@);
        match (self.role_number_exec(7), self.role_number_exec(data)) {
            (Some(addr), Some(d)) => {
                let mut line = concat("x", u128_decimal_padded(addr as u128, 2).as_str());
                line.append(" <= 0x");
                line.append(u128_hex_padded(d as u128, 8).as_str());
                line.append("\n");
                proof {
                    reveal_strlit("x");
                    reveal_strlit(" <= 0x");
                    reveal_strlit("\n");
                }
                out.push(line);
                assert(out@.map_values(|s: String| s@) =~= before + seq![write_line(addr, d)]);
            },
            _ => {
                assert(out@.map_values(|s: String| s@) =~= before);
            },
        }
    }

    /// The lines of the cycle of the current values.
    fn cycle(&self) -> (out: Vec<String>)
        requires
            self.wf(),
        ensures
            out@.map_values(|s: String| s@) == cycle_lines(self.spec_values()),
    {
        let mut out: Vec<String> = Vec::new();
        if !self.role_high_exec(1) {
            assert(out@.map_values(|s: String| s@) =~= Seq::<Seq<char>>::empty());
            return out;
        }
        match (self.role_number_exec(4), self.role_number_exec(3)) {
            (Some(pc), Some(instr)) => {
                if self.role_high_exec(2) {
                    let mut line = concat("PC : 0x", u128_hex_padded(pc as u128, 8).as_str());
                    line.append(" I : 0x");
                    line.append(u128_hex_padded(instr as u128, 8).as_str());
                    line.append(" \n");
                    out.push(line);
                }
            },
            _ => {},
        }
        let ghost retire = out@.map_values(|s: String| s@);
        proof {
            reveal_strlit("PC : 0x");
            reveal_strlit(" I : 0x");
            reveal_strlit(" \n");
            let values = self.spec_values();
            let expected = match (role_number(values, 4), role_number(values, 3)) {
                (Some(pc), Some(instr)) => if role_high(values, 2) {
                    seq![retire_line(pc, instr)]
                } else {
                    Seq::empty()
                },
                _ => Seq::empty(),
            };
            assert(retire =~= expected);
        }
        if self.role_high_exec(5) {
            self.push_write(&mut out, 8);
        } else if self.role_high_exec(6) {
            self.push_write(&mut out, 9);
        } else {
            assert(out@.map_values(|s: String| s@) =~= retire + Seq::<Seq<char>>::empty());
        }
        out
    }

    /// Apply one change to every role it names.
    fn apply(&mut self, name: &str, value: &ChangeValue)
        requires
            old(self).wf(),
        ensures
            final(self).wf(),
            final(self).spec_values() == apply_event(
                old(self).spec_paths(),
                old(self).spec_values(),
                name@,
                *value,
            ),
            final(self).spec_clock() == (if name@ == old(self).spec_paths()[0] {
                bool_of(*value)
            } else {
                old(self).spec_clock()
            }),
            final(self).spec_paths() == old(self).spec_paths(),
            final(self).spec_started() == old(self).spec_started(),
            final(self).spec_time() == old(self).spec_time(),
            final(self).spec_pending() == old(self).spec_pending(),
    {
        let ghost paths = self.spec_paths();
        let ghost start = self.spec_values();
        let mut k: usize = 0;
        while k < TRACE_ROLES
            invariant
                k <= TRACE_ROLES,
                self.wf(),
                self.spec_paths() == paths,
                self.spec_clock() == old(self).spec_clock(),
                self.spec_started() == old(self).spec_started(),
                self.spec_time() == old(self).spec_time(),
                self.spec_pending() == old(self).spec_pending(),
                start == old(self).spec_values(),
                paths == old(self).spec_paths(),
                forall|j: int|
                    0 <= j < TRACE_ROLES ==> #[trigger] self.spec_values()[j] == (if j < k
                        && paths[j] == name@ {
                        Some(*value)
                    } else {
                        start[j]
                    }),
            decreases TRACE_ROLES - k,
        {
            if str_eq(self.paths[k].as_str(), name) {
                self.values.set(k, Some(copy_value(value)));
            }
            k = k + 1;
        }
        if str_eq(self.paths[0].as_str(), name) {
            self.clock = value_to_bool(value);
        }
        assert(self.spec_values() =~= apply_event(paths, start, name@, *value));
    }

    /// End the current timestamp.
    fn flush(&mut self) -> (lines: Vec<String>)
        requires
            old(self).wf(),
        ensures
            final(self).wf(),
            ({
                let f = flush_spec(
                    old(self).spec_paths(),
                    old(self).spec_values(),
                    old(self).spec_clock(),
                    old(self).spec_started(),
                    old(self).spec_pending(),
                );
                &&& final(self).spec_values() == f.0
                &&& final(self).spec_clock() == f.1
                &&& final(self).spec_started() == f.2
                &&& lines@.map_values(|s: String| s@) == f.3
            }),
            final(self).spec_paths() == old(self).spec_paths(),
            final(self).spec_time() == old(self).spec_time(),
            final(self).spec_pending().len() == 0,
    {
        let ghost paths = self.spec_paths();
        let ghost pending = self.spec_pending();
        let mut high = false;
        let mut i: usize = 0;
        while i < self.pending.len()
            invariant
                i <= self.pending.len(),
                self.wf(),
                self.spec_paths() == paths,
                self.spec_pending() == pending,
                high == clock_goes_high(paths[0], pending.take(i as int)),
            decreases self.pending.len() - i,
        {
            proof {
                assert(pending.take(i + 1).drop_last() =~= pending.take(i as int));
            }
            if str_eq(self.pending[i].0.as_str(), self.paths[0].as_str()) {
                match value_to_bool(&self.pending[i].1) {
                    Some(true) => {
                        high = true;
                    },
                    _ => {},
                }
            }
            i = i + 1;
        }
        assert(pending.take(pending.len() as int) =~= pending);
        let was_low = match self.clock {
            Some(level) => !level,
            None => false,
        };
        let rising = was_low && high;
        let lines = if rising && self.started {
            self.cycle()
        } else {
            let empty: Vec<String> = Vec::new();
            assert(empty@.map_values(|s: String| s@) =~= Seq::<Seq<char>>::empty());
            empty
        };
        if rising {
            self.started = true;
        }
        let ghost started = self.spec_started();
        let ghost values0 = self.spec_values();
        let ghost clock0 = self.spec_clock();
        let mut pending_events: Vec<(String, ChangeValue)> = Vec::new();
        std::mem::swap(&mut pending_events, &mut self.pending);
        let mut j: usize = 0;
        while j < pending_events.len()
            invariant
                j <= pending_events.len(),
                pending_events@ == pending,
                self.wf(),
                self.spec_paths() == paths,
                self.spec_started() == started,
                self.spec_time() == old(self).spec_time(),
                self.spec_pending().len() == 0,
                (self.spec_values(), self.spec_clock()) == apply_all(
                    paths,
                    values0,
                    clock0,
                    pending.take(j as int),
                ),
            decreases pending_events.len() - j,
        {
            proof {
                assert(pending.take(j + 1).drop_last() =~= pending.take(j as int));
            }
            self.apply(pending_events[j].0.as_str(), &pending_events[j].1);
            j = j + 1;
        }
        lines
    }

    /// Accept one change at `time`. A change at a new time first ends the
    /// previous timestamp and returns what that reported.
    pub fn push(&mut self, name: String, time: u64, value: ChangeValue) -> (lines: Vec<String>)
        requires
            old(self).wf(),
        ensures
            final(self).wf(),
            final(self).spec_paths() == old(self).spec_paths(),
            final(self).spec_time() == Some(time),
            if old(self).spec_time() matches Some(t) && t != time {
                let f = flush_spec(
                    old(self).spec_paths(),
                    old(self).spec_values(),
                    old(self).spec_clock(),
                    old(self).spec_started(),
                    old(self).spec_pending(),
                );
                &&& final(self).spec_values() == f.0
                &&& final(self).spec_clock() == f.1
                &&& final(self).spec_started() == f.2
                &&& lines@.map_values(|s: String| s@) == f.3
                &&& final(self).spec_pending() == seq![(name, value)]
            } else {
                &&& final(self).spec_values() == old(self).spec_values()
                &&& final(self).spec_clock() == old(self).spec_clock()
                &&& final(self).spec_started() == old(self).spec_started()
                &&& lines@.len() == 0
                &&& final(self).spec_pending() == old(self).spec_pending().push((name, value))
            },
    {
        let new_time = match self.current_time {
            Some(t) => t != time,
            None => false,
        };
        let lines = if new_time {
            self.flush()
        } else {
            Vec::new()
        };
        self.current_time = Some(time);
        self.pending.push((name, value));
        proof {
            if new_time {
                assert(self.spec_pending() =~= seq![(name, value)]);
            }
        }
        lines
    }

    /// End of the stream: end the last timestamp, then report the final
    /// cycle if tracing started. The extractor is spent afterwards.
    pub fn finish(&mut self) -> (lines: Vec<String>)
        requires
            old(self).wf(),
        ensures
            ({
                let f = if old(self).spec_pending().len() > 0 {
                    flush_spec(
                        old(self).spec_paths(),
                        old(self).spec_values(),
                        old(self).spec_clock(),
                        old(self).spec_started(),
                        old(self).spec_pending(),
                    )
                } else {
                    (old(self).spec_values(), old(self).spec_clock(), old(self).spec_started(), Seq::empty())
                };
                lines@.map_values(|s: String| s@) == f.3 + if f.2 {
                    cycle_lines(f.0)
                } else {
                    Seq::empty()
                }
            }),
    {
        let mut lines = if self.pending.len() > 0 {
            self.flush()
        } else {
            let empty: Vec<String> = Vec::new();
            assert(empty@.map_values(|s: String| s@) =~= Seq::<Seq<char>>::empty());
            empty
        };
        let ghost head = lines@.map_values(|s: String| s@);
        if self.started {
            let mut tail = self.cycle();
            let ghost t = tail@.map_values(|s: String| s@);
            lines.append(&mut tail);
            assert(lines@.map_values(|s: String| s@) =~= head + t);
        } else {
            assert(lines@.map_values(|s: String| s@) =~= head + Seq::<Seq<char>>::empty());
        }
        lines
    }
}

} // verus!
