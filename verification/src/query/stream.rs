//! Selected-identifier-first decisions over a VCD body: target resolution,
//! the per-command stream step, extraction with row and byte budgets,
//! occurrence search, toggle counting and the metadata scan.

use vstd::hash_map::StringHashMap;
use vstd::prelude::*;

use crate::catalog::{SignalCatalog};
use crate::query::{
    classify_vcd_error, limit_outcome, QueryContext, QueryError, QueryLimitKind, QueryResult,
};
use crate::text::utf8_len;
use crate::{
    change_value_normal, target_value_normal, value_for_signal_text, ChangeValue, IdCode,
    RealValue, TargetValue, TimeValue, TimeWindow, Timescale, VcdError, VcdMeta,
};

verus! {

/// Cancellation and deadline are polled every this many commands away from
/// timestamps and selected changes.
pub const COMMAND_CHECK_INTERVAL: u64 = 4096;

/// One requested target bound to its catalog signal.
#[derive(Debug, Clone)]
pub struct TargetBinding {
    pub request_index: usize,
    pub name: String,
    pub size: u32,
}

/// Resolved targets: bindings in request order and, per identifier code,
/// the requests it serves.
pub struct TargetSelection {
    by_id: StringHashMap<Vec<usize>>,
    bindings: Vec<TargetBinding>,
}

/// `", "`-separated concatenation of names.
pub open spec fn join_names(names: Seq<Seq<char>>) -> Seq<char>
    decreases names.len(),
{
    if names.len() == 0 {
        Seq::empty()
    } else if names.len() == 1 {
        names[0]
    } else {
        join_names(names.drop_last()) + ", "@ + names.last()
    }
}

impl TargetSelection {
    pub closed spec fn binding_seq(&self) -> Seq<TargetBinding> {
        self.bindings@
    }

    pub closed spec fn id_map(&self) -> Map<Seq<char>, Vec<usize>> {
        self.by_id@
    }

    /// Whether changes of this identifier are selected.
    pub open spec fn selects(&self, id: Seq<char>) -> bool {
        self.id_map().contains_key(id)
    }

    pub fn request_count(&self) -> (n: usize)
        ensures
            n == self.binding_seq().len(),
    {
        self.bindings.len()
    }

    pub fn contains(&self, id: &str) -> (b: bool)
        ensures
            b == self.selects(id@),
    {
        self.by_id.contains_key(id)
    }

    /// Request indices served by an identifier, increasing.
    pub fn requests_of(&self, id: &str) -> (r: Vec<usize>)
        ensures
            self.selects(id@) ==> r@ == self.id_map()[id@]@,
            !self.selects(id@) ==> r@.len() == 0,
    {
        match self.by_id.get(id) {
            Some(v) => vstd::slice::slice_to_vec(v.as_slice()),
            None => Vec::new(),
        }
    }

    pub fn binding(&self, index: usize) -> (b: &TargetBinding)
        requires
            index < self.binding_seq().len(),
        ensures
            *b == self.binding_seq()[index as int],
    {
        &self.bindings[index]
    }
}

/// A failure of the context check: a cancellation, or a reached deadline,
/// which only a context with a deadline can report.
pub open spec fn interrupted<T>(context: QueryContext, r: QueryResult<T>) -> bool {
    r matches Err(QueryError::Cancelled) || (r matches Err(QueryError::DeadlineExceeded)
        && context.spec_limits().spec_has_deadline())
}

/// Targets absent from the catalog's names, in request order.
pub open spec fn missing_of(names: Seq<Seq<char>>, targets: Seq<Seq<char>>) -> Seq<Seq<char>>
    decreases targets.len(),
{
    if targets.len() == 0 {
        Seq::empty()
    } else if names.contains(targets.last()) {
        missing_of(names, targets.drop_last())
    } else {
        missing_of(names, targets.drop_last()).push(targets.last())
    }
}

/// The catalog signal a name denotes.
pub open spec fn named_signal(catalog: SignalCatalog, name: Seq<char>) -> crate::catalog::SignalMeta {
    catalog.signal_seq()[choose|k: int| 0 <= k < catalog.names().len() && catalog.names()[k] == name]
}

/// The selection resolves `targets` against `catalog`: one binding per
/// request with its name and the signal's size, and per identifier code the
/// increasing list of requests whose signal carries it.
pub open spec fn resolved(sel: TargetSelection, catalog: SignalCatalog, targets: Seq<Seq<char>>) -> bool {
    let b = sel.binding_seq();
    &&& b.len() == targets.len()
    &&& forall|i: int| 0 <= i < b.len() ==> {
        &&& (#[trigger] b[i]).request_index == i
        &&& b[i].name@ == targets[i]
        &&& catalog.names().contains(targets[i])
        &&& b[i].size == named_signal(catalog, targets[i]).size
        &&& sel.selects(named_signal(catalog, targets[i]).id_code.text@)
        &&& sel.id_map()[named_signal(catalog, targets[i]).id_code.text@]@.contains(i as usize)
    }
    &&& forall|k: Seq<char>| #[trigger] sel.selects(k) ==> {
        let reqs = sel.id_map()[k]@;
        &&& forall|x: int, y: int| 0 <= x < y < reqs.len() ==> reqs[x] < reqs[y]
        &&& forall|x: int| 0 <= x < reqs.len() ==> reqs[x] < b.len() && named_signal(catalog, targets[reqs[x] as int]).id_code.text@ == k
    }
}

proof fn lemma_named_signal(catalog: SignalCatalog, key: int)
    requires
        catalog.wf(),
        0 <= key < catalog.signal_seq().len(),
    ensures
        named_signal(catalog, catalog.signal_seq()[key].full_name@) == catalog.signal_seq()[key],
        catalog.names().contains(catalog.signal_seq()[key].full_name@),
{
    let name = catalog.signal_seq()[key].full_name@;
    assert(catalog.names()[key] == name);
    let k = choose|k: int| 0 <= k < catalog.names().len() && catalog.names()[k] == name;
    assert(catalog.names()[k] == name);
    if k != key {
        assert(crate::catalog::distinct(catalog.names()));
        if k < key {
            assert(catalog.names()[k] != catalog.names()[key]);
        } else {
            assert(catalog.names()[key] != catalog.names()[k]);
        }
    }
}

/// `names` joined with `", "`.
pub fn join_names_exec(names: &Vec<String>) -> (s: String)
    ensures
        s@ == join_names(names@.map_values(|n: String| n@)),
{
    let ghost v = names@.map_values(|n: String| n@);
    let mut out = String::new();
    let mut i: usize = 0;
    proof {
        assert(v.take(0) =~= Seq::<Seq<char>>::empty());
    }
    while i < names.len()
        invariant
            i <= names.len(),
            v == names@.map_values(|n: String| n@),
            out@ == join_names(v.take(i as int)),
        decreases names.len() - i,
    {
        proof {
            assert(v.take(i + 1).drop_last() =~= v.take(i as int));
            assert(v.take(i + 1).last() == names@[i as int]@);
        }
        if i > 0 {
            out.append(", ");
        }
        out.append(names[i].as_str());
        i = i + 1;
        proof {
            if i == 1 {
                assert(v.take(1) =~= seq![names@[0]@]);
                assert(out@ =~= names@[0]@);
            }
        }
    }
    assert(v.take(names.len() as int) =~= v);
    out
}

impl TargetSelection {
    /// Resolve requested signal names against a catalog. The signal budget is
    /// checked first; every missing name is reported together.
    pub fn resolve(catalog: &SignalCatalog, targets: &Vec<String>, context: &QueryContext) -> (r: QueryResult<TargetSelection>)
        requires
            catalog.wf(),
        ensures
            !interrupted(*context, r) ==> {
                let tv = targets@.map_values(|t: String| t@);
                let budget = limit_outcome(
                    QueryLimitKind::Signals,
                    match context.spec_limits().spec_max_signals() {
                        Some(l) => Some(l as u64),
                        None => None,
                    },
                    targets@.len() as u64,
                );
                match budget {
                    Err(e) => r matches Err(e2) && e2 == e,
                    Ok(()) => if missing_of(catalog.names(), tv).len() > 0 {
                        r matches Err(QueryError::Vcd(VcdError::MissingSignals(m))) && m@ == join_names(missing_of(catalog.names(), tv))
                    } else {
                        r matches Ok(sel) && resolved(sel, *catalog, tv)
                    },
                }
            },
    {
        let counted = context.check_signal_count(targets.len());
        match counted {
            Ok(()) => {},
            Err(e) => {
                return Err(e);
            },
        }
        let ghost tv = targets@.map_values(|t: String| t@);
        let mut by_id: StringHashMap<Vec<usize>> = StringHashMap::new();
        let mut bindings: Vec<TargetBinding> = Vec::new();
        let mut missing: Vec<String> = Vec::new();
        let mut i: usize = 0;
        proof {
            assert(tv.take(0) =~= Seq::<Seq<char>>::empty());
            assert(missing@.map_values(|t: String| t@) =~= Seq::<Seq<char>>::empty());
        }
        while i < targets.len()
            invariant
                catalog.wf(),
                i <= targets.len(),
                tv == targets@.map_values(|t: String| t@),
                missing@.map_values(|t: String| t@) == missing_of(catalog.names(), tv.take(i as int)),
                bindings@.len() <= i,
                missing@.len() == 0 ==> bindings@.len() == i,
                missing@.len() == 0 ==> resolved(TargetSelection { by_id, bindings }, *catalog, tv.take(i as int)),
            decreases targets.len() - i,
        {
            match context.check() {
                Ok(()) => {},
                Err(e) => {
                    return Err(e);
                },
            }
            proof {
                assert(tv.take(i + 1).drop_last() =~= tv.take(i as int));
                assert(tv.take(i + 1).last() == targets@[i as int]@);
            }
            match catalog.key_by_name(targets[i].as_str()) {
                Some(key) => {
                    if missing.len() == 0 {
                        let signal = catalog.signal(key);
                        proof {
                            lemma_named_signal(*catalog, key as int);
                        }
                        let code = signal.id_code.text.clone();
                        let ghost old_sel = TargetSelection { by_id, bindings };
                        let mut reqs = match by_id.get(code.as_str()) {
                            Some(existing) => vstd::slice::slice_to_vec(existing.as_slice()),
                            None => Vec::new(),
                        };
                        reqs.push(i);
                        by_id.insert(code, reqs);
                        bindings.push(TargetBinding { request_index: i, name: targets[i].clone(), size: signal.size });
                        proof {
                            let new_sel = TargetSelection { by_id, bindings };
                            let t2 = tv.take(i + 1);
                            let sig = named_signal(*catalog, t2[i as int]);
                            assert(sig == catalog.signal_seq()[key as int]);
                            assert forall|j: int| 0 <= j < new_sel.binding_seq().len() implies {
                                &&& (#[trigger] new_sel.binding_seq()[j]).request_index == j
                                &&& new_sel.binding_seq()[j].name@ == t2[j]
                                &&& catalog.names().contains(t2[j])
                                &&& new_sel.binding_seq()[j].size == named_signal(*catalog, t2[j]).size
                                &&& new_sel.selects(named_signal(*catalog, t2[j]).id_code.text@)
                                &&& new_sel.id_map()[named_signal(*catalog, t2[j]).id_code.text@]@.contains(j as usize)
                            } by {
                                if j < i {
                                    assert(t2[j] == tv.take(i as int)[j]);
                                    let kj = named_signal(*catalog, t2[j]).id_code.text@;
                                    assert(old_sel.binding_seq()[j].request_index == j);
                                    if kj == code@ {
                                        let old_reqs = old_sel.id_map()[kj]@;
                                        assert(old_reqs.contains(j as usize));
                                        let w = choose|w: int| 0 <= w < old_reqs.len() && old_reqs[w] == j as usize;
                                        assert(new_sel.id_map()[kj]@[w] == j as usize);
                                    }
                                } else {
                                    assert(new_sel.id_map()[code@]@.last() == i);
                                }
                            }
                            assert forall|k: Seq<char>| #[trigger] new_sel.selects(k) implies {
                                let reqs = new_sel.id_map()[k]@;
                                &&& forall|x: int, y: int| 0 <= x < y < reqs.len() ==> reqs[x] < reqs[y]
                                &&& forall|x: int| 0 <= x < reqs.len() ==> reqs[x] < new_sel.binding_seq().len() && named_signal(*catalog, t2[reqs[x] as int]).id_code.text@ == k
                            } by {
                                if k == code@ {
                                    let rs = new_sel.id_map()[k]@;
                                    if old_sel.selects(k) {
                                        let old_reqs = old_sel.id_map()[k]@;
                                        assert(rs == old_reqs.push(i));
                                        assert forall|x: int| 0 <= x < rs.len() implies rs[x] < new_sel.binding_seq().len() && named_signal(*catalog, t2[rs[x] as int]).id_code.text@ == k by {
                                            if x < old_reqs.len() {
                                                assert(old_reqs[x] < old_sel.binding_seq().len());
                                                assert(t2[rs[x] as int] == tv.take(i as int)[old_reqs[x] as int]);
                                            }
                                        }
                                        assert forall|x: int, y: int| 0 <= x < y < rs.len() implies rs[x] < rs[y] by {
                                            if y == rs.len() - 1 {
                                                assert(old_reqs[x] < old_sel.binding_seq().len());
                                            }
                                        }
                                    } else {
                                        assert(rs == seq![i]);
                                    }
                                } else {
                                    assert(old_sel.selects(k));
                                    let rs = old_sel.id_map()[k]@;
                                    assert(new_sel.id_map()[k]@ == rs);
                                    assert forall|x: int| 0 <= x < rs.len() implies rs[x] < new_sel.binding_seq().len() && named_signal(*catalog, t2[rs[x] as int]).id_code.text@ == k by {
                                        assert(rs[x] < old_sel.binding_seq().len());
                                        assert(t2[rs[x] as int] == tv.take(i as int)[rs[x] as int]);
                                    }
                                }
                            }
                        }
                    }
                    proof {
                        assert(catalog.names().contains(targets@[i as int]@)) by {
                            lemma_named_signal(*catalog, key as int);
                        }
                    }
                },
                None => {
                    missing.push(targets[i].clone());
                    proof {
                        assert(missing@.map_values(|t: String| t@) =~= missing_of(catalog.names(), tv.take(i + 1)));
                    }
                },
            }
            i = i + 1;
        }
        proof {
            assert(tv.take(targets.len() as int) =~= tv);
        }
        if missing.len() > 0 {
            let joined = join_names_exec(&missing);
            return Err(QueryError::Vcd(VcdError::MissingSignals(joined)));
        }
        Ok(TargetSelection { by_id, bindings })
    }
}

/// What the stream reads of one body command before any value conversion.
#[derive(Debug, Clone)]
pub enum BodyItem {
    Timestamp(u64),
    /// A scalar, vector, real or string change of this identifier.
    Change(IdCode),
    /// Any other command.
    Other,
}

/// What the caller does next with the stream.
#[derive(Debug, Clone)]
pub enum StreamStep {
    /// Convert the current change's value: it is selected and in the window,
    /// at this time.
    Convert { id: IdCode, time: u64 },
    /// Read the next command.
    Continue,
    /// The body is done (exhausted, or past the window's end): validate the
    /// source and call [`SelectedChangeStream::complete`].
    Complete,
    /// The stream failed with this error and is finished.
    Fail(QueryError),
}

/// `n + 1`, saturating.
pub open spec fn sat_inc(n: u64) -> u64 {
    if n == u64::MAX {
        n
    } else {
        (n + 1) as u64
    }
}

/// The step and the new current time for one command, when no cancellation
/// or deadline check fails: the command budget first, then a parse error,
/// then the command itself.
pub open spec fn step_outcome(
    sel: TargetSelection,
    window: TimeWindow,
    time: u64,
    count: u64,
    max_commands: Option<u64>,
    item: Result<BodyItem, VcdError>,
) -> (StreamStep, u64) {
    match limit_outcome(QueryLimitKind::Commands, max_commands, count) {
        Err(e) => (StreamStep::Fail(e), time),
        Ok(()) => match item {
            Err(v) => (StreamStep::Fail(QueryError::Vcd(v)), time),
            Ok(BodyItem::Timestamp(t)) => (
                if window.end matches Some(end) && t > end {
                    StreamStep::Complete
                } else {
                    StreamStep::Continue
                },
                t,
            ),
            Ok(BodyItem::Change(id)) => (
                if sel.selects(id.text@) && window.spec_contains(time) {
                    StreamStep::Convert { id, time }
                } else {
                    StreamStep::Continue
                },
                time,
            ),
            Ok(BodyItem::Other) => (StreamStep::Continue, time),
        },
    }
}

/// A step converts a change only at the current time and only when the
/// window holds it (inclusive at both ends); a change read before the
/// window's start or after its end is passed over; a selected change inside
/// the window, within the command budget, is converted.
pub proof fn law_step_converts_only_inside_the_window(
    sel: TargetSelection,
    window: TimeWindow,
    time: u64,
    count: u64,
    max_commands: Option<u64>,
    item: Result<BodyItem, VcdError>,
)
    ensures
        step_outcome(sel, window, time, count, max_commands, item).0 matches StreamStep::Convert { time: t, .. } ==> {
            &&& t == time
            &&& window.start matches Some(s) ==> s <= t
            &&& window.end matches Some(e) ==> t <= e
        },
        (window.start matches Some(s) && time < s) || (window.end matches Some(e) && time > e)
            ==> !(step_outcome(sel, window, time, count, max_commands, item).0 is Convert),
        item matches Ok(BodyItem::Change(id)) && sel.selects(id.text@)
            && limit_outcome(QueryLimitKind::Commands, max_commands, count) is Ok
            && (window.start matches Some(s) ==> s <= time) && (window.end matches Some(e) ==> time <= e)
            ==> step_outcome(sel, window, time, count, max_commands, item).0 is Convert,
{
}

/// Where a cancellation or deadline check runs for command number `count`:
/// every [`COMMAND_CHECK_INTERVAL`] commands, at timestamps, and before a
/// selected change is converted.
pub open spec fn at_check_point(count: u64, item: Result<BodyItem, VcdError>, outcome: StreamStep) -> bool {
    count % COMMAND_CHECK_INTERVAL == 0 || item matches Ok(BodyItem::Timestamp(_)) || outcome is Convert
}

/// A step ended by the context check (see [`interrupted`]).
pub open spec fn step_interrupted(context: QueryContext, s: StreamStep) -> bool {
    s matches StreamStep::Fail(QueryError::Cancelled) || (s matches StreamStep::Fail(
        QueryError::DeadlineExceeded,
    ) && context.spec_limits().spec_has_deadline())
}

/// The selected-change stream over a body: targets, window, current time,
/// commands read, and whether it finished.
pub struct SelectedChangeStream {
    selection: TargetSelection,
    window: TimeWindow,
    current_time: u64,
    command_count: u64,
    finished: bool,
}

impl SelectedChangeStream {
    pub closed spec fn spec_selection(&self) -> TargetSelection {
        self.selection
    }

    pub closed spec fn spec_window(&self) -> TimeWindow {
        self.window
    }

    pub closed spec fn spec_time(&self) -> u64 {
        self.current_time
    }

    pub closed spec fn spec_count(&self) -> u64 {
        self.command_count
    }

    pub closed spec fn spec_finished(&self) -> bool {
        self.finished
    }

    pub fn new(selection: TargetSelection, window: TimeWindow) -> (s: Self)
        ensures
            s.spec_selection() == selection,
            s.spec_window() == window,
            s.spec_time() == 0,
            s.spec_count() == 0,
            !s.spec_finished(),
    {
        SelectedChangeStream { selection, window, current_time: 0, command_count: 0, finished: false }
    }

    pub fn selection(&self) -> (s: &TargetSelection)
        ensures
            *s == self.spec_selection(),
    {
        &self.selection
    }

    pub fn target_count(&self) -> (n: usize)
        ensures
            n == self.spec_selection().binding_seq().len(),
    {
        self.selection.request_count()
    }

    pub fn command_count(&self) -> (n: u64)
        ensures
            n == self.spec_count(),
    {
        self.command_count
    }

    pub fn is_finished(&self) -> (b: bool)
        ensures
            b == self.spec_finished(),
    {
        self.finished
    }

    /// Decide on the next body command (`None`: the body is exhausted).
    pub fn step(&mut self, context: &QueryContext, item: Option<Result<BodyItem, VcdError>>) -> (r: StreamStep)
        requires
            !old(self).spec_finished(),
        ensures
            final(self).spec_selection() == old(self).spec_selection(),
            final(self).spec_window() == old(self).spec_window(),
            final(self).spec_finished() == (r is Fail),
            r matches StreamStep::Convert { time: t, .. } ==> {
                &&& t == old(self).spec_time()
                &&& old(self).spec_window().start matches Some(s) ==> s <= t
                &&& old(self).spec_window().end matches Some(e) ==> t <= e
            },
            match item {
                None => r is Complete && final(self).spec_time() == old(self).spec_time()
                    && final(self).spec_count() == old(self).spec_count(),
                Some(it) => {
                    let count = sat_inc(old(self).spec_count());
                    let expected = step_outcome(
                        old(self).spec_selection(),
                        old(self).spec_window(),
                        old(self).spec_time(),
                        count,
                        context.spec_limits().spec_max_commands(),
                        it,
                    );
                    &&& final(self).spec_count() == count
                    &&& if step_interrupted(*context, r) {
                        at_check_point(count, it, expected.0) && final(self).spec_time()
                            == old(self).spec_time()
                    } else {
                        r == expected.0 && final(self).spec_time() == expected.1
                    }
                },
            },
    {
        let it = match item {
            None => {
                return StreamStep::Complete;
            },
            Some(it) => it,
        };
        self.command_count = self.command_count.saturating_add(1);
        if self.command_count % COMMAND_CHECK_INTERVAL == 0 {
            match context.check() {
                Ok(()) => {},
                Err(e) => {
                    self.finished = true;
                    return StreamStep::Fail(e);
                },
            }
        }
        let is_timestamp = match &it {
            Ok(BodyItem::Timestamp(_)) => true,
            _ => false,
        };
        if is_timestamp {
            match context.check() {
                Ok(()) => {},
                Err(e) => {
                    self.finished = true;
                    return StreamStep::Fail(e);
                },
            }
        }
        match context.limits().max_commands() {
            Some(limit) => {
                if self.command_count > limit {
                    self.finished = true;
                    return StreamStep::Fail(
                        QueryError::LimitExceeded {
                            kind: QueryLimitKind::Commands,
                            limit,
                            actual: self.command_count,
                        },
                    );
                }
            },
            None => {},
        }
        match it {
            Err(v) => {
                self.finished = true;
                StreamStep::Fail(QueryError::Vcd(v))
            },
            Ok(BodyItem::Timestamp(t)) => {
                self.current_time = t;
                match self.window.end {
                    Some(end) => if t > end {
                        StreamStep::Complete
                    } else {
                        StreamStep::Continue
                    },
                    None => StreamStep::Continue,
                }
            },
            Ok(BodyItem::Change(id)) => {
                if self.selection.contains(id.text.as_str()) && self.window.contains(self.current_time) {
                    match context.check() {
                        Ok(()) => {},
                        Err(e) => {
                            self.finished = true;
                            return StreamStep::Fail(e);
                        },
                    }
                    StreamStep::Convert { id, time: self.current_time }
                } else {
                    StreamStep::Continue
                }
            },
            Ok(BodyItem::Other) => StreamStep::Continue,
        }
    }

    /// Finish after the body is done, given the outcome of validating that
    /// the source still is the opened generation; the context is checked
    /// before and after that validation.
    pub fn complete(&mut self, context: &QueryContext, validation: Result<(), VcdError>) -> (r: QueryResult<()>)
        ensures
            final(self).spec_finished(),
            final(self).spec_selection() == old(self).spec_selection(),
            final(self).spec_window() == old(self).spec_window(),
            final(self).spec_time() == old(self).spec_time(),
            final(self).spec_count() == old(self).spec_count(),
            old(self).spec_finished() ==> r is Ok,
            !old(self).spec_finished() && !interrupted(*context, r) ==> match validation {
                Ok(()) => r is Ok,
                Err(e) => r == Err::<(), QueryError>(classify_vcd_error(e)),
            },
    {
        if self.finished {
            return Ok(());
        }
        self.finished = true;
        context.check()?;
        match validation {
            Ok(()) => {},
            Err(e) => {
                return Err(QueryError::from_vcd(e));
            },
        }
        context.check()?;
        Ok(())
    }
}

/// `a + b`, saturating.
pub open spec fn sat_add(a: u64, b: int) -> u64 {
    if a + b > u64::MAX {
        u64::MAX
    } else {
        (a + b) as u64
    }
}

/// Logical payload bytes of a value: 16 for an integer, 8 for a real, the
/// UTF-8 length of text.
pub open spec fn value_bytes(value: ChangeValue) -> int {
    match value {
        ChangeValue::Integer(_) => 16,
        ChangeValue::Float(_) => 8,
        ChangeValue::Text(t) => utf8_len(t@) as int,
    }
}

/// Logical bytes charged for one extracted event: the signal name's UTF-8
/// length, eight bytes of time, and the value's payload, saturating.
pub open spec fn event_bytes(signal: Seq<char>, value: ChangeValue) -> u64 {
    sat_add(sat_add(utf8_len(signal) as u64, 8), value_bytes(value))
}

pub fn logical_event_bytes(signal: &str, value: &ChangeValue) -> (n: u64)
    ensures
        n == event_bytes(signal@, *value),
{
    let v: u64 = match value {
        ChangeValue::Integer(_) => 16,
        ChangeValue::Float(_) => 8,
        ChangeValue::Text(text) => crate::server::protocol::byte_len(text.as_str()) as u64,
    };
    (crate::server::protocol::byte_len(signal) as u64).saturating_add(8).saturating_add(v)
}

/// A copy of a value.
pub fn copy_value(value: &ChangeValue) -> (v: ChangeValue)
    ensures
        v == *value,
{
    match value {
        ChangeValue::Integer(i) => ChangeValue::Integer(*i),
        ChangeValue::Float(r) => ChangeValue::Float(RealValue { bits: r.bits, text: r.text.clone() }),
        ChangeValue::Text(t) => ChangeValue::Text(t.clone()),
    }
}

/// An event waiting to be emitted.
#[derive(Debug, Clone)]
pub struct PendingEvent {
    pub name: String,
    pub value: ChangeValue,
    pub time: u64,
}

/// Extraction bookkeeping: events queued from the last selected change,
/// rows and logical bytes emitted, and whether extraction ended.
pub struct ExtractionState {
    pending: Vec<PendingEvent>,
    rows: u64,
    logical_bytes: u64,
    terminated: bool,
}

impl ExtractionState {
    pub closed spec fn spec_pending(&self) -> Seq<PendingEvent> {
        self.pending@
    }

    pub closed spec fn spec_rows(&self) -> u64 {
        self.rows
    }

    pub closed spec fn spec_bytes(&self) -> u64 {
        self.logical_bytes
    }

    pub closed spec fn spec_terminated(&self) -> bool {
        self.terminated
    }

    pub fn new() -> (s: Self)
        ensures
            s.spec_pending().len() == 0,
            s.spec_rows() == 0,
            s.spec_bytes() == 0,
            !s.spec_terminated(),
    {
        ExtractionState { pending: Vec::new(), rows: 0, logical_bytes: 0, terminated: false }
    }

    pub fn rows_emitted(&self) -> (n: u64)
        ensures
            n == self.spec_rows(),
    {
        self.rows
    }

    pub fn logical_bytes_emitted(&self) -> (n: u64)
        ensures
            n == self.spec_bytes(),
    {
        self.logical_bytes
    }

    pub fn is_terminated(&self) -> (b: bool)
        ensures
            b == self.spec_terminated(),
    {
        self.terminated
    }

    /// End extraction (after a failure of the underlying stream).
    pub fn terminate(&mut self)
        ensures
            final(self).spec_terminated(),
            final(self).spec_pending().len() == 0,
            final(self).spec_rows() == old(self).spec_rows(),
            final(self).spec_bytes() == old(self).spec_bytes(),
    {
        self.terminated = true;
        self.pending = Vec::new();
    }

    /// Queue one event per request the changed identifier serves, in request
    /// order, each with the request's signal name.
    pub fn queue_change(&mut self, selection: &TargetSelection, id: &IdCode, time: u64, value: &ChangeValue)
        requires
            forall|k: Seq<char>| #[trigger] selection.selects(k) ==> forall|x: int|
                0 <= x < selection.id_map()[k]@.len() ==> selection.id_map()[k]@[x] < selection.binding_seq().len(),
        ensures
            final(self).spec_rows() == old(self).spec_rows(),
            final(self).spec_bytes() == old(self).spec_bytes(),
            final(self).spec_terminated() == old(self).spec_terminated(),
            selection.selects(id.text@) ==> {
                let reqs = selection.id_map()[id.text@]@;
                &&& final(self).spec_pending().len() == old(self).spec_pending().len() + reqs.len()
                &&& final(self).spec_pending().take(old(self).spec_pending().len() as int) == old(self).spec_pending()
                &&& forall|x: int| 0 <= x < reqs.len() ==> {
                    let e = #[trigger] final(self).spec_pending()[old(self).spec_pending().len() + x];
                    &&& e.name@ == selection.binding_seq()[reqs[x] as int].name@
                    &&& e.value == *value
                    &&& e.time == time
                }
            },
            !selection.selects(id.text@) ==> final(self).spec_pending() == old(self).spec_pending(),
    {
        let reqs = selection.requests_of(id.text.as_str());
        let ghost base = self.pending@;
        let mut x: usize = 0;
        while x < reqs.len()
            invariant
                x <= reqs.len(),
                selection.selects(id.text@) ==> reqs@ == selection.id_map()[id.text@]@,
                !selection.selects(id.text@) ==> reqs@.len() == 0,
                forall|k: Seq<char>| #[trigger] selection.selects(k) ==> forall|y: int|
                    0 <= y < selection.id_map()[k]@.len() ==> selection.id_map()[k]@[y] < selection.binding_seq().len(),
                self.pending@.len() == base.len() + x,
                self.pending@.take(base.len() as int) == base,
                forall|y: int| 0 <= y < x ==> {
                    let e = #[trigger] self.pending@[base.len() + y];
                    &&& e.name@ == selection.binding_seq()[reqs@[y] as int].name@
                    &&& e.value == *value
                    &&& e.time == time
                },
                self.rows == old(self).rows,
                self.logical_bytes == old(self).logical_bytes,
                self.terminated == old(self).terminated,
            decreases reqs.len() - x,
        {
            assert(selection.selects(id.text@));
            assert(reqs@[x as int] < selection.binding_seq().len());
            let binding = selection.binding(reqs[x]);
            let ghost before = self.pending@;
            self.pending.push(PendingEvent { name: binding.name.clone(), value: copy_value(value), time });
            assert(self.pending@.take(base.len() as int) =~= before.take(base.len() as int));
            x = x + 1;
        }
        proof {
            if !selection.selects(id.text@) {
                assert(self.pending@ =~= base);
            }
        }
    }

    /// Emit the next queued event, charging one row and its logical bytes;
    /// `None` when nothing is queued. A failed check ends extraction.
    pub fn emit_pending(&mut self, context: &QueryContext) -> (r: Option<QueryResult<TimeValue>>)
        ensures
            old(self).spec_pending().len() == 0 ==> r is None && *final(self) == *old(self),
            old(self).spec_pending().len() > 0 ==> {
                let e = old(self).spec_pending()[0];
                let next_rows = sat_inc(old(self).spec_rows());
                let next_bytes = sat_add(old(self).spec_bytes(), event_bytes(e.name@, e.value) as int);
                match r {
                    Some(Ok(tv)) => {
                        &&& tv.signal@ == e.name@ && tv.time == e.time && tv.value == e.value
                        &&& limit_outcome(QueryLimitKind::Rows, context.spec_limits().spec_max_rows(), next_rows) is Ok
                        &&& limit_outcome(QueryLimitKind::ResultBytes, context.spec_limits().spec_max_result_bytes(), next_bytes) is Ok
                        &&& final(self).spec_rows() == next_rows
                        &&& final(self).spec_bytes() == next_bytes
                        &&& final(self).spec_pending() == old(self).spec_pending().drop_first()
                        &&& final(self).spec_terminated() == old(self).spec_terminated()
                    },
                    Some(Err(err)) => {
                        &&& final(self).spec_terminated()
                        &&& final(self).spec_pending().len() == 0
                        &&& final(self).spec_rows() == old(self).spec_rows()
                        &&& final(self).spec_bytes() == old(self).spec_bytes()
                        &&& (interrupted(*context, Err::<(), QueryError>(err)) || (Err::<(), QueryError>(err) == limit_outcome(QueryLimitKind::Rows, context.spec_limits().spec_max_rows(), next_rows))
                            || (limit_outcome(QueryLimitKind::Rows, context.spec_limits().spec_max_rows(), next_rows) is Ok
                                && Err::<(), QueryError>(err) == limit_outcome(QueryLimitKind::ResultBytes, context.spec_limits().spec_max_result_bytes(), next_bytes)))
                        &&& !interrupted(*context, Err::<(), QueryError>(err)) ==> (limit_outcome(QueryLimitKind::Rows, context.spec_limits().spec_max_rows(), next_rows) is Err
                            || limit_outcome(QueryLimitKind::ResultBytes, context.spec_limits().spec_max_result_bytes(), next_bytes) is Err)
                    },
                    None => false,
                }
            },
    {
        if self.pending.len() == 0 {
            return None;
        }
        let event = self.pending.remove(0);
        match context.check() {
            Ok(()) => {},
            Err(e) => {
                self.terminated = true;
                self.pending = Vec::new();
                return Some(Err(e));
            },
        }
        let next_rows = self.rows.saturating_add(1);
        match context.limits().max_rows() {
            Some(limit) => if next_rows > limit {
                self.terminated = true;
                self.pending = Vec::new();
                return Some(Err(QueryError::LimitExceeded { kind: QueryLimitKind::Rows, limit, actual: next_rows }));
            },
            None => {},
        }
        let bytes = logical_event_bytes(event.name.as_str(), &event.value);
        let next_bytes = self.logical_bytes.saturating_add(bytes);
        match context.limits().max_result_bytes() {
            Some(limit) => if next_bytes > limit {
                self.terminated = true;
                self.pending = Vec::new();
                return Some(Err(QueryError::LimitExceeded { kind: QueryLimitKind::ResultBytes, limit, actual: next_bytes }));
            },
            None => {},
        }
        self.rows = next_rows;
        self.logical_bytes = next_bytes;
        Some(Ok(TimeValue { signal: event.name, time: event.time, value: event.value }))
    }
}

/// The decision before an occurrence search: an occurrence below one is
/// refused first, then the context is checked, then the signal must exist;
/// gives the signal's width.
pub fn find_prepare(catalog: &SignalCatalog, signal: &str, occurrence: usize, context: &QueryContext) -> (r: QueryResult<u32>)
    requires
        catalog.wf(),
    ensures
        occurrence < 1 ==> r == Err::<u32, QueryError>(QueryError::Vcd(VcdError::InvalidOccurrence)),
        occurrence >= 1 && !interrupted(*context, r) ==> if catalog.names().contains(signal@) {
            r == Ok::<u32, QueryError>(named_signal(*catalog, signal@).size)
        } else {
            r matches Err(QueryError::Vcd(VcdError::MissingSignal(n))) && n@ == signal@
        },
{
    if occurrence < 1 {
        return Err(QueryError::Vcd(VcdError::InvalidOccurrence));
    }
    context.check()?;
    match catalog.key_by_name(signal) {
        Some(key) => {
            proof {
                lemma_named_signal(*catalog, key as int);
            }
            Ok(catalog.signal(key).size)
        },
        None => Err(QueryError::Vcd(VcdError::MissingSignal(String::from_str(signal)))),
    }
}

/// Counting occurrences of a normalised target value.
pub struct OccurrenceSearch {
    target: String,
    occurrence: usize,
    count: usize,
}

impl OccurrenceSearch {
    pub closed spec fn spec_target(&self) -> Seq<char> {
        self.target@
    }

    pub closed spec fn spec_occurrence(&self) -> usize {
        self.occurrence
    }

    pub closed spec fn spec_count(&self) -> usize {
        self.count
    }

    pub fn new(target: &TargetValue, occurrence: usize) -> (s: Self)
        requires
            occurrence >= 1,
        ensures
            s.spec_target() == target_value_normal(*target),
            s.spec_occurrence() == occurrence,
            s.spec_count() == 0,
    {
        OccurrenceSearch { target: target.normalize(), occurrence, count: 0 }
    }

    /// Observe one extracted value; true when it is the wanted occurrence.
    pub fn observe(&mut self, value: &ChangeValue) -> (found: bool)
        requires
            old(self).spec_count() < old(self).spec_occurrence(),
        ensures
            final(self).spec_target() == old(self).spec_target(),
            final(self).spec_occurrence() == old(self).spec_occurrence(),
            final(self).spec_count() == old(self).spec_count() + if change_value_normal(*value)
                == old(self).spec_target() {
                1int
            } else {
                0int
            },
            found == (final(self).spec_count() == final(self).spec_occurrence()),
    {
        let normal = value.normalize();
        if normal == self.target {
            self.count = self.count + 1;
        }
        self.count == self.occurrence
    }
}

/// Last formatted value and toggle count after a sequence of formatted
/// values of one signal: a toggle is a change from a non-empty previous value.
pub open spec fn toggle_fold(values: Seq<Seq<char>>) -> (Seq<char>, nat)
    decreases values.len(),
{
    if values.len() == 0 {
        (Seq::empty(), 0)
    } else {
        let (last, count) = toggle_fold(values.drop_last());
        let v = values.last();
        (v, if last.len() > 0 && last != v { count + 1 } else { count })
    }
}

/// The same under the rule where any previous value is a baseline: a
/// toggle is a change from the previous value, whatever it is.
pub open spec fn change_fold(values: Seq<Seq<char>>) -> (Seq<char>, nat)
    decreases values.len(),
{
    if values.len() == 0 {
        (Seq::empty(), 0)
    } else {
        let (last, count) = change_fold(values.drop_last());
        let v = values.last();
        (v, if values.len() > 1 && last != v { count + 1 } else { count })
    }
}

/// One signal's toggle tally.
#[derive(Debug, Clone)]
pub struct ToggleEntry {
    pub name: String,
    pub size: u32,
    pub last: String,
    /// Whether a value was observed yet.
    pub seen: bool,
    pub count: usize,
}

/// Whether the entry's previous value is a baseline for a toggle: under
/// the VCD rule a non-empty previous value, under the FST rule any.
pub open spec fn has_baseline(any_previous: bool, e: ToggleEntry) -> bool {
    if any_previous {
        e.seen
    } else {
        e.last@.len() > 0
    }
}

/// Some entry is named `name`.
pub open spec fn has_entry(entries: Seq<ToggleEntry>, name: Seq<char>) -> bool {
    exists|i: int| 0 <= i < entries.len() && entries[i].name@ == name
}

/// Toggle tallies of the requested signals, one per distinct name, in
/// request order.
pub struct ToggleCounter {
    entries: Vec<ToggleEntry>,
    any_previous: bool,
}

impl ToggleCounter {
    pub closed spec fn spec_entries(&self) -> Seq<ToggleEntry> {
        self.entries@
    }

    /// Whether any previous value (not only a non-empty one) is a baseline.
    pub closed spec fn spec_any_previous(&self) -> bool {
        self.any_previous
    }

    /// Names are distinct.
    pub open spec fn wf(&self) -> bool {
        forall|i: int, j: int| 0 <= i < j < self.spec_entries().len() ==> self.spec_entries()[i].name@ != self.spec_entries()[j].name@
    }

    fn position(&self, name: &String) -> (r: Option<usize>)
        ensures
            match r {
                Some(i) => i < self.spec_entries().len() && self.spec_entries()[i as int].name@ == name@,
                None => forall|i: int| 0 <= i < self.spec_entries().len() ==> self.spec_entries()[i].name@ != name@,
            },
    {
        let mut i: usize = 0;
        while i < self.entries.len()
            invariant
                i <= self.entries.len(),
                forall|j: int| 0 <= j < i ==> self.spec_entries()[j].name@ != name@,
            decreases self.entries.len() - i,
        {
            if self.entries[i].name == *name {
                return Some(i);
            }
            i = i + 1;
        }
        None
    }

    /// Tallies at zero for each distinct target; a target missing from the
    /// catalog gets width 1.
    pub fn new(catalog: &SignalCatalog, targets: &Vec<String>) -> (c: Self)
        requires
            catalog.wf(),
        ensures
            c.wf(),
            !c.spec_any_previous(),
            forall|i: int| 0 <= i < c.spec_entries().len() ==> {
                let e = #[trigger] c.spec_entries()[i];
                &&& e.count == 0
                &&& e.last@.len() == 0
                &&& !e.seen
                &&& targets@.map_values(|t: String| t@).contains(e.name@)
                &&& e.size == if catalog.names().contains(e.name@) { named_signal(*catalog, e.name@).size } else { 1u32 }
            },
            forall|t: int| 0 <= t < targets@.len() ==> has_entry(c.spec_entries(), #[trigger] targets@[t]@),
    {
        let mut c = ToggleCounter { entries: Vec::new(), any_previous: false };
        let mut t: usize = 0;
        while t < targets.len()
            invariant
                catalog.wf(),
                t <= targets.len(),
                c.wf(),
                !c.spec_any_previous(),
                forall|i: int| 0 <= i < c.spec_entries().len() ==> {
                    let e = #[trigger] c.spec_entries()[i];
                    &&& e.count == 0
                    &&& e.last@.len() == 0
                    &&& !e.seen
                    &&& targets@.map_values(|t: String| t@).contains(e.name@)
                    &&& e.size == if catalog.names().contains(e.name@) { named_signal(*catalog, e.name@).size } else { 1u32 }
                },
                forall|u: int| 0 <= u < t ==> has_entry(c.spec_entries(), #[trigger] targets@[u]@),
            decreases targets.len() - t,
        {
            match c.position(&targets[t]) {
                Some(i) => {
                    proof {
                        assert(c.spec_entries()[i as int].name@ == targets@[t as int]@);
                        assert(has_entry(c.spec_entries(), targets@[t as int]@));
                    }
                },
                None => {
                    let size = match catalog.key_by_name(targets[t].as_str()) {
                        Some(key) => {
                            proof {
                                lemma_named_signal(*catalog, key as int);
                            }
                            catalog.signal(key).size
                        },
                        None => 1,
                    };
                    let ghost before = c.spec_entries();
                    c.entries.push(ToggleEntry { name: targets[t].clone(), size, last: String::new(), seen: false, count: 0 });
                    proof {
                        assert(targets@.map_values(|t: String| t@)[t as int] == targets@[t as int]@);
                        assert forall|u: int| 0 <= u < t + 1 implies has_entry(c.spec_entries(), #[trigger] targets@[u]@) by {
                            if u < t {
                                assert(has_entry(before, targets@[u]@));
                                let i = choose|i: int| 0 <= i < before.len() && before[i].name@ == targets@[u]@;
                                assert(c.spec_entries()[i] == before[i]);
                            } else {
                                assert(c.spec_entries()[before.len() as int].name@ == targets@[u]@);
                            }
                        }
                    }
                },
            }
            t = t + 1;
        }
        c
    }

    /// Tallies at zero for each distinct target, with the width given for
    /// its first request.
    pub fn with_widths(targets: &Vec<String>, widths: &Vec<u32>) -> (c: Self)
        requires
            targets.len() == widths.len(),
        ensures
            c.wf(),
            c.spec_any_previous(),
            forall|i: int| 0 <= i < c.spec_entries().len() ==> {
                let e = #[trigger] c.spec_entries()[i];
                &&& e.count == 0
                &&& e.last@.len() == 0
                &&& !e.seen
                &&& exists|t: int| 0 <= t < targets@.len() && #[trigger] targets@[t]@ == e.name@ && widths@[t] == e.size
                    && forall|u: int| 0 <= u < t ==> targets@[u]@ != e.name@
            },
            forall|t: int| 0 <= t < targets@.len() ==> has_entry(c.spec_entries(), #[trigger] targets@[t]@),
    {
        let mut c = ToggleCounter { entries: Vec::new(), any_previous: true };
        let mut t: usize = 0;
        while t < targets.len()
            invariant
                t <= targets.len(),
                targets.len() == widths.len(),
                c.wf(),
                c.spec_any_previous(),
                forall|i: int| 0 <= i < c.spec_entries().len() ==> {
                    let e = #[trigger] c.spec_entries()[i];
                    &&& e.count == 0
                    &&& e.last@.len() == 0
                    &&& !e.seen
                    &&& exists|v: int| 0 <= v < t && #[trigger] targets@[v]@ == e.name@ && widths@[v] == e.size
                        && forall|u: int| 0 <= u < v ==> targets@[u]@ != e.name@
                },
                forall|u: int| 0 <= u < t ==> has_entry(c.spec_entries(), #[trigger] targets@[u]@),
            decreases targets.len() - t,
        {
            match c.position(&targets[t]) {
                Some(i) => {
                    proof {
                        assert(c.spec_entries()[i as int].name@ == targets@[t as int]@);
                        assert(has_entry(c.spec_entries(), targets@[t as int]@));
                    }
                },
                None => {
                    let ghost before = c.spec_entries();
                    c.entries.push(ToggleEntry { name: targets[t].clone(), size: widths[t], last: String::new(), seen: false, count: 0 });
                    proof {
                        assert forall|u: int| 0 <= u < t implies targets@[u]@ != targets@[t as int]@ by {
                            assert(has_entry(before, targets@[u]@));
                            let i = choose|i: int| 0 <= i < before.len() && before[i].name@ == targets@[u]@;
                            assert(before[i].name@ != targets@[t as int]@);
                        }
                        assert forall|u: int| 0 <= u < t + 1 implies has_entry(c.spec_entries(), #[trigger] targets@[u]@) by {
                            if u < t {
                                assert(has_entry(before, targets@[u]@));
                                let i = choose|i: int| 0 <= i < before.len() && before[i].name@ == targets@[u]@;
                                assert(c.spec_entries()[i] == before[i]);
                            } else {
                                assert(c.spec_entries()[before.len() as int].name@ == targets@[u]@);
                            }
                        }
                        let e = c.spec_entries()[before.len() as int];
                        assert(targets@[t as int]@ == e.name@ && widths@[t as int] == e.size);
                    }
                },
            }
            t = t + 1;
        }
        c
    }

    /// Observe one extracted event of a signal: its value formatted for the
    /// signal's width counts as a toggle when it differs from a previous
    /// value that is a baseline ([`has_baseline`]), saturating at
    /// `usize::MAX`.
    pub fn observe(&mut self, signal: &String, value: &ChangeValue)
        requires
            old(self).wf(),
        ensures
            final(self).wf(),
            final(self).spec_entries().len() == old(self).spec_entries().len(),
            final(self).spec_any_previous() == old(self).spec_any_previous(),
            forall|i: int| 0 <= i < old(self).spec_entries().len() ==> {
                let before = old(self).spec_entries()[i];
                let after = #[trigger] final(self).spec_entries()[i];
                &&& after.name == before.name
                &&& after.size == before.size
                &&& if before.name@ == signal@ {
                    let v = value_for_signal_text(*value, before.size);
                    &&& after.last@ == v
                    &&& after.seen
                    &&& after.count == if has_baseline(old(self).spec_any_previous(), before) && before.last@ != v {
                        if before.count == usize::MAX { usize::MAX } else { (before.count + 1) as usize }
                    } else {
                        before.count
                    }
                } else {
                    after == before
                }
            },
            forall|i: int, vs: Seq<Seq<char>>|
                #![trigger final(self).spec_entries()[i], toggle_fold(vs)]
                0 <= i < old(self).spec_entries().len() && !old(self).spec_any_previous()
                    && old(self).spec_entries()[i].name@ == signal@
                    && toggle_fold(vs) == (old(self).spec_entries()[i].last@, old(self).spec_entries()[i].count as nat)
                    && old(self).spec_entries()[i].count < usize::MAX
                    ==> toggle_fold(vs.push(value_for_signal_text(*value, old(self).spec_entries()[i].size)))
                        == (final(self).spec_entries()[i].last@, final(self).spec_entries()[i].count as nat),
            forall|i: int, vs: Seq<Seq<char>>|
                #![trigger final(self).spec_entries()[i], change_fold(vs)]
                0 <= i < old(self).spec_entries().len() && old(self).spec_any_previous()
                    && old(self).spec_entries()[i].name@ == signal@
                    && change_fold(vs) == (old(self).spec_entries()[i].last@, old(self).spec_entries()[i].count as nat)
                    && old(self).spec_entries()[i].seen == (vs.len() > 0)
                    && old(self).spec_entries()[i].count < usize::MAX
                    ==> change_fold(vs.push(value_for_signal_text(*value, old(self).spec_entries()[i].size)))
                        == (final(self).spec_entries()[i].last@, final(self).spec_entries()[i].count as nat)
                        && final(self).spec_entries()[i].seen,
    {
        match self.position(signal) {
            Some(i) => {
                let formatted = crate::format_value_for_signal(value, self.entries[i].size);
                let baseline = if self.any_previous { self.entries[i].seen } else { !self.entries[i].last.as_str().is_empty() };
                let toggled = baseline && self.entries[i].last != formatted;
                let ghost before = self.entries@;
                let entry = ToggleEntry {
                    name: self.entries[i].name.clone(),
                    size: self.entries[i].size,
                    last: formatted,
                    seen: true,
                    count: if toggled { self.entries[i].count.saturating_add(1) } else { self.entries[i].count },
                };
                self.entries.set(i, entry);
                proof {
                    assert forall|a: int, b: int| 0 <= a < b < self.spec_entries().len() implies self.spec_entries()[a].name@ != self.spec_entries()[b].name@ by {
                        assert(before[a].name@ != before[b].name@);
                    }
                    assert forall|j: int| 0 <= j < before.len() && j != i implies before[j].name@ != signal@ by {
                        if j < i {
                            assert(before[j].name@ != before[i as int].name@);
                        } else {
                            assert(before[i as int].name@ != before[j].name@);
                        }
                    }
                    assert forall|j: int, vs: Seq<Seq<char>>|
                        0 <= j < before.len() && !self.any_previous && before[j].name@ == signal@
                            && toggle_fold(vs) == (before[j].last@, before[j].count as nat)
                            && before[j].count < usize::MAX
                        implies #[trigger] toggle_fold(vs.push(value_for_signal_text(*value, before[j].size)))
                            == (self.spec_entries()[j].last@, self.spec_entries()[j].count as nat) by {
                        assert(j == i);
                        lemma_toggle_fold_step(vs, value_for_signal_text(*value, before[j].size));
                    }
                    assert forall|j: int, vs: Seq<Seq<char>>|
                        0 <= j < before.len() && self.any_previous && before[j].name@ == signal@
                            && change_fold(vs) == (before[j].last@, before[j].count as nat)
                            && before[j].seen == (vs.len() > 0)
                            && before[j].count < usize::MAX
                        implies #[trigger] change_fold(vs.push(value_for_signal_text(*value, before[j].size)))
                            == (self.spec_entries()[j].last@, self.spec_entries()[j].count as nat) by {
                        assert(j == i);
                        lemma_change_fold_step(vs, value_for_signal_text(*value, before[j].size));
                    }
                }
            },
            None => {},
        }
    }

    /// The tallies, in order.
    pub fn counts(&self) -> (out: Vec<(String, usize)>)
        ensures
            out@.len() == self.spec_entries().len(),
            forall|i: int| 0 <= i < out@.len() ==> (#[trigger] out@[i]).0@ == self.spec_entries()[i].name@ && out@[i].1 == self.spec_entries()[i].count,
    {
        let mut out: Vec<(String, usize)> = Vec::new();
        let mut i: usize = 0;
        while i < self.entries.len()
            invariant
                i <= self.entries.len(),
                out@.len() == i,
                forall|j: int| 0 <= j < i ==> (#[trigger] out@[j]).0@ == self.spec_entries()[j].name@ && out@[j].1 == self.spec_entries()[j].count,
            decreases self.entries.len() - i,
        {
            out.push((self.entries[i].name.clone(), self.entries[i].count));
            i = i + 1;
        }
        out
    }
}

/// Observing every formatted value of a signal in order gives the fold:
/// the per-event update of [`ToggleCounter::observe`] accumulates exactly
/// the number of changes between consecutive non-empty values.
pub proof fn lemma_toggle_fold_step(values: Seq<Seq<char>>, v: Seq<char>)
    ensures
        toggle_fold(values.push(v)).0 == v,
        toggle_fold(values.push(v)).1 == toggle_fold(values).1 + if toggle_fold(values).0.len() > 0 && toggle_fold(values).0 != v { 1nat } else { 0nat },
{
    assert(values.push(v).drop_last() == values);
}

/// Under the VCD rule a toggle is a change from a non-empty previous value:
/// a tally that agrees with the fold of the values seen so far agrees with
/// it after one more value; in particular a first value is never a toggle.
pub proof fn law_vcd_toggle_step_follows_the_fold(e: ToggleEntry, vs: Seq<Seq<char>>, v: Seq<char>)
    requires
        toggle_fold(vs) == (e.last@, e.count as nat),
    ensures
        toggle_fold(vs.push(v)).1 == e.count + if has_baseline(false, e) && e.last@ != v { 1nat } else { 0nat },
        toggle_fold(seq![v]).1 == 0,
{
    lemma_toggle_fold_step(vs, v);
    lemma_toggle_fold_step(Seq::<Seq<char>>::empty(), v);
    assert(Seq::<Seq<char>>::empty().push(v) =~= seq![v]);
    assert(toggle_fold(Seq::<Seq<char>>::empty()) == (Seq::<char>::empty(), 0nat));
}

/// The fold under the rule where any previous value is a baseline, one
/// value at a time, as [`ToggleCounter::observe`] updates an entry whose
/// `seen` says whether `values` is non-empty.
pub proof fn lemma_change_fold_step(values: Seq<Seq<char>>, v: Seq<char>)
    ensures
        change_fold(values.push(v)).0 == v,
        change_fold(values.push(v)).1 == change_fold(values).1 + if values.len() > 0 && change_fold(values).0 != v { 1nat } else { 0nat },
{
    assert(values.push(v).drop_last() == values);
}

/// Outcome of one metadata-scan step.
#[derive(Debug, Clone)]
pub enum ScanStep {
    Continue,
    Fail(QueryError),
}

/// Time bounds of a body scan: the current time, the first and last times
/// at which a timestamp or value change occurred, and commands read.
pub struct MetadataScan {
    current_time: u64,
    start_time: Option<u64>,
    end_time: Option<u64>,
    commands: u64,
}

impl MetadataScan {
    pub closed spec fn spec_time(&self) -> u64 {
        self.current_time
    }

    pub closed spec fn spec_start(&self) -> Option<u64> {
        self.start_time
    }

    pub closed spec fn spec_end(&self) -> Option<u64> {
        self.end_time
    }

    pub closed spec fn spec_commands(&self) -> u64 {
        self.commands
    }

    pub fn new() -> (s: Self)
        ensures
            s.spec_time() == 0,
            s.spec_start() is None,
            s.spec_end() is None,
            s.spec_commands() == 0,
    {
        MetadataScan { current_time: 0, start_time: None, end_time: None, commands: 0 }
    }

    /// One body command: the command budget is enforced first, then a parse
    /// error fails the scan, then the context is checked at timestamps and
    /// every [`COMMAND_CHECK_INTERVAL`] commands; timestamps and value
    /// changes extend the bounds.
    pub fn step(&mut self, context: &QueryContext, item: Result<BodyItem, VcdError>) -> (r: ScanStep)
        ensures
            final(self).spec_commands() == sat_inc(old(self).spec_commands()),
            ({
                let count = sat_inc(old(self).spec_commands());
                let budget = limit_outcome(QueryLimitKind::Commands, context.spec_limits().spec_max_commands(), count);
                match budget {
                    Err(e) => r matches ScanStep::Fail(e2) && e2 == e,
                    Ok(()) => match item {
                        Err(v) => r matches ScanStep::Fail(e2) && e2 == classify_vcd_error(v),
                        Ok(it) => if step_interrupted_scan(*context, r) {
                            count % COMMAND_CHECK_INTERVAL == 0 || it is Timestamp
                        } else {
                            &&& r is Continue
                            &&& match it {
                                BodyItem::Timestamp(t) => {
                                    &&& final(self).spec_time() == t
                                    &&& final(self).spec_start() == Some(match old(self).spec_start() { Some(s) => s, None => t })
                                    &&& final(self).spec_end() == Some(t)
                                },
                                BodyItem::Change(_) => {
                                    &&& final(self).spec_time() == old(self).spec_time()
                                    &&& final(self).spec_start() == Some(match old(self).spec_start() { Some(s) => s, None => old(self).spec_time() })
                                    &&& final(self).spec_end() == Some(old(self).spec_time())
                                },
                                BodyItem::Other => {
                                    &&& final(self).spec_time() == old(self).spec_time()
                                    &&& final(self).spec_start() == old(self).spec_start()
                                    &&& final(self).spec_end() == old(self).spec_end()
                                },
                            }
                        },
                    },
                }
            }),
    {
        self.commands = self.commands.saturating_add(1);
        match context.limits().max_commands() {
            Some(limit) => if self.commands > limit {
                return ScanStep::Fail(QueryError::LimitExceeded { kind: QueryLimitKind::Commands, limit, actual: self.commands });
            },
            None => {},
        }
        let it = match item {
            Err(v) => {
                return ScanStep::Fail(QueryError::from_vcd(v));
            },
            Ok(it) => it,
        };
        let is_timestamp = match &it {
            BodyItem::Timestamp(_) => true,
            _ => false,
        };
        if self.commands % COMMAND_CHECK_INTERVAL == 0 || is_timestamp {
            match context.check() {
                Ok(()) => {},
                Err(e) => {
                    return ScanStep::Fail(e);
                },
            }
        }
        match it {
            BodyItem::Timestamp(t) => {
                self.current_time = t;
                if self.start_time.is_none() {
                    self.start_time = Some(t);
                }
                self.end_time = Some(t);
            },
            BodyItem::Change(_) => {
                if self.start_time.is_none() {
                    self.start_time = Some(self.current_time);
                }
                self.end_time = Some(self.current_time);
            },
            BodyItem::Other => {},
        }
        ScanStep::Continue
    }

    /// Finish the scan after validating the source: the bounds default to
    /// zero and to the start when nothing was seen.
    pub fn complete(
        &self,
        context: &QueryContext,
        validation: Result<(), VcdError>,
        timescale: Option<Timescale>,
        signal_count: usize,
    ) -> (r: QueryResult<VcdMeta>)
        ensures
            !interrupted(*context, r) ==> match validation {
                Err(e) => r matches Err(e2) && e2 == classify_vcd_error(e),
                Ok(()) => r matches Ok(meta) && {
                    let start = match self.spec_start() { Some(s) => s, None => 0 };
                    &&& meta.timescale == timescale
                    &&& meta.signal_count == signal_count
                    &&& meta.start_time == start
                    &&& meta.end_time == match self.spec_end() { Some(e) => e, None => start }
                },
            },
    {
        context.check()?;
        match validation {
            Ok(()) => {},
            Err(e) => {
                return Err(QueryError::from_vcd(e));
            },
        }
        context.check()?;
        let start = match self.start_time {
            Some(s) => s,
            None => 0,
        };
        let end = match self.end_time {
            Some(e) => e,
            None => start,
        };
        Ok(VcdMeta { timescale, signal_count, start_time: start, end_time: end })
    }
}

/// A scan step ended by the context check (see [`interrupted`]).
pub open spec fn step_interrupted_scan(context: QueryContext, s: ScanStep) -> bool {
    s matches ScanStep::Fail(QueryError::Cancelled) || (s matches ScanStep::Fail(QueryError::DeadlineExceeded)
        && context.spec_limits().spec_has_deadline())
}

/// What a plain (policy-free) value walk does with one command.
#[derive(Debug, Clone, Copy, PartialEq, Eq, Structural)]
pub enum WalkStep {
    /// Read the next command.
    Continue,
    /// Convert and emit the current change at this time.
    Emit(u64),
    /// Stop: the window's end has passed.
    Finish,
}

/// A policy-free walk over a body: timestamps move the current time and
/// end the walk past the window; a selected change inside the window is
/// emitted, and one after the window's end ends the walk.
pub fn walk_step(current_time: &mut u64, window: &TimeWindow, item: &BodyItem, selected: bool) -> (r: WalkStep)
    ensures
        match *item {
            BodyItem::Timestamp(t) => *final(current_time) == t && r == if window.end matches Some(end) && t > end { WalkStep::Finish } else { WalkStep::Continue },
            BodyItem::Change(_) => *final(current_time) == *old(current_time) && r == if !selected {
                WalkStep::Continue
            } else if window.spec_contains(*old(current_time)) {
                WalkStep::Emit(*old(current_time))
            } else if window.end matches Some(end) && *old(current_time) > end {
                WalkStep::Finish
            } else {
                WalkStep::Continue
            },
            BodyItem::Other => *final(current_time) == *old(current_time) && r == WalkStep::Continue,
        },
{
    match item {
        BodyItem::Timestamp(t) => {
            *current_time = *t;
            match window.end {
                Some(end) => if *t > end { WalkStep::Finish } else { WalkStep::Continue },
                None => WalkStep::Continue,
            }
        },
        BodyItem::Change(_) => {
            if !selected {
                WalkStep::Continue
            } else if window.contains(*current_time) {
                WalkStep::Emit(*current_time)
            } else {
                match window.end {
                    Some(end) => if *current_time > end { WalkStep::Finish } else { WalkStep::Continue },
                    None => WalkStep::Continue,
                }
            }
        },
        BodyItem::Other => WalkStep::Continue,
    }
}

} // verus!
