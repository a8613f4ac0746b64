//! Waveform comparison: which signals to compare, and the merge of two
//! timelines of one signal into mismatches.

use vstd::prelude::*;

use crate::query::stream::interrupted;
use crate::query::{QueryContext, QueryError, QueryResult};
use crate::text::chars_of;
use crate::{change_value_normal, ChangeValue, ComparisonOptions, ComparisonResult, RealValue, SignalMismatch, Timescale};

verus! {

/// Poll cancellation and deadline every this many timeline entries.
pub const TIMELINE_CONTEXT_CHECK_INTERVAL: u64 = 4096;

/// Code-point lexicographic order, which for UTF-8 text is the byte order
/// by which `String` sorts.
pub open spec fn lex_lt(a: Seq<char>, b: Seq<char>) -> bool
    decreases a.len(),
{
    if a.len() == 0 {
        b.len() > 0
    } else if b.len() == 0 {
        false
    } else if a[0] != b[0] {
        (a[0] as u32) < (b[0] as u32)
    } else {
        lex_lt(a.drop_first(), b.drop_first())
    }
}

proof fn lemma_lex_transitive(a: Seq<char>, b: Seq<char>, c: Seq<char>)
    requires
        lex_lt(a, b),
        lex_lt(b, c),
    ensures
        lex_lt(a, c),
    decreases a.len(),
{
    if a.len() > 0 && b.len() > 0 && c.len() > 0 && a[0] == b[0] && b[0] == c[0] {
        lemma_lex_transitive(a.drop_first(), b.drop_first(), c.drop_first());
    }
}

proof fn lemma_lex_irreflexive(a: Seq<char>)
    ensures
        !lex_lt(a, a),
    decreases a.len(),
{
    if a.len() > 0 {
        lemma_lex_irreflexive(a.drop_first());
    }
}

proof fn lemma_lex_total(a: Seq<char>, b: Seq<char>)
    requires
        a != b,
    ensures
        lex_lt(a, b) || lex_lt(b, a),
    decreases a.len(),
{
    if a.len() == 0 && b.len() == 0 {
        assert(a =~= b);
    } else if a.len() > 0 && b.len() > 0 {
        if a[0] == b[0] {
            assert(a =~= seq![a[0]] + a.drop_first());
            assert(b =~= seq![b[0]] + b.drop_first());
            lemma_lex_total(a.drop_first(), b.drop_first());
        } else {
            vstd::utf8::char_u32_cast(a[0], a[0] as u32);
            vstd::utf8::char_u32_cast(b[0], b[0] as u32);
        }
    }
}

/// Two sorted sequences of names, each without repeats, that hold the same
/// names are equal: a set of names has one sorted order.
pub proof fn lemma_sorted_unique(o1: Seq<Seq<char>>, o2: Seq<Seq<char>>)
    requires
        sorted_names(o1),
        sorted_names(o2),
        o1.no_duplicates(),
        o2.no_duplicates(),
        forall|x: Seq<char>| o1.contains(x) <==> o2.contains(x),
    ensures
        o1 == o2,
    decreases o1.len(),
{
    if o1.len() == 0 {
        if o2.len() > 0 {
            assert(o2.contains(o2[0]));
        }
        assert(o1 =~= o2);
    } else if o2.len() == 0 {
        assert(o1.contains(o1[0]));
    } else {
        let a = o1[0];
        let b = o2[0];
        if a != b {
            assert(o1.contains(a));
            let j = choose|j: int| 0 <= j < o2.len() && o2[j] == a;
            assert(!lex_lt(o2[j], o2[0]));
            assert(o2.contains(b));
            let k = choose|k: int| 0 <= k < o1.len() && o1[k] == b;
            assert(!lex_lt(o1[k], o1[0]));
            lemma_lex_total(a, b);
        }
        let r1 = o1.drop_first();
        let r2 = o2.drop_first();
        assert forall|i: int, j: int| 0 <= i < j < r1.len() implies !lex_lt(#[trigger] r1[j], #[trigger] r1[i]) by {
            assert(r1[j] == o1[j + 1] && r1[i] == o1[i + 1]);
        }
        assert forall|i: int, j: int| 0 <= i < j < r2.len() implies !lex_lt(#[trigger] r2[j], #[trigger] r2[i]) by {
            assert(r2[j] == o2[j + 1] && r2[i] == o2[i + 1]);
        }
        assert forall|x: Seq<char>| r1.contains(x) <==> r2.contains(x) by {
            if r1.contains(x) {
                let i = choose|i: int| 0 <= i < r1.len() && r1[i] == x;
                assert(o1[i + 1] == x && o1[0] != o1[i + 1]);
                assert(o1.contains(x));
                let j = choose|j: int| 0 <= j < o2.len() && o2[j] == x;
                assert(j != 0);
                assert(r2[j - 1] == x);
            }
            if r2.contains(x) {
                let i = choose|i: int| 0 <= i < r2.len() && r2[i] == x;
                assert(o2[i + 1] == x && o2[0] != o2[i + 1]);
                assert(o2.contains(x));
                let j = choose|j: int| 0 <= j < o1.len() && o1[j] == x;
                assert(j != 0);
                assert(r1[j - 1] == x);
            }
        }
        lemma_sorted_unique(r1, r2);
        assert(o1 =~= seq![a] + r1);
        assert(o2 =~= seq![b] + r2);
    }
}

/// No later element is smaller than an earlier one.
pub open spec fn sorted_names(s: Seq<Seq<char>>) -> bool {
    forall|i: int, j: int| 0 <= i < j < s.len() ==> !lex_lt(#[trigger] s[j], #[trigger] s[i])
}

/// Whether `a` sorts before `b`.
pub fn lex_less(a: &String, b: &String) -> (r: bool)
    ensures
        r == lex_lt(a@, b@),
{
    let x = chars_of(a.as_str());
    let y = chars_of(b.as_str());
    let mut i: usize = 0;
    assert(a@.skip(0) == a@ && b@.skip(0) == b@);
    while i < x.len() && i < y.len()
        invariant
            i <= x.len(),
            i <= y.len(),
            x@ == a@,
            y@ == b@,
            x@.take(i as int) == y@.take(i as int),
            lex_lt(a@, b@) == lex_lt(a@.skip(i as int), b@.skip(i as int)),
        decreases x.len() - i,
    {
        assert(a@.skip(i as int)[0] == x@[i as int]);
        assert(b@.skip(i as int)[0] == y@[i as int]);
        if x[i] != y[i] {
            return (x[i] as u32) < (y[i] as u32);
        }
        assert(a@.skip(i as int).drop_first() == a@.skip(i + 1));
        assert(b@.skip(i as int).drop_first() == b@.skip(i + 1));
        assert(x@.take(i + 1) == x@.take(i as int).push(x@[i as int]));
        assert(y@.take(i + 1) == y@.take(i as int).push(y@[i as int]));
        i = i + 1;
    }
    i < y.len()
}

pub open spec fn names_of(v: Seq<String>) -> Seq<Seq<char>> {
    v.map_values(|s: String| s@)
}

/// Sort names by [`lex_lt`].
pub fn sort_names(names: Vec<String>) -> (out: Vec<String>)
    ensures
        sorted_names(names_of(out@)),
        names_of(out@).to_multiset() == names_of(names@).to_multiset(),
{
    let mut out: Vec<String> = Vec::new();
    let mut i: usize = 0;
    broadcast use vstd::seq_lib::lemma_multiset_commutative;
    broadcast use vstd::seq_lib::group_to_multiset_ensures;
    assert(names_of(names@).take(0) =~= Seq::<Seq<char>>::empty());
    while i < names.len()
        invariant
            i <= names.len(),
            sorted_names(names_of(out@)),
            names_of(out@).to_multiset() == names_of(names@).take(i as int).to_multiset(),
        decreases names.len() - i,
    {
        let x = names[i].clone();
        let mut k: usize = 0;
        let mut placed = false;
        while k < out.len() && !placed
            invariant
                k <= out.len(),
                forall|m: int| 0 <= m < k ==> !lex_lt(x@, #[trigger] names_of(out@)[m]),
                placed ==> k < out.len() && lex_lt(x@, names_of(out@)[k as int]),
            decreases out.len() - k, if placed { 0int } else { 1int },
        {
            if lex_less(&x, &out[k]) {
                placed = true;
            } else {
                k = k + 1;
            }
        }
        let ghost before = names_of(out@);
        out.insert(k, x);
        proof {
            let after = names_of(out@);
            assert(after =~= before.take(k as int) + seq![x@] + before.skip(k as int));
            assert(before =~= before.take(k as int) + before.skip(k as int));
            assert forall|a: int, b: int| 0 <= a < b < after.len() implies !lex_lt(#[trigger] after[b], #[trigger] after[a]) by {
                if b < k {
                    assert(after[a] == before[a] && after[b] == before[b]);
                } else if b == k {
                    assert(after[a] == before[a]);
                } else if a == k {
                    assert(after[b] == before[b - 1]);
                    if lex_lt(before[b - 1], x@) {
                        if placed {
                            if b - 1 > k {
                                assert(!lex_lt(before[b - 1], before[k as int]));
                                lemma_lex_transitive(before[b - 1], x@, before[k as int]);
                            } else {
                                lemma_lex_transitive(before[b - 1], x@, before[k as int]);
                                lemma_lex_irreflexive(before[k as int]);
                            }
                        }
                    }
                } else if a < k {
                    assert(after[a] == before[a] && after[b] == before[b - 1]);
                } else {
                    assert(after[a] == before[a - 1] && after[b] == before[b - 1]);
                }
            }
            assert(names_of(names@).take(i + 1) =~= names_of(names@).take(i as int).push(names@[i as int]@));
            assert(after =~= before.insert(k as int, x@));
            vstd::seq_lib::to_multiset_insert(before, k as int, x@);
            vstd::seq_lib::to_multiset_build(names_of(names@).take(i as int), names@[i as int]@);
            assert(after.to_multiset() =~= before.to_multiset().insert(x@));
        }
        i = i + 1;
    }
    assert(names_of(names@).take(names@.len() as int) =~= names_of(names@));
    out
}

/// Whether `v` occurs in `names`.
fn holds_name(names: &Vec<String>, v: &String) -> (b: bool)
    ensures
        b == names_of(names@).contains(v@),
{
    let mut i: usize = 0;
    while i < names.len()
        invariant
            i <= names.len(),
            forall|j: int| 0 <= j < i ==> names_of(names@)[j] != v@,
        decreases names.len() - i,
    {
        if names[i] == *v {
            assert(names_of(names@)[i as int] == v@);
            return true;
        }
        i = i + 1;
    }
    false
}

/// The names of `a` that `b` holds (`keep`) or lacks (`!keep`), in order.
pub open spec fn filter_names(a: Seq<Seq<char>>, b: Seq<Seq<char>>, keep: bool) -> Seq<Seq<char>>
    decreases a.len(),
{
    if a.len() == 0 {
        Seq::empty()
    } else if b.contains(a.last()) == keep {
        filter_names(a.drop_last(), b, keep).push(a.last())
    } else {
        filter_names(a.drop_last(), b, keep)
    }
}

fn select_names(a: &Vec<String>, b: &Vec<String>, keep: bool) -> (out: Vec<String>)
    ensures
        names_of(out@) == filter_names(names_of(a@), names_of(b@), keep),
{
    let mut out: Vec<String> = Vec::new();
    let mut i: usize = 0;
    assert(names_of(a@).take(0) =~= Seq::<Seq<char>>::empty());
    while i < a.len()
        invariant
            i <= a.len(),
            names_of(out@) == filter_names(names_of(a@).take(i as int), names_of(b@), keep),
        decreases a.len() - i,
    {
        assert(names_of(a@).take(i + 1).drop_last() =~= names_of(a@).take(i as int));
        assert(names_of(a@).take(i + 1).last() == a@[i as int]@);
        if holds_name(b, &a[i]) == keep {
            out.push(a[i].clone());
            assert(names_of(out@) =~= filter_names(names_of(a@).take(i as int), names_of(b@), keep).push(a@[i as int]@));
        }
        i = i + 1;
    }
    assert(names_of(a@).take(a@.len() as int) =~= names_of(a@));
    out
}

/// Which signals a comparison covers.
pub struct ComparisonPlan {
    /// Names in both files, sorted.
    pub common_signals: Vec<String>,
    /// Names only in the first file, in its order.
    pub signals_only_in_file1: Vec<String>,
    /// Names only in the second file, in its order.
    pub signals_only_in_file2: Vec<String>,
    /// The common names to compare: all of them, or those requested.
    pub signals_to_compare: Vec<String>,
}

/// Plan a comparison from the two files' signal names.
pub fn plan_comparison(names1: &Vec<String>, names2: &Vec<String>, signals_only: &Vec<String>) -> (p: ComparisonPlan)
    ensures
        sorted_names(names_of(p.common_signals@)),
        names_of(p.common_signals@).to_multiset() == filter_names(names_of(names1@), names_of(names2@), true).to_multiset(),
        names_of(p.signals_only_in_file1@) == filter_names(names_of(names1@), names_of(names2@), false),
        names_of(p.signals_only_in_file2@) == filter_names(names_of(names2@), names_of(names1@), false),
        signals_only@.len() == 0 ==> names_of(p.signals_to_compare@) == names_of(p.common_signals@),
        signals_only@.len() > 0 ==> names_of(p.signals_to_compare@) == filter_names(names_of(p.common_signals@), names_of(signals_only@), true),
{
    let common = sort_names(select_names(names1, names2, true));
    let only1 = select_names(names1, names2, false);
    let only2 = select_names(names2, names1, false);
    let to_compare = if signals_only.len() == 0 {
        let mut copy: Vec<String> = Vec::new();
        let mut i: usize = 0;
        while i < common.len()
            invariant
                i <= common.len(),
                names_of(copy@) == names_of(common@).take(i as int),
            decreases common.len() - i,
        {
            let ghost prior = names_of(copy@);
            copy.push(common[i].clone());
            assert(names_of(copy@) =~= prior.push(common@[i as int]@));
            assert(names_of(common@).take(i + 1) =~= names_of(common@).take(i as int).push(common@[i as int]@));
            i = i + 1;
        }
        assert(names_of(common@).take(common@.len() as int) =~= names_of(common@));
        copy
    } else {
        select_names(&common, signals_only, true)
    };
    ComparisonPlan {
        common_signals: common,
        signals_only_in_file1: only1,
        signals_only_in_file2: only2,
        signals_to_compare: to_compare,
    }
}

/// ASCII lower case of a character.
pub open spec fn ascii_lower(c: char) -> char {
    if 'A' <= c <= 'Z' { ((c as u32) + 32) as char } else { c }
}

/// Equal ignoring ASCII case (`str::eq_ignore_ascii_case`).
pub open spec fn eq_ignore_ascii_case(a: Seq<char>, b: Seq<char>) -> bool {
    a.len() == b.len() && forall|i: int| 0 <= i < a.len() ==> ascii_lower(#[trigger] a[i]) == ascii_lower(b[i])
}

fn ascii_lower_exec(c: char) -> (r: char)
    ensures
        r == ascii_lower(c),
{
    if 'A' <= c && c <= 'Z' {
        let v: u32 = (c as u32) + 32;
        assert(0x61 <= v <= 0x7a);
        char_from_ascii(v)
    } else {
        c
    }
}

/// The character of an ASCII letter code.
fn char_from_ascii(v: u32) -> (c: char)
    requires
        0x61 <= v <= 0x7a,
    ensures
        c == v as char,
{
    let b: u8 = v as u8;
    b as char
}

pub fn text_eq_ignore_ascii_case(a: &str, b: &str) -> (r: bool)
    ensures
        r == eq_ignore_ascii_case(a@, b@),
{
    let x = chars_of(a);
    let y = chars_of(b);
    if x.len() != y.len() {
        return false;
    }
    let mut i: usize = 0;
    while i < x.len()
        invariant
            i <= x.len(),
            x.len() == y.len(),
            x@ == a@,
            y@ == b@,
            forall|j: int| 0 <= j < i ==> ascii_lower(#[trigger] x@[j]) == ascii_lower(y@[j]),
        decreases x.len() - i,
    {
        if ascii_lower_exec(x[i]) != ascii_lower_exec(y[i]) {
            return false;
        }
        i = i + 1;
    }
    true
}

/// An unknown value: the text `x` or `z` in either case.
pub open spec fn is_unknown_spec(v: ChangeValue) -> bool {
    v matches ChangeValue::Text(t) && (eq_ignore_ascii_case(t@, "x"@) || eq_ignore_ascii_case(t@, "z"@))
}

pub fn is_unknown(v: &ChangeValue) -> (r: bool)
    ensures
        r == is_unknown_spec(*v),
{
    match v {
        ChangeValue::Text(t) => text_eq_ignore_ascii_case(t.as_str(), "x") || text_eq_ignore_ascii_case(t.as_str(), "z"),
        _ => false,
    }
}

/// Two sampled values match: unknowns match anything when ignored;
/// integers by value, reals by bit pattern, text ignoring ASCII case, mixed
/// kinds by their normalised text.
pub open spec fn values_match_spec(a: ChangeValue, b: ChangeValue, ignore_unknown: bool) -> bool {
    if ignore_unknown && (is_unknown_spec(a) || is_unknown_spec(b)) {
        true
    } else {
        match (a, b) {
            (ChangeValue::Integer(x), ChangeValue::Integer(y)) => x == y,
            (ChangeValue::Float(x), ChangeValue::Float(y)) => x.bits == y.bits,
            (ChangeValue::Text(x), ChangeValue::Text(y)) => eq_ignore_ascii_case(x@, y@),
            _ => change_value_normal(a) == change_value_normal(b),
        }
    }
}

pub fn values_match(a: &ChangeValue, b: &ChangeValue, ignore_unknown: bool) -> (r: bool)
    ensures
        r == values_match_spec(*a, *b, ignore_unknown),
{
    if ignore_unknown && (is_unknown(a) || is_unknown(b)) {
        return true;
    }
    match (a, b) {
        (ChangeValue::Integer(x), ChangeValue::Integer(y)) => *x == *y,
        (ChangeValue::Float(x), ChangeValue::Float(y)) => x.bits == y.bits,
        (ChangeValue::Text(x), ChangeValue::Text(y)) => text_eq_ignore_ascii_case(x.as_str(), y.as_str()),
        _ => a.normalize() == b.normalize(),
    }
}

/// Matching is symmetric, and when unknowns are ignored an `x` or `z`
/// (either case) on either side matches any value.
pub proof fn law_values_match_symmetric_and_ignores_unknowns(a: ChangeValue, b: ChangeValue, ignore_unknown: bool, u: String)
    requires
        u@ == "x"@ || u@ == "X"@ || u@ == "z"@ || u@ == "Z"@,
    ensures
        values_match_spec(a, b, ignore_unknown) == values_match_spec(b, a, ignore_unknown),
        view_match(value_view(a), value_view(b), ignore_unknown) == view_match(value_view(b), value_view(a), ignore_unknown),
        values_match_spec(ChangeValue::Text(u), b, true),
        values_match_spec(a, ChangeValue::Text(u), true),
        view_match(value_view(ChangeValue::Text(u)), value_view(b), true),
        view_match(value_view(a), value_view(ChangeValue::Text(u)), true),
{
    reveal_strlit("x");
    reveal_strlit("X");
    reveal_strlit("z");
    reveal_strlit("Z");
    assert(is_unknown_spec(ChangeValue::Text(u)));
    assert(view_unknown(value_view(ChangeValue::Text(u))));
    match (a, b) {
        (ChangeValue::Text(x), ChangeValue::Text(y)) => {
            if eq_ignore_ascii_case(x@, y@) {
                assert(eq_ignore_ascii_case(y@, x@));
            }
            if eq_ignore_ascii_case(y@, x@) {
                assert(eq_ignore_ascii_case(x@, y@));
            }
        },
        _ => {},
    }
}

/// Every value matches itself.
pub proof fn lemma_values_match_reflexive(v: ChangeValue, ignore_unknown: bool)
    ensures
        values_match_spec(v, v, ignore_unknown),
{
}


/// A recorded mismatch of `signal`: the two values differ under the
/// options, and the unknown flag says whether either is unknown.
pub open spec fn mismatch_ok(m: SignalMismatch, signal: Seq<char>, ignore_unknown: bool) -> bool {
    &&& m.signal_name@ == signal
    &&& !values_match_spec(m.value1, m.value2, ignore_unknown)
    &&& m.is_unknown == (is_unknown_spec(m.value1) || is_unknown_spec(m.value2))
}

/// The unknown value both timelines start from.
fn unknown_start() -> (v: ChangeValue)
    ensures
        v matches ChangeValue::Text(t) && t@ == "x"@,
{
    ChangeValue::Text(String::from_str("x"))
}

fn poll_timeline(work: &mut u64, context: &QueryContext) -> (r: QueryResult<()>)
    ensures
        *final(work) == if *old(work) == u64::MAX { u64::MAX } else { (*old(work) + 1) as u64 },
        r is Ok || interrupted(*context, r),
        *old(work) + 1 < TIMELINE_CONTEXT_CHECK_INTERVAL ==> r is Ok,
{
    *work = work.saturating_add(1);
    if *work % TIMELINE_CONTEXT_CHECK_INTERVAL == 0 {
        context.check()?;
    }
    Ok(())
}

/// A sampled value by its views.
pub enum ValueView {
    Integer(u128),
    Float(u64, Seq<char>),
    Text(Seq<char>),
}

pub open spec fn value_view(v: ChangeValue) -> ValueView {
    match v {
        ChangeValue::Integer(i) => ValueView::Integer(i),
        ChangeValue::Float(r) => ValueView::Float(r.bits, r.text@),
        ChangeValue::Text(t) => ValueView::Text(t@),
    }
}

/// The value both timelines start from: the unknown `x`.
pub open spec fn start_view() -> ValueView {
    ValueView::Text("x"@)
}

pub open spec fn view_unknown(v: ValueView) -> bool {
    v matches ValueView::Text(t) && (eq_ignore_ascii_case(t, "x"@) || eq_ignore_ascii_case(t, "z"@))
}

pub open spec fn view_normal(v: ValueView) -> Seq<char> {
    match v {
        ValueView::Integer(i) => crate::text::decimal_chars(i as nat),
        ValueView::Float(_, text) => text,
        ValueView::Text(t) => crate::text::lowercase_chars(t),
    }
}

/// [`values_match_spec`] over views.
pub open spec fn view_match(a: ValueView, b: ValueView, ignore_unknown: bool) -> bool {
    if ignore_unknown && (view_unknown(a) || view_unknown(b)) {
        true
    } else {
        match (a, b) {
            (ValueView::Integer(x), ValueView::Integer(y)) => x == y,
            (ValueView::Float(x, _), ValueView::Float(y, _)) => x == y,
            (ValueView::Text(x), ValueView::Text(y)) => eq_ignore_ascii_case(x, y),
            _ => view_normal(a) == view_normal(b),
        }
    }
}

proof fn lemma_view_match(a: ChangeValue, b: ChangeValue, ignore_unknown: bool)
    ensures
        values_match_spec(a, b, ignore_unknown) == view_match(value_view(a), value_view(b), ignore_unknown),
{
}

/// A timeline by its views.
pub open spec fn timeline_view(s: Seq<(u64, ChangeValue)>) -> Seq<(u64, ValueView)> {
    s.map_values(|e: (u64, ChangeValue)| (e.0, value_view(e.1)))
}

/// A recorded mismatch by its views: time and the two values.
pub open spec fn mismatch_view(m: SignalMismatch) -> (u64, ValueView, ValueView) {
    (m.time, value_view(m.value1), value_view(m.value2))
}

/// The end of the run of entries at time `t` that starts at `i`.
pub open spec fn run_end(s: Seq<(u64, ValueView)>, i: int, t: u64) -> int
    decreases s.len() - i,
{
    if 0 <= i < s.len() && s[i].0 == t {
        run_end(s, i + 1, t)
    } else {
        i
    }
}

/// A run starts at `i`, stays inside the timeline, and is not empty when
/// the entry at `i` has time `t`.
pub proof fn lemma_run_end(s: Seq<(u64, ValueView)>, i: int, t: u64)
    requires
        0 <= i <= s.len(),
    ensures
        i <= run_end(s, i, t) <= s.len(),
        i < s.len() && s[i].0 == t ==> run_end(s, i, t) > i,
    decreases s.len() - i,
{
    if i < s.len() && s[i].0 == t {
        lemma_run_end(s, i + 1, t);
    }
}

/// Time of entry `i`, or the largest time past the end.
pub open spec fn entry_time(s: Seq<(u64, ValueView)>, i: int) -> u64 {
    if 0 <= i < s.len() {
        s[i].0
    } else {
        u64::MAX
    }
}

/// The mismatches of the merge from positions `i` and `j` with current
/// values `cur1` and `cur2`, `count` mismatches already recorded: at the
/// earliest next time (the largest time ends the merge) each timeline takes
/// its last value at that time; where the current values do not match, the
/// time and both values are recorded, and reaching `max` ends the merge.
#[verifier::opaque]
pub open spec fn timeline_from(
    first: Seq<(u64, ValueView)>,
    second: Seq<(u64, ValueView)>,
    i: int,
    j: int,
    cur1: ValueView,
    cur2: ValueView,
    ignore_unknown: bool,
    max: Option<usize>,
    count: nat,
) -> Seq<(u64, ValueView, ValueView)>
    decreases first.len() - i + second.len() - j,
{
    let t1 = entry_time(first, i);
    let t2 = entry_time(second, j);
    let t = if t1 <= t2 { t1 } else { t2 };
    if !(0 <= i <= first.len() && 0 <= j <= second.len()) || t == u64::MAX {
        Seq::empty()
    } else {
        let i2 = run_end(first, i, t);
        let j2 = run_end(second, j, t);
        let c1 = if i2 > i { first[i2 - 1].1 } else { cur1 };
        let c2 = if j2 > j { second[j2 - 1].1 } else { cur2 };
        proof {
            lemma_run_end(first, i, t);
            lemma_run_end(second, j, t);
        }
        if view_match(c1, c2, ignore_unknown) {
            timeline_from(first, second, i2, j2, c1, c2, ignore_unknown, max, count)
        } else if max matches Some(m) && count + 1 >= m {
            seq![(t, c1, c2)]
        } else {
            seq![(t, c1, c2)] + timeline_from(first, second, i2, j2, c1, c2, ignore_unknown, max, count + 1)
        }
    }
}

/// One step of the merge: the earliest next time `t` and the runs at it.
pub proof fn lemma_timeline_step(
    first: Seq<(u64, ValueView)>,
    second: Seq<(u64, ValueView)>,
    i: int,
    j: int,
    cur1: ValueView,
    cur2: ValueView,
    ignore_unknown: bool,
    max: Option<usize>,
    count: nat,
    t: u64,
)
    requires
        0 <= i <= first.len(),
        0 <= j <= second.len(),
        t == (if entry_time(first, i) <= entry_time(second, j) { entry_time(first, i) } else { entry_time(second, j) }),
        t != u64::MAX,
    ensures
        ({
            let i2 = run_end(first, i, t);
            let j2 = run_end(second, j, t);
            let c1 = if i2 > i { first[i2 - 1].1 } else { cur1 };
            let c2 = if j2 > j { second[j2 - 1].1 } else { cur2 };
            timeline_from(first, second, i, j, cur1, cur2, ignore_unknown, max, count) == if view_match(
                c1,
                c2,
                ignore_unknown,
            ) {
                timeline_from(first, second, i2, j2, c1, c2, ignore_unknown, max, count)
            } else if max matches Some(m) && count + 1 >= m {
                seq![(t, c1, c2)]
            } else {
                seq![(t, c1, c2)] + timeline_from(first, second, i2, j2, c1, c2, ignore_unknown, max, count + 1)
            }
        }),
{
    reveal(timeline_from);
}

/// The merge ends at the largest time, and when both timelines are done.
pub proof fn lemma_timeline_end(
    first: Seq<(u64, ValueView)>,
    second: Seq<(u64, ValueView)>,
    i: int,
    j: int,
    cur1: ValueView,
    cur2: ValueView,
    ignore_unknown: bool,
    max: Option<usize>,
    count: nat,
)
    requires
        0 <= i <= first.len(),
        0 <= j <= second.len(),
        (if entry_time(first, i) <= entry_time(second, j) { entry_time(first, i) } else { entry_time(second, j) }) == u64::MAX,
    ensures
        timeline_from(first, second, i, j, cur1, cur2, ignore_unknown, max, count) == Seq::<(u64, ValueView, ValueView)>::empty(),
{
    reveal(timeline_from);
}

/// The mismatches of comparing two timelines of one signal.
pub open spec fn timeline_mismatches(
    first: Seq<(u64, ChangeValue)>,
    second: Seq<(u64, ChangeValue)>,
    ignore_unknown: bool,
    max: Option<usize>,
) -> Seq<(u64, ValueView, ValueView)> {
    timeline_from(timeline_view(first), timeline_view(second), 0, 0, start_view(), start_view(), ignore_unknown, max, 0)
}

/// Merge two timelines of one signal in time order, tracking the current
/// value of each; at every time where the current values do not match,
/// record a mismatch (stopping at `max_mismatches`). Returns how many were
/// recorded.
#[verifier::loop_isolation(false)]
#[verifier::rlimit(100)]
#[verifier::spinoff_prover]
pub fn compare_signal_timeline(
    signal: &str,
    first: &Vec<(u64, ChangeValue)>,
    second: &Vec<(u64, ChangeValue)>,
    options: &ComparisonOptions,
    mismatches: &mut Vec<SignalMismatch>,
    context: &QueryContext,
) -> (r: QueryResult<usize>)
    ensures
        final(mismatches)@.len() >= old(mismatches)@.len(),
        final(mismatches)@.take(old(mismatches)@.len() as int) == old(mismatches)@,
        forall|k: int| old(mismatches)@.len() <= k < final(mismatches)@.len() ==> mismatch_ok(#[trigger] final(mismatches)@[k], signal@, options.ignore_unknown),
        r matches Ok(count) ==> count == final(mismatches)@.len() - old(mismatches)@.len(),
        r is Ok ==> final(mismatches)@.skip(old(mismatches)@.len() as int).map_values(|m: SignalMismatch| mismatch_view(m))
            == timeline_mismatches(first@, second@, options.ignore_unknown, options.max_mismatches),
        match (r, options.max_mismatches) {
            (Ok(count), Some(m)) => count <= m || count == 1,
            _ => true,
        },
        r is Err ==> interrupted(*context, r),
        first@.len() + second@.len() < TIMELINE_CONTEXT_CHECK_INTERVAL
            && timeline_mismatches(first@, second@, options.ignore_unknown, options.max_mismatches).len() == 0
            ==> r is Ok,
        first@ == second@ && r is Ok ==> final(mismatches)@.len() == old(mismatches)@.len(),
{
    let ghost base = mismatches@;
    let ghost fv = timeline_view(first@);
    let ghost sv = timeline_view(second@);
    let ghost ig = options.ignore_unknown;
    let ghost mx = options.max_mismatches;
    let ghost total = timeline_mismatches(first@, second@, options.ignore_unknown, options.max_mismatches);
    let base_len = mismatches.len();
    let mut i: usize = 0;
    let mut j: usize = 0;
    let mut current1 = unknown_start();
    let mut current2 = crate::query::stream::copy_value(&current1);
    let mut count: usize = 0;
    let mut work: u64 = 0;
    let mut stop = false;
    assert(mismatches@.skip(base.len() as int).map_values(|m: SignalMismatch| mismatch_view(m)) =~= Seq::<(u64, ValueView, ValueView)>::empty());
    while !stop && (i < first.len() || j < second.len())
        invariant
            i <= first.len(),
            j <= second.len(),
            mismatches@.len() == base.len() + count,
            mismatches@.take(base.len() as int) == base,
            forall|k: int| base.len() <= k < mismatches@.len() ==> mismatch_ok(#[trigger] mismatches@[k], signal@, options.ignore_unknown),
            options.max_mismatches matches Some(m) ==> count <= m || count == 1,
            options.max_mismatches matches Some(m) && count >= m && count > 0 ==> stop,
            first@ == second@ ==> i == j && current1 == current2 && count == 0,
            i + j < TIMELINE_CONTEXT_CHECK_INTERVAL ==> work == i + j,
            mismatches@.skip(base.len() as int).map_values(|m: SignalMismatch| mismatch_view(m)) + (if stop {
                Seq::empty()
            } else {
                timeline_from(fv, sv, i as int, j as int, value_view(current1), value_view(current2), ig, mx, count as nat)
            }) == total,
        decreases first.len() - i + second.len() - j, if stop { 0int } else { 1int },
    {
        let ghost done = mismatches@.skip(base.len() as int).map_values(|m: SignalMismatch| mismatch_view(m));
        let ghost ci = i as int;
        let ghost cj = j as int;
        let ghost cv1 = value_view(current1);
        let ghost cv2 = value_view(current2);
        let time1: u64 = if i < first.len() { first[i].0 } else { u64::MAX };
        let time2: u64 = if j < second.len() { second[j].0 } else { u64::MAX };
        let time: u64 = if time1 <= time2 { time1 } else { time2 };
        assert(time1 == entry_time(fv, ci) && time2 == entry_time(sv, cj));
        if time == u64::MAX {
            proof {
                lemma_timeline_end(fv, sv, ci, cj, cv1, cv2, ig, mx, count as nat);
            }
            stop = true;
        } else {
            proof {
                lemma_timeline_step(fv, sv, ci, cj, cv1, cv2, ig, mx, count as nat, time);
            }
            let i0 = i;
            while i < first.len() && first[i].0 == time
                invariant
                    i0 <= i <= first.len(),
                    forall|k: int| i0 <= k < i ==> (#[trigger] first@[k]).0 == time,
                    i > i0 ==> current1 == first@[i - 1].1,
                    i == i0 ==> value_view(current1) == cv1,
                    first@ == second@ ==> i0 == j,
                    i + j < TIMELINE_CONTEXT_CHECK_INTERVAL ==> work == i + j,
                    run_end(fv, i0 as int, time) == run_end(fv, i as int, time),
                decreases first.len() - i,
            {
                poll_timeline(&mut work, context)?;
                current1 = crate::query::stream::copy_value(&first[i].1);
                i = i + 1;
            }
            assert(run_end(fv, i as int, time) == i);
            let j0 = j;
            while j < second.len() && second[j].0 == time
                invariant
                    j0 <= j <= second.len(),
                    i0 <= i <= first.len(),
                    forall|k: int| i0 <= k < i ==> (#[trigger] first@[k]).0 == time,
                    i < first.len() ==> first@[i as int].0 != time,
                    j > j0 ==> current2 == second@[j - 1].1,
                    j == j0 ==> value_view(current2) == cv2,
                    first@ == second@ ==> i0 == j0 && j <= i,
                    i + j < TIMELINE_CONTEXT_CHECK_INTERVAL ==> work == i + j,
                    run_end(sv, j0 as int, time) == run_end(sv, j as int, time),
                decreases second.len() - j,
            {
                poll_timeline(&mut work, context)?;
                current2 = crate::query::stream::copy_value(&second[j].1);
                j = j + 1;
            }
            assert(run_end(sv, j as int, time) == j);
            proof {
                if first@ == second@ {
                    if j < i {
                        assert(second@[j as int].0 == time);
                    }
                    assert(j == i);
                    if i > i0 {
                        assert(current1 == current2);
                    }
                }
                lemma_view_match(current1, current2, options.ignore_unknown);
                assert(i > i0 ==> fv[i - 1].1 == value_view(current1));
                assert(j > j0 ==> sv[j - 1].1 == value_view(current2));
            }
            if !values_match(&current1, &current2, options.ignore_unknown) {
                assert(total.len() > 0);
                context.check()?;
                let unknown = is_unknown(&current1) || is_unknown(&current2);
                let ghost prior = mismatches@;
                mismatches.push(SignalMismatch {
                    signal_name: String::from_str(signal),
                    time,
                    value1: crate::query::stream::copy_value(&current1),
                    value2: crate::query::stream::copy_value(&current2),
                    is_unknown: unknown,
                });
                assert(mismatches@.take(base.len() as int) =~= prior.take(base.len() as int));
                assert(mismatches@.skip(base.len() as int).map_values(|m: SignalMismatch| mismatch_view(m))
                    =~= done.push((time, value_view(current1), value_view(current2))));
                proof {
                    if first@ == second@ {
                        lemma_values_match_reflexive(current1, options.ignore_unknown);
                    }
                }
                count = mismatches.len() - base_len;
                match options.max_mismatches {
                    Some(m) => if count >= m {
                        stop = true;
                    },
                    None => {},
                }
            }
        }
    }
    proof {
        if !stop {
            lemma_timeline_end(fv, sv, i as int, j as int, value_view(current1), value_view(current2), ig, mx, count as nat);
        }
    }
    Ok(count)
}

/// A mismatch with the name of its signal.
pub open spec fn named_view(m: SignalMismatch) -> (Seq<char>, (u64, ValueView, ValueView)) {
    (m.signal_name@, mismatch_view(m))
}

/// The timelines of a list of signals as sequences.
pub open spec fn timelines_of(v: Seq<Vec<(u64, ChangeValue)>>) -> Seq<Seq<(u64, ChangeValue)>> {
    v.map_values(|t: Vec<(u64, ChangeValue)>| t@)
}

/// The mismatches of the first `n` signals, signal after signal, each with
/// the name of its signal (`first[i]` and `second[i]` are the timelines of
/// `signals[i]`).
pub open spec fn named_mismatches(
    signals: Seq<Seq<char>>,
    first: Seq<Seq<(u64, ChangeValue)>>,
    second: Seq<Seq<(u64, ChangeValue)>>,
    ignore_unknown: bool,
    max: Option<usize>,
    n: int,
) -> Seq<(Seq<char>, (u64, ValueView, ValueView))>
    decreases n,
{
    if n <= 0 {
        Seq::empty()
    } else {
        named_mismatches(signals, first, second, ignore_unknown, max, n - 1) + timeline_mismatches(
            first[n - 1],
            second[n - 1],
            ignore_unknown,
            max,
        ).map_values(|v: (u64, ValueView, ValueView)| (signals[n - 1], v))
    }
}

/// How many of the first `n` signals have a mismatch.
pub open spec fn mismatching_signals(
    first: Seq<Seq<(u64, ChangeValue)>>,
    second: Seq<Seq<(u64, ChangeValue)>>,
    ignore_unknown: bool,
    max: Option<usize>,
    n: int,
) -> nat
    decreases n,
{
    if n <= 0 {
        0
    } else {
        mismatching_signals(first, second, ignore_unknown, max, n - 1) + if timeline_mismatches(
            first[n - 1],
            second[n - 1],
            ignore_unknown,
            max,
        ).len() > 0 {
            1nat
        } else {
            0nat
        }
    }
}

/// Compare the timelines of each signal in turn (polling cancellation and
/// the deadline before each): all mismatches in signal order, and how many
/// signals had one.
pub fn compare_timelines(
    signals: &Vec<String>,
    first: &Vec<Vec<(u64, ChangeValue)>>,
    second: &Vec<Vec<(u64, ChangeValue)>>,
    options: &ComparisonOptions,
    context: &QueryContext,
) -> (r: QueryResult<(Vec<SignalMismatch>, usize)>)
    requires
        first@.len() == signals@.len(),
        second@.len() == signals@.len(),
    ensures
        r is Err ==> interrupted(*context, r),
        signals@.len() == 0 ==> (r matches Ok((ms, n)) && ms@.len() == 0 && n == 0),
        r matches Ok((ms, n)) ==> {
            &&& ms@.map_values(|m: SignalMismatch| named_view(m)) == named_mismatches(
                names_of(signals@),
                timelines_of(first@),
                timelines_of(second@),
                options.ignore_unknown,
                options.max_mismatches,
                signals@.len() as int,
            )
            &&& n == mismatching_signals(
                timelines_of(first@),
                timelines_of(second@),
                options.ignore_unknown,
                options.max_mismatches,
                signals@.len() as int,
            )
            &&& forall|k: int| 0 <= k < ms@.len() ==> mismatch_ok(
                #[trigger] ms@[k],
                ms@[k].signal_name@,
                options.ignore_unknown,
            )
        },
{
    let ghost names = names_of(signals@);
    let ghost fv = timelines_of(first@);
    let ghost sv = timelines_of(second@);
    let ghost ig = options.ignore_unknown;
    let ghost mx = options.max_mismatches;
    let mut mismatches: Vec<SignalMismatch> = Vec::new();
    let mut with: usize = 0;
    let mut i: usize = 0;
    assert(mismatches@.map_values(|m: SignalMismatch| named_view(m)) =~= named_mismatches(names, fv, sv, ig, mx, 0));
    while i < signals.len()
        invariant
            i <= signals.len(),
            first@.len() == signals@.len(),
            second@.len() == signals@.len(),
            names == names_of(signals@),
            fv == timelines_of(first@),
            sv == timelines_of(second@),
            ig == options.ignore_unknown,
            mx == options.max_mismatches,
            with <= i,
            with == mismatching_signals(fv, sv, ig, mx, i as int),
            mismatches@.map_values(|m: SignalMismatch| named_view(m)) == named_mismatches(names, fv, sv, ig, mx, i as int),
            forall|k: int| 0 <= k < mismatches@.len() ==> mismatch_ok(
                #[trigger] mismatches@[k],
                mismatches@[k].signal_name@,
                ig,
            ),
        decreases signals.len() - i,
    {
        context.check()?;
        let ghost before = mismatches@;
        let count = compare_signal_timeline(signals[i].as_str(), &first[i], &second[i], options, &mut mismatches, context)?;
        proof {
            let tm = timeline_mismatches(fv[i as int], sv[i as int], ig, mx);
            let seg = tm.map_values(|v: (u64, ValueView, ValueView)| (names[i as int], v));
            assert(fv[i as int] == first@[i as int]@);
            assert(sv[i as int] == second@[i as int]@);
            assert(mismatches@.skip(before.len() as int).map_values(|m: SignalMismatch| mismatch_view(m)) == tm);
            let after_named = mismatches@.map_values(|m: SignalMismatch| named_view(m));
            let before_named = before.map_values(|m: SignalMismatch| named_view(m));
            assert forall|k: int| 0 <= k < mismatches@.len() implies #[trigger] after_named[k]
                == (before_named + seg)[k] by {
                if k < before.len() {
                    assert(mismatches@.take(before.len() as int)[k] == before[k]);
                } else {
                    assert(mismatches@.skip(before.len() as int)[k - before.len()] == mismatches@[k]);
                    assert(mismatch_ok(mismatches@[k], signals@[i as int]@, ig));
                }
            }
            assert(after_named =~= before_named + seg);
            assert(tm.len() == count);
            assert forall|k: int| 0 <= k < mismatches@.len() implies mismatch_ok(
                #[trigger] mismatches@[k],
                mismatches@[k].signal_name@,
                ig,
            ) by {
                if k < before.len() {
                    assert(mismatches@.take(before.len() as int)[k] == before[k]);
                }
            }
        }
        if count > 0 {
            with = with + 1;
        }
        i = i + 1;
    }
    Ok((mismatches, with))
}

/// Build a comparison result: it passes when nothing mismatched.
pub fn comparison_result(file1: String, file2: String, plan: ComparisonPlan, mismatches: Vec<SignalMismatch>, signals_with_mismatches: usize) -> (r: ComparisonResult)
    ensures
        r.file1@ == file1@,
        r.file2@ == file2@,
        r.common_signals@ == plan.common_signals@,
        r.signals_only_in_file1@ == plan.signals_only_in_file1@,
        r.signals_only_in_file2@ == plan.signals_only_in_file2@,
        r.mismatches@ == mismatches@,
        r.total_mismatches == mismatches@.len(),
        r.signals_with_mismatches == signals_with_mismatches,
        r.passed == (mismatches@.len() == 0),
{
    let total = mismatches.len();
    ComparisonResult {
        file1,
        file2,
        common_signals: plan.common_signals,
        signals_only_in_file1: plan.signals_only_in_file1,
        signals_only_in_file2: plan.signals_only_in_file2,
        passed: total == 0,
        mismatches,
        total_mismatches: total,
        signals_with_mismatches,
    }
}

/// A waveform's timescale as a comparison sees it: a VCD's declared
/// timescale, or an FST's exponent with the timescale it stands for.
#[derive(Debug, Clone, Copy, PartialEq, Eq, Structural)]
pub enum ComparedTimescale {
    Vcd(Option<Timescale>),
    Fst { exponent: i8, timescale: Option<Timescale> },
}

/// Two waveforms have equal physical timescales: any two VCDs; two FSTs
/// with one exponent; a VCD and an FST when the FST's timescale is known
/// and equals the VCD's.
pub open spec fn timescales_compatible_spec(a: ComparedTimescale, b: ComparedTimescale) -> bool {
    match (a, b) {
        (ComparedTimescale::Vcd(_), ComparedTimescale::Vcd(_)) => true,
        (ComparedTimescale::Fst { exponent: x, .. }, ComparedTimescale::Fst { exponent: y, .. }) => x == y,
        (ComparedTimescale::Vcd(v), ComparedTimescale::Fst { timescale: f, .. }) => f is Some && v == f,
        (ComparedTimescale::Fst { timescale: f, .. }, ComparedTimescale::Vcd(v)) => f is Some && v == f,
    }
}

fn same_timescale(a: Option<Timescale>, b: Option<Timescale>) -> (same: bool)
    ensures
        same == (a == b),
{
    match (a, b) {
        (None, None) => true,
        (Some(x), Some(y)) => x.magnitude == y.magnitude && x.unit == y.unit,
        _ => false,
    }
}

/// Whether two waveforms may be compared (equal physical timescales).
pub fn timescales_compatible(a: ComparedTimescale, b: ComparedTimescale) -> (ok: bool)
    ensures
        ok == timescales_compatible_spec(a, b),
{
    match (a, b) {
        (ComparedTimescale::Vcd(_), ComparedTimescale::Vcd(_)) => true,
        (ComparedTimescale::Fst { exponent: x, .. }, ComparedTimescale::Fst { exponent: y, .. }) => x == y,
        (ComparedTimescale::Vcd(v), ComparedTimescale::Fst { timescale: f, .. }) => f.is_some() && same_timescale(v, f),
        (ComparedTimescale::Fst { timescale: f, .. }, ComparedTimescale::Vcd(v)) => f.is_some() && same_timescale(v, f),
    }
}

/// What `filter_names(a, b, keep)` keeps lies in `a`, and in `b` exactly
/// when `keep`.
pub proof fn lemma_filter_names_members(a: Seq<Seq<char>>, b: Seq<Seq<char>>, keep: bool, x: Seq<char>)
    requires
        filter_names(a, b, keep).contains(x),
    ensures
        a.contains(x),
        b.contains(x) == keep,
    decreases a.len(),
{
    if a.len() > 0 {
        let rest = filter_names(a.drop_last(), b, keep);
        if b.contains(a.last()) == keep && x == a.last() {
            assert(a[a.len() - 1] == x);
        } else {
            if b.contains(a.last()) == keep {
                let i = choose|i: int| 0 <= i < rest.push(a.last()).len() && rest.push(a.last())[i] == x;
                assert(i < rest.len());
                assert(rest[i] == x);
            }
            assert(rest.contains(x));
            lemma_filter_names_members(a.drop_last(), b, keep, x);
            let j = choose|j: int| 0 <= j < a.drop_last().len() && a.drop_last()[j] == x;
            assert(a[j] == x);
        }
    }
}

/// Every mismatch of the first `n` signals names one of them.
pub proof fn lemma_named_mismatches_names(
    signals: Seq<Seq<char>>,
    first: Seq<Seq<(u64, ChangeValue)>>,
    second: Seq<Seq<(u64, ChangeValue)>>,
    ignore_unknown: bool,
    max: Option<usize>,
    n: int,
    k: int,
)
    requires
        0 <= n <= signals.len(),
        0 <= k < named_mismatches(signals, first, second, ignore_unknown, max, n).len(),
    ensures
        signals.contains(named_mismatches(signals, first, second, ignore_unknown, max, n)[k].0),
    decreases n,
{
    let all = named_mismatches(signals, first, second, ignore_unknown, max, n);
    let before = named_mismatches(signals, first, second, ignore_unknown, max, n - 1);
    if n > 0 {
        if k < before.len() {
            assert(all[k] == before[k]);
            lemma_named_mismatches_names(signals, first, second, ignore_unknown, max, n - 1, k);
        } else {
            assert(all[k].0 == signals[n - 1]);
        }
    }
}

/// Every mismatch of a comparison planned from the names `n1` and `n2`
/// (and the requested `only`, when not empty) names a signal declared in
/// both files, and one of those requested.
pub proof fn law_mismatches_name_compared_signals(
    n1: Seq<Seq<char>>,
    n2: Seq<Seq<char>>,
    only: Seq<Seq<char>>,
    common: Seq<Seq<char>>,
    to_compare: Seq<Seq<char>>,
    first: Seq<Seq<(u64, ChangeValue)>>,
    second: Seq<Seq<(u64, ChangeValue)>>,
    ignore_unknown: bool,
    max: Option<usize>,
    k: int,
)
    requires
        common.to_multiset() == filter_names(n1, n2, true).to_multiset(),
        only.len() == 0 ==> to_compare == common,
        only.len() > 0 ==> to_compare == filter_names(common, only, true),
        0 <= k < named_mismatches(to_compare, first, second, ignore_unknown, max, to_compare.len() as int).len(),
    ensures
        ({
            let name = named_mismatches(to_compare, first, second, ignore_unknown, max, to_compare.len() as int)[k].0;
            &&& n1.contains(name)
            &&& n2.contains(name)
            &&& only.len() > 0 ==> only.contains(name)
        }),
{
    let name = named_mismatches(to_compare, first, second, ignore_unknown, max, to_compare.len() as int)[k].0;
    lemma_named_mismatches_names(to_compare, first, second, ignore_unknown, max, to_compare.len() as int, k);
    if only.len() > 0 {
        lemma_filter_names_members(common, only, true, name);
    }
    assert(common.contains(name));
    vstd::seq_lib::to_multiset_contains(common, name);
    vstd::seq_lib::to_multiset_contains(filter_names(n1, n2, true), name);
    lemma_filter_names_members(n1, n2, true, name);
}

/// The comparison once both timelines of the planned signals are read (each
/// aligned with `plan.signals_to_compare`): the mismatches of
/// `compare_timelines` under the plan's name lists.
pub fn compare_planned(
    file1: String,
    file2: String,
    plan: ComparisonPlan,
    first: &Vec<Vec<(u64, ChangeValue)>>,
    second: &Vec<Vec<(u64, ChangeValue)>>,
    options: &ComparisonOptions,
    context: &QueryContext,
) -> (r: QueryResult<ComparisonResult>)
    requires
        first@.len() == plan.signals_to_compare@.len(),
        second@.len() == plan.signals_to_compare@.len(),
    ensures
        r is Err ==> interrupted(*context, r),
        plan.signals_to_compare@.len() == 0 ==> r is Ok,
        r matches Ok(c) ==> {
            &&& c.file1@ == file1@
            &&& c.file2@ == file2@
            &&& c.common_signals@ == plan.common_signals@
            &&& c.signals_only_in_file1@ == plan.signals_only_in_file1@
            &&& c.signals_only_in_file2@ == plan.signals_only_in_file2@
            &&& c.mismatches@.map_values(|m: SignalMismatch| named_view(m)) == named_mismatches(
                names_of(plan.signals_to_compare@),
                timelines_of(first@),
                timelines_of(second@),
                options.ignore_unknown,
                options.max_mismatches,
                plan.signals_to_compare@.len() as int,
            )
            &&& forall|k: int| 0 <= k < c.mismatches@.len() ==> mismatch_ok(
                #[trigger] c.mismatches@[k],
                c.mismatches@[k].signal_name@,
                options.ignore_unknown,
            )
            &&& c.signals_with_mismatches == mismatching_signals(
                timelines_of(first@),
                timelines_of(second@),
                options.ignore_unknown,
                options.max_mismatches,
                plan.signals_to_compare@.len() as int,
            )
            &&& c.total_mismatches == c.mismatches@.len()
            &&& c.passed == (c.mismatches@.len() == 0)
        },
{
    let (mismatches, with) = compare_timelines(&plan.signals_to_compare, first, second, options, context)?;
    Ok(comparison_result(file1, file2, plan, mismatches, with))
}

} // verus!
