//! Comparison reports as text lines: the compact one-line summary and the
//! detailed report with mismatches grouped by signal.

use vstd::prelude::*;

use crate::query::compare::{lemma_sorted_unique, names_of, sort_names, sorted_names};
use crate::text::{decimal_chars, str_eq, u64_decimal, usize_decimal};
use crate::{change_value_text, concat, format_change_value, mismatch_names, ComparisonResult, SignalMismatch};

verus! {

/// One line of the compact report.
pub open spec fn compact_text(r: ComparisonResult) -> Seq<char> {
    if r.passed {
        "✅ PASS: All "@ + decimal_chars(r.common_signals@.len()) + " signals match"@
    } else {
        "❌ FAIL: "@ + decimal_chars(r.signals_with_mismatches as nat) + "/"@ + decimal_chars(r.common_signals@.len())
            + " signals have mismatches ("@ + decimal_chars(r.total_mismatches as nat) + " total)"@
    }
}

pub fn compact_report(r: &ComparisonResult) -> (line: String)
    ensures
        line@ == compact_text(*r),
{
    proof {
        reveal_strlit("✅ PASS: All ");
        reveal_strlit(" signals match");
        reveal_strlit("❌ FAIL: ");
        reveal_strlit("/");
        reveal_strlit(" signals have mismatches (");
        reveal_strlit(" total)");
    }
    let common = usize_decimal(r.common_signals.len());
    if r.passed {
        let mut s = concat("✅ PASS: All ", common.as_str());
        s.append(" signals match");
        s
    } else {
        let mut s = concat("❌ FAIL: ", usize_decimal(r.signals_with_mismatches).as_str());
        s.append("/");
        s.append(common.as_str());
        s.append(" signals have mismatches (");
        s.append(usize_decimal(r.total_mismatches).as_str());
        s.append(" total)");
        s
    }
}

pub open spec fn rule() -> Seq<char> {
    "=========================================="@
}

pub open spec fn status_text(m: SignalMismatch) -> Seq<char> {
    if m.is_unknown {
        "(one or both unknown)"@
    } else {
        "❌ MISMATCH"@
    }
}

/// `  Time #t: Ref='a' | Actual='b' status`.
pub open spec fn mismatch_line(m: SignalMismatch) -> Seq<char> {
    "  Time #"@ + decimal_chars(m.time as nat) + ": Ref='"@ + change_value_text(m.value1) + "' | Actual='"@
        + change_value_text(m.value2) + "' "@ + status_text(m)
}

pub open spec fn of_name(name: Seq<char>) -> spec_fn(SignalMismatch) -> bool {
    |m: SignalMismatch| m.signal_name@ == name
}

/// The mismatches of one signal, in recorded order.
pub open spec fn of_signal(ms: Seq<SignalMismatch>, name: Seq<char>) -> Seq<SignalMismatch> {
    ms.filter(of_name(name))
}

/// The section of one signal: its name, its first ten mismatches, how many
/// more there are, its count, and a blank line.
pub open spec fn signal_section(name: Seq<char>, group: Seq<SignalMismatch>) -> Seq<Seq<char>> {
    let shown = if group.len() > 10 { group.take(10) } else { group };
    seq!["Signal: "@ + name] + shown.map_values(|m: SignalMismatch| mismatch_line(m)) + (if group.len() > 10 {
        seq!["  ... and "@ + decimal_chars((group.len() - 10) as nat) + " more"@]
    } else {
        Seq::empty()
    }) + seq!["  ❌ "@ + decimal_chars(group.len()) + " mismatches"@, Seq::empty()]
}

/// The sections of the signals in `order`.
pub open spec fn sections(order: Seq<Seq<char>>, ms: Seq<SignalMismatch>) -> Seq<Seq<char>>
    decreases order.len(),
{
    if order.len() == 0 {
        Seq::empty()
    } else {
        sections(order.drop_last(), ms) + signal_section(order.last(), of_signal(ms, order.last()))
    }
}

/// A titled list of names, with a blank line after it; nothing when empty.
pub open spec fn listing(title: Seq<char>, names: Seq<Seq<char>>) -> Seq<Seq<char>> {
    if names.len() == 0 {
        Seq::empty()
    } else {
        seq![title] + names.map_values(|n: Seq<char>| "  - "@ + n) + seq![Seq::<char>::empty()]
    }
}

pub open spec fn report_head(r: ComparisonResult) -> Seq<Seq<char>> {
    seq![rule(), "Waveform Comparison Results"@, rule(), Seq::empty(), "Reference: "@ + r.file1@, "Actual:    "@ + r.file2@, Seq::empty()]
        + listing("Signals only in reference:"@, names_of(r.signals_only_in_file1@))
        + listing("Signals only in actual:"@, names_of(r.signals_only_in_file2@))
        + seq!["Common signals: "@ + decimal_chars(r.common_signals@.len()), Seq::empty()]
}

pub open spec fn sat_sub(a: nat, b: nat) -> nat {
    if a >= b { (a - b) as nat } else { 0 }
}

pub open spec fn report_comparison(r: ComparisonResult, order: Seq<Seq<char>>) -> Seq<Seq<char>> {
    let common = r.common_signals@.len();
    seq![rule(), "Signal Value Comparison"@, rule(), Seq::empty()] + if r.passed {
        seq!["All common signals match ("@ + decimal_chars(common) + " total)."@, Seq::empty()]
    } else {
        sections(order, r.mismatches@) + seq![
            "Matched signals: "@ + decimal_chars(sat_sub(common, r.signals_with_mismatches as nat)) + " / "@ + decimal_chars(common),
            Seq::empty(),
        ]
    }
}

pub open spec fn report_summary(r: ComparisonResult) -> Seq<Seq<char>> {
    let common = r.common_signals@.len();
    seq![rule(), "Summary"@, rule(), Seq::empty()] + (if r.passed {
        seq!["✅ SUCCESS: All signal values match!"@, Seq::empty(), "The two waveform files are equivalent."@]
    } else {
        seq![
            "❌ FAILURES FOUND"@,
            Seq::empty(),
            "Total mismatches: "@ + decimal_chars(r.total_mismatches as nat),
            "Signals with mismatches: "@ + decimal_chars(r.signals_with_mismatches as nat) + " / "@ + decimal_chars(common),
        ]
    }) + seq![Seq::<char>::empty()]
}

/// The detailed report with mismatch sections in `order`.
pub open spec fn detailed_text(r: ComparisonResult, order: Seq<Seq<char>>) -> Seq<Seq<char>> {
    if r.common_signals@.len() == 0 {
        report_head(r) + seq!["⚠️  No common signals to compare!"@]
    } else {
        report_head(r) + report_comparison(r, order) + report_summary(r)
    }
}

/// The signal names of the mismatches, each once, sorted.
pub open spec fn section_order(order: Seq<Seq<char>>, ms: Seq<SignalMismatch>) -> bool {
    &&& sorted_names(order)
    &&& order.no_duplicates()
    &&& forall|k: int| 0 <= k < ms.len() ==> order.contains(#[trigger] ms[k].signal_name@)
    &&& forall|i: int| 0 <= i < order.len() ==> mismatch_names(ms).contains(#[trigger] order[i])
}

/// The sections of a detailed report have one order: every order of the
/// signal names with mismatches that is sorted and names each signal once
/// is the same.
pub proof fn law_section_order_unique(o1: Seq<Seq<char>>, o2: Seq<Seq<char>>, ms: Seq<SignalMismatch>)
    requires
        section_order(o1, ms),
        section_order(o2, ms),
    ensures
        o1 == o2,
{
    assert forall|x: Seq<char>| o1.contains(x) <==> o2.contains(x) by {
        if o1.contains(x) {
            let i = choose|i: int| 0 <= i < o1.len() && o1[i] == x;
            assert(mismatch_names(ms).contains(o1[i]));
            let k = choose|k: int| 0 <= k < mismatch_names(ms).len() && mismatch_names(ms)[k] == x;
            assert(o2.contains(ms[k].signal_name@));
        }
        if o2.contains(x) {
            let i = choose|i: int| 0 <= i < o2.len() && o2[i] == x;
            assert(mismatch_names(ms).contains(o2[i]));
            let k = choose|k: int| 0 <= k < mismatch_names(ms).len() && mismatch_names(ms)[k] == x;
            assert(o1.contains(ms[k].signal_name@));
        }
    }
    lemma_sorted_unique(o1, o2);
}

/// `lines` is the detailed report of `r`, its sections ordered by signal
/// name (that order is unique: [`law_section_order_unique`]).
pub open spec fn detailed_report_is(lines: Seq<Seq<char>>, r: ComparisonResult) -> bool {
    exists|order: Seq<Seq<char>>| section_order(order, r.mismatches@) && lines == #[trigger] detailed_text(r, order)
}

fn push_line(lines: &mut Vec<String>, line: String)
    ensures
        names_of(final(lines)@) == names_of(old(lines)@).push(line@),
{
    let ghost before = names_of(lines@);
    let ghost v = line@;
    lines.push(line);
    assert(names_of(lines@) =~= before.push(v));
}

fn push_text(lines: &mut Vec<String>, text: &str)
    ensures
        names_of(final(lines)@) == names_of(old(lines)@).push(text@),
{
    push_line(lines, String::from_str(text));
}

fn append_lines(lines: &mut Vec<String>, more: Vec<String>)
    ensures
        names_of(final(lines)@) == names_of(old(lines)@) + names_of(more@),
{
    let ghost a = names_of(lines@);
    let ghost b = names_of(more@);
    let mut m = more;
    lines.append(&mut m);
    assert(names_of(lines@) =~= a + b);
}

/// The distinct signal names of `ms`, in order of first mismatch.
fn distinct_names(ms: &Vec<SignalMismatch>) -> (out: Vec<String>)
    ensures
        names_of(out@).no_duplicates(),
        forall|k: int| 0 <= k < ms@.len() ==> names_of(out@).contains(#[trigger] ms@[k].signal_name@),
        forall|i: int| 0 <= i < out@.len() ==> mismatch_names(ms@).contains(#[trigger] names_of(out@)[i]),
{
    let mut out: Vec<String> = Vec::new();
    let mut k: usize = 0;
    while k < ms.len()
        invariant
            k <= ms.len(),
            names_of(out@).no_duplicates(),
            forall|j: int| 0 <= j < k ==> names_of(out@).contains(#[trigger] ms@[j].signal_name@),
            forall|i: int| 0 <= i < out@.len() ==> mismatch_names(ms@).contains(#[trigger] names_of(out@)[i]),
        decreases ms.len() - k,
    {
        let name = &ms[k].signal_name;
        let mut seen = false;
        let mut i: usize = 0;
        while i < out.len()
            invariant
                i <= out.len(),
                seen ==> names_of(out@).contains(name@),
                !seen ==> forall|a: int| 0 <= a < i ==> names_of(out@)[a] != name@,
            decreases out.len() - i,
        {
            if str_eq(out[i].as_str(), name.as_str()) {
                seen = true;
                assert(names_of(out@)[i as int] == name@);
            }
            i = i + 1;
        }
        if !seen {
            let ghost before = names_of(out@);
            out.push(name.clone());
            proof {
                assert(names_of(out@) =~= before.push(name@));
                assert(names_of(out@)[before.len() as int] == name@);
                assert(mismatch_names(ms@)[k as int] == name@);
                assert forall|j: int| 0 <= j <= k implies names_of(out@).contains(#[trigger] ms@[j].signal_name@) by {
                    if j < k {
                        let w = choose|w: int| 0 <= w < before.len() && before[w] == ms@[j].signal_name@;
                        assert(names_of(out@)[w] == ms@[j].signal_name@);
                    }
                }
                assert forall|a: int| 0 <= a < out@.len() implies mismatch_names(ms@).contains(#[trigger] names_of(out@)[a]) by {
                    if a < before.len() {
                        assert(names_of(out@)[a] == before[a]);
                    }
                }
            }
        } else {
            proof {
                assert forall|j: int| 0 <= j <= k implies names_of(out@).contains(#[trigger] ms@[j].signal_name@) by {}
            }
        }
        k = k + 1;
    }
    out
}

fn section_lines(name: &String, ms: &Vec<SignalMismatch>) -> (lines: Vec<String>)
    ensures
        names_of(lines@) == signal_section(name@, of_signal(ms@, name@)),
{
    let ghost group = of_signal(ms@, name@);
    let ghost pred = of_name(name@);
    let ghost shown = if group.len() > 10 { group.take(10) } else { group };
    proof {
        reveal_strlit("Signal: ");
        reveal_strlit("  Time #");
        reveal_strlit(": Ref='");
        reveal_strlit("' | Actual='");
        reveal_strlit("' ");
        reveal_strlit("(one or both unknown)");
        reveal_strlit("❌ MISMATCH");
        reveal_strlit("  ... and ");
        reveal_strlit(" more");
        reveal_strlit("  ❌ ");
        reveal_strlit(" mismatches");
        reveal_strlit("");
    }
    let mut lines: Vec<String> = Vec::new();
    push_line(&mut lines, concat("Signal: ", name.as_str()));
    let mut count: usize = 0;
    let mut k: usize = 0;
    while k < ms.len()
        invariant
            k <= ms.len(),
            pred == of_name(name@),
            count == ms@.take(k as int).filter(pred).len(),
            count <= k,
            names_of(lines@) == seq!["Signal: "@ + name@] + (if count <= 10 {
                ms@.take(k as int).filter(pred)
            } else {
                ms@.take(k as int).filter(pred).take(10)
            }).map_values(|m: SignalMismatch| mismatch_line(m)),
        decreases ms.len() - k,
    {
        let ghost prior = ms@.take(k as int).filter(pred);
        proof {
            assert(ms@.take(k + 1) =~= ms@.take(k as int).push(ms@[k as int]));
            ms@.take(k as int).lemma_filter_push(ms@[k as int], pred);
        }
        if str_eq(ms[k].signal_name.as_str(), name.as_str()) {
            let ghost after = ms@.take(k + 1).filter(pred);
            assert(after == prior.push(ms@[k as int]));
            if count < 10 {
                let m = &ms[k];
                let mut line = concat("  Time #", u64_decimal(m.time).as_str());
                line.append(": Ref='");
                line.append(format_change_value(&m.value1).as_str());
                line.append("' | Actual='");
                line.append(format_change_value(&m.value2).as_str());
                line.append("' ");
                if m.is_unknown {
                    line.append("(one or both unknown)");
                } else {
                    line.append("❌ MISMATCH");
                }
                let ghost before = names_of(lines@);
                push_line(&mut lines, line);
                assert(after.map_values(|m: SignalMismatch| mismatch_line(m)) =~= prior.map_values(|m: SignalMismatch| mismatch_line(m)).push(mismatch_line(ms@[k as int])));
            } else {
                if count == 10 {
                    assert(after.take(10) =~= prior);
                } else {
                    assert(after.take(10) =~= prior.take(10));
                }
            }
            count = count + 1;
        } else {
            assert(ms@.take(k + 1).filter(pred) == prior);
        }
        k = k + 1;
    }
    assert(ms@.take(ms.len() as int) =~= ms@);
    assert(count == group.len());
    if count > 10 {
        let mut more = concat("  ... and ", usize_decimal(count - 10).as_str());
        more.append(" more");
        push_line(&mut lines, more);
    }
    let mut total = concat("  ❌ ", usize_decimal(count).as_str());
    total.append(" mismatches");
    push_line(&mut lines, total);
    push_text(&mut lines, "");
    assert(""@ =~= Seq::<char>::empty());
    assert(names_of(lines@) =~= signal_section(name@, group));
    lines
}

fn head_lines(r: &ComparisonResult) -> (lines: Vec<String>)
    ensures
        names_of(lines@) == report_head(*r),
{
    proof {
        reveal_strlit("==========================================");
        reveal_strlit("Waveform Comparison Results");
        reveal_strlit("");
        reveal_strlit("Reference: ");
        reveal_strlit("Actual:    ");
        reveal_strlit("Signals only in reference:");
        reveal_strlit("Signals only in actual:");
        reveal_strlit("Common signals: ");
    }
    let rule = "==========================================";
    let mut lines: Vec<String> = Vec::new();
    push_text(&mut lines, rule);
    push_text(&mut lines, "Waveform Comparison Results");
    push_text(&mut lines, rule);
    push_text(&mut lines, "");
    push_line(&mut lines, concat("Reference: ", r.file1.as_str()));
    push_line(&mut lines, concat("Actual:    ", r.file2.as_str()));
    push_text(&mut lines, "");
    let listed1 = listing_lines("Signals only in reference:", &r.signals_only_in_file1);
    append_lines(&mut lines, listed1);
    let listed2 = listing_lines("Signals only in actual:", &r.signals_only_in_file2);
    append_lines(&mut lines, listed2);
    push_line(&mut lines, concat("Common signals: ", usize_decimal(r.common_signals.len()).as_str()));
    push_text(&mut lines, "");
    assert(""@ =~= Seq::<char>::empty());
    assert(names_of(lines@) =~= report_head(*r));
    lines
}

fn comparison_lines(r: &ComparisonResult, order: &Vec<String>) -> (lines: Vec<String>)
    ensures
        names_of(lines@) == report_comparison(*r, names_of(order@)),
{
    proof {
        reveal_strlit("==========================================");
        reveal_strlit("Signal Value Comparison");
        reveal_strlit("");
        reveal_strlit("All common signals match (");
        reveal_strlit(" total).");
        reveal_strlit("Matched signals: ");
        reveal_strlit(" / ");
    }
    let rule = "==========================================";
    let common = usize_decimal(r.common_signals.len());
    let mut lines: Vec<String> = Vec::new();
    push_text(&mut lines, rule);
    push_text(&mut lines, "Signal Value Comparison");
    push_text(&mut lines, rule);
    push_text(&mut lines, "");
    assert(""@ =~= Seq::<char>::empty());
    if r.passed {
        let mut all = concat("All common signals match (", common.as_str());
        all.append(" total).");
        push_line(&mut lines, all);
        push_text(&mut lines, "");
    } else {
        let mut k: usize = 0;
        let ghost base = names_of(lines@);
        while k < order.len()
            invariant
                k <= order.len(),
                names_of(lines@) == base + sections(names_of(order@).take(k as int), r.mismatches@),
            decreases order.len() - k,
        {
            let part = section_lines(&order[k], &r.mismatches);
            append_lines(&mut lines, part);
            proof {
                let o = names_of(order@);
                assert(o.take(k + 1).drop_last() =~= o.take(k as int));
                assert(o.take(k + 1).last() == order@[k as int]@);
                assert(names_of(lines@) =~= base + sections(o.take(k + 1), r.mismatches@));
            }
            k = k + 1;
        }
        assert(names_of(order@).take(order.len() as int) =~= names_of(order@));
        let matched = if r.common_signals.len() >= r.signals_with_mismatches {
            r.common_signals.len() - r.signals_with_mismatches
        } else {
            0
        };
        let mut line = concat("Matched signals: ", usize_decimal(matched).as_str());
        line.append(" / ");
        line.append(common.as_str());
        push_line(&mut lines, line);
        push_text(&mut lines, "");
    }
    assert(names_of(lines@) =~= report_comparison(*r, names_of(order@)));
    lines
}

fn summary_lines(r: &ComparisonResult) -> (lines: Vec<String>)
    ensures
        names_of(lines@) == report_summary(*r),
{
    proof {
        reveal_strlit("==========================================");
        reveal_strlit("");
        reveal_strlit("Summary");
        reveal_strlit("✅ SUCCESS: All signal values match!");
        reveal_strlit("The two waveform files are equivalent.");
        reveal_strlit("❌ FAILURES FOUND");
        reveal_strlit("Total mismatches: ");
        reveal_strlit("Signals with mismatches: ");
        reveal_strlit(" / ");
    }
    let rule = "==========================================";
    let mut lines: Vec<String> = Vec::new();
    push_text(&mut lines, rule);
    push_text(&mut lines, "Summary");
    push_text(&mut lines, rule);
    push_text(&mut lines, "");
    if r.passed {
        push_text(&mut lines, "✅ SUCCESS: All signal values match!");
        push_text(&mut lines, "");
        push_text(&mut lines, "The two waveform files are equivalent.");
    } else {
        push_text(&mut lines, "❌ FAILURES FOUND");
        push_text(&mut lines, "");
        push_line(&mut lines, concat("Total mismatches: ", usize_decimal(r.total_mismatches).as_str()));
        let mut line = concat("Signals with mismatches: ", usize_decimal(r.signals_with_mismatches).as_str());
        line.append(" / ");
        line.append(usize_decimal(r.common_signals.len()).as_str());
        push_line(&mut lines, line);
    }
    push_text(&mut lines, "");
    assert(""@ =~= Seq::<char>::empty());
    assert(names_of(lines@) =~= report_summary(*r));
    lines
}

/// The detailed, multi-section report of a comparison.
pub fn detailed_report(r: &ComparisonResult) -> (lines: Vec<String>)
    ensures
        detailed_report_is(names_of(lines@), *r),
{
    let distinct = distinct_names(&r.mismatches);
    let ghost dv = distinct@;
    let order = sort_names(distinct);
    proof {
        lemma_sorted_order(order@, dv, r.mismatches@);
    }
    let mut lines = head_lines(r);
    if r.common_signals.len() == 0 {
        proof {
            reveal_strlit("⚠️  No common signals to compare!");
        }
        push_text(&mut lines, "⚠️  No common signals to compare!");
        assert(names_of(lines@) =~= detailed_text(*r, names_of(order@)));
        return lines;
    }
    let middle = comparison_lines(r, &order);
    append_lines(&mut lines, middle);
    let tail = summary_lines(r);
    append_lines(&mut lines, tail);
    assert(names_of(lines@) =~= detailed_text(*r, names_of(order@)));
    lines
}

proof fn lemma_sorted_order(order: Seq<String>, d: Seq<String>, ms: Seq<SignalMismatch>)
    requires
        sorted_names(names_of(order)),
        names_of(order).to_multiset() == names_of(d).to_multiset(),
        names_of(d).no_duplicates(),
        forall|k: int| 0 <= k < ms.len() ==> names_of(d).contains(#[trigger] ms[k].signal_name@),
        forall|i: int| 0 <= i < d.len() ==> mismatch_names(ms).contains(#[trigger] names_of(d)[i]),
    ensures
        section_order(names_of(order), ms),
{
    broadcast use vstd::seq_lib::to_multiset_contains;
    let o = names_of(order);
    let dn = names_of(d);
    dn.lemma_multiset_has_no_duplicates();
    o.lemma_multiset_has_no_duplicates_conv();
    assert forall|k: int| 0 <= k < ms.len() implies o.contains(#[trigger] ms[k].signal_name@) by {
        assert(dn.contains(ms[k].signal_name@));
        assert(dn.to_multiset().count(ms[k].signal_name@) > 0);
    }
    assert forall|i: int| 0 <= i < o.len() implies mismatch_names(ms).contains(#[trigger] o[i]) by {
        assert(o.contains(o[i]));
        assert(o.to_multiset().count(o[i]) > 0);
        assert(dn.contains(o[i]));
        let w = choose|w: int| 0 <= w < dn.len() && dn[w] == o[i];
        assert(mismatch_names(ms).contains(dn[w]));
    }
}

fn listing_lines(title: &str, names: &Vec<String>) -> (lines: Vec<String>)
    ensures
        names_of(lines@) == listing(title@, names_of(names@)),
{
    let mut lines: Vec<String> = Vec::new();
    if names.len() == 0 {
        assert(names_of(lines@) =~= Seq::<Seq<char>>::empty());
        return lines;
    }
    proof {
        reveal_strlit("  - ");
        reveal_strlit("");
    }
    push_text(&mut lines, title);
    let mut k: usize = 0;
    while k < names.len()
        invariant
            k <= names.len(),
            names_of(lines@) == seq![title@] + names_of(names@).take(k as int).map_values(|n: Seq<char>| "  - "@ + n),
        decreases names.len() - k,
    {
        let ghost before = names_of(lines@);
        push_line(&mut lines, concat("  - ", names[k].as_str()));
        assert(names_of(names@).take(k + 1) =~= names_of(names@).take(k as int).push(names@[k as int]@));
        assert(names_of(lines@) =~= seq![title@] + names_of(names@).take(k + 1).map_values(|n: Seq<char>| "  - "@ + n));
        k = k + 1;
    }
    assert(names_of(names@).take(names.len() as int) =~= names_of(names@));
    push_text(&mut lines, "");
    assert(""@ =~= Seq::<char>::empty());
    assert(names_of(lines@) =~= listing(title@, names_of(names@)));
    lines
}

} // verus!
