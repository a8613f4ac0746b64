//! Text of the command-line front end: signal arguments, tables, metadata
//! rows, extraction rows and comparison reports.

use vstd::prelude::*;

use crate::query::compare::names_of;
use crate::server::protocol::byte_len;
use crate::text::{chars_of, decimal_chars, string_of, trim, trim_chars, u64_decimal, usize_decimal, utf8_len};
use crate::{concat, format_value_for_signal, time_unit_text, value_for_signal_text, ChangeValue, VcdMeta};
use crate::text::str_eq;
use crate::catalog::distinct;
use crate::waveform::WaveformFormat;

verus! {

/// `piece`, trimmed, appended to `done` unless it is empty.
pub open spec fn push_piece(done: Seq<Seq<char>>, piece: Seq<char>) -> Seq<Seq<char>> {
    let t = trim_chars(piece);
    if t.len() > 0 {
        done.push(t)
    } else {
        done
    }
}

/// Reading `s` in order: the pieces completed at commas, and the open piece.
pub open spec fn comma_state(s: Seq<char>) -> (Seq<Seq<char>>, Seq<char>)
    decreases s.len(),
{
    if s.len() == 0 {
        (Seq::empty(), Seq::empty())
    } else {
        let (done, cur) = comma_state(s.drop_last());
        if s.last() == ',' {
            (push_piece(done, cur), Seq::empty())
        } else {
            (done, cur.push(s.last()))
        }
    }
}

/// The trimmed, non-empty pieces of `s` between commas, in order.
pub open spec fn comma_names(s: Seq<char>) -> Seq<Seq<char>> {
    let (done, cur) = comma_state(s);
    push_piece(done, cur)
}

/// The names of a list of arguments that may each hold several
/// comma-separated names.
pub open spec fn argument_names(entries: Seq<Seq<char>>) -> Seq<Seq<char>>
    decreases entries.len(),
{
    if entries.len() == 0 {
        Seq::empty()
    } else {
        argument_names(entries.drop_last()) + comma_names(entries.last())
    }
}

fn push_trimmed(done: &mut Vec<String>, piece: &[char])
    ensures
        names_of(final(done)@) == push_piece(names_of(old(done)@), piece@),
{
    let t = trim(piece);
    if t.len() > 0 {
        let ghost before = names_of(done@);
        done.push(string_of(t.as_slice()));
        assert(names_of(done@) =~= before.push(t@));
    }
}

/// The trimmed, non-empty comma-separated pieces of `s`.
pub fn split_comma_names(s: &str) -> (out: Vec<String>)
    ensures
        names_of(out@) == comma_names(s@),
{
    let chars = chars_of(s);
    let mut out: Vec<String> = Vec::new();
    let mut cur: Vec<char> = Vec::new();
    let mut i: usize = 0;
    assert(names_of(out@) =~= Seq::<Seq<char>>::empty());
    while i < chars.len()
        invariant
            i <= chars.len(),
            chars@ == s@,
            comma_state(chars@.take(i as int)) == (names_of(out@), cur@),
        decreases chars.len() - i,
    {
        proof {
            assert(chars@.take(i + 1).drop_last() =~= chars@.take(i as int));
        }
        if chars[i] == ',' {
            push_trimmed(&mut out, cur.as_slice());
            cur = Vec::new();
        } else {
            cur.push(chars[i]);
        }
        i = i + 1;
    }
    push_trimmed(&mut out, cur.as_slice());
    assert(chars@.take(chars.len() as int) =~= chars@);
    out
}

pub open spec fn no_signals_text() -> Seq<char> {
    "At least one --signal or --signals-file entry is required"@
}

/// The names of `--signal` arguments (each possibly a comma-separated
/// list) followed by the names read from a signals file; at least one name
/// is required.
pub fn collect_signal_names(signals: &Vec<String>, from_file: Vec<String>) -> (r: Result<Vec<String>, String>)
    ensures
        ({
            let all = argument_names(names_of(signals@)) + names_of(from_file@);
            match r {
                Ok(v) => names_of(v@) == all && all.len() > 0,
                Err(m) => all.len() == 0 && m@ == no_signals_text(),
            }
        }),
{
    let mut names: Vec<String> = Vec::new();
    let mut k: usize = 0;
    assert(names_of(names@) =~= Seq::<Seq<char>>::empty());
    assert(names_of(signals@).take(0) =~= Seq::<Seq<char>>::empty());
    while k < signals.len()
        invariant
            k <= signals.len(),
            names_of(names@) == argument_names(names_of(signals@).take(k as int)),
        decreases signals.len() - k,
    {
        let ghost before = names_of(names@);
        let mut parts = split_comma_names(signals[k].as_str());
        let ghost added = names_of(parts@);
        names.append(&mut parts);
        proof {
            assert(names_of(signals@).take(k + 1).drop_last() =~= names_of(signals@).take(k as int));
            assert(names_of(names@) =~= before + added);
        }
        k = k + 1;
    }
    assert(names_of(signals@).take(signals.len() as int) =~= names_of(signals@));
    let ghost head = names_of(names@);
    let ghost tail = names_of(from_file@);
    let mut rest = from_file;
    names.append(&mut rest);
    assert(names_of(names@) =~= head + tail);
    if names.len() == 0 {
        proof {
            reveal_strlit("At least one --signal or --signals-file entry is required");
        }
        return Err(String::from_str("At least one --signal or --signals-file entry is required"));
    }
    Ok(names)
}

/// `find` watches exactly one signal: the argument holds exactly one
/// non-empty comma-separated name.
pub fn is_single_signal(signal: &str) -> (b: bool)
    ensures
        b == (comma_names(signal@).len() == 1),
{
    let names = split_comma_names(signal);
    names.len() == 1
}

/// The timescale as metadata shows it: `magnitude unit`, or `n/a`.
pub open spec fn timescale_text(meta: VcdMeta) -> Seq<char> {
    match meta.timescale {
        Some(ts) => decimal_chars(ts.magnitude as nat) + " "@ + time_unit_text(ts.unit),
        None => "n/a"@,
    }
}

/// The metadata rows: signal count, timescale, start and end time.
pub open spec fn meta_rows_spec(meta: VcdMeta) -> Seq<(Seq<char>, Seq<char>)> {
    seq![
        ("signals"@, decimal_chars(meta.signal_count as nat)),
        ("timescale"@, timescale_text(meta)),
        ("start_time"@, decimal_chars(meta.start_time as nat)),
        ("end_time"@, decimal_chars(meta.end_time as nat)),
    ]
}

pub open spec fn pairs_view(rows: Seq<(String, String)>) -> Seq<(Seq<char>, Seq<char>)> {
    rows.map_values(|r: (String, String)| (r.0@, r.1@))
}

pub fn meta_rows(meta: &VcdMeta) -> (rows: Vec<(String, String)>)
    ensures
        pairs_view(rows@) == meta_rows_spec(*meta),
{
    let timescale = match meta.timescale {
        Some(ts) => {
            let mut t = concat(u64_decimal(ts.magnitude as u64).as_str(), " ");
            t.append(ts.unit.text());
            t
        },
        None => String::from_str("n/a"),
    };
    proof {
        reveal_strlit(" ");
        reveal_strlit("n/a");
    }
    let rows = vec![
        (String::from_str("signals"), usize_decimal(meta.signal_count)),
        (String::from_str("timescale"), timescale),
        (String::from_str("start_time"), u64_decimal(meta.start_time)),
        (String::from_str("end_time"), u64_decimal(meta.end_time)),
    ];
    assert(pairs_view(rows@) =~= meta_rows_spec(*meta));
    rows
}

/// `parts` joined with `sep` between consecutive parts.
pub open spec fn join_with(sep: Seq<char>, parts: Seq<Seq<char>>) -> Seq<char>
    decreases parts.len(),
{
    if parts.len() == 0 {
        Seq::empty()
    } else if parts.len() == 1 {
        parts[0]
    } else {
        join_with(sep, parts.drop_last()) + sep + parts.last()
    }
}

/// `col` left-aligned in `width` characters (`{:<width$}`).
pub open spec fn pad_right(col: Seq<char>, width: nat) -> Seq<char> {
    if col.len() >= width {
        col
    } else {
        col + Seq::new((width - col.len()) as nat, |_i: int| ' ')
    }
}

/// Column widths after `row`: each column at least as wide as the row's
/// cell in bytes; cells beyond the columns are ignored.
pub open spec fn widen(widths: Seq<nat>, row: Seq<Seq<char>>) -> Seq<nat> {
    Seq::new(widths.len(), |k: int| if k < row.len() && utf8_len(row[k]) > widths[k] { utf8_len(row[k]) } else { widths[k] })
}

/// Column widths of a table: the widest of header and cells, in bytes.
pub open spec fn table_widths(headers: Seq<Seq<char>>, rows: Seq<Seq<Seq<char>>>) -> Seq<nat>
    decreases rows.len(),
{
    if rows.len() == 0 {
        headers.map_values(|h: Seq<char>| utf8_len(h))
    } else {
        widen(table_widths(headers, rows.drop_last()), rows.last())
    }
}

/// The cells of a row, each padded to its column, joined with ` | `.
pub open spec fn row_line(row: Seq<Seq<char>>, widths: Seq<nat>) -> Seq<char> {
    let n = if row.len() <= widths.len() { row.len() } else { widths.len() };
    join_with(" | "@, Seq::new(n, |k: int| pad_right(row[k], widths[k])))
}

/// A run of dashes per column, joined with `-+-`.
pub open spec fn separator_line(widths: Seq<nat>) -> Seq<char> {
    join_with("-+-"@, widths.map_values(|w: nat| Seq::new(w, |_i: int| '-')))
}

/// The lines of a table: header, separator, then the rows.
pub open spec fn table_lines(headers: Seq<Seq<char>>, rows: Seq<Seq<Seq<char>>>) -> Seq<Seq<char>> {
    let w = table_widths(headers, rows);
    seq![row_line(headers, w), separator_line(w)] + rows.map_values(|r: Seq<Seq<char>>| row_line(r, w))
}

pub open spec fn rows_view(rows: Seq<Vec<String>>) -> Seq<Seq<Seq<char>>> {
    rows.map_values(|r: Vec<String>| names_of(r@))
}

fn widths_of(headers: &Vec<String>, rows: &Vec<Vec<String>>) -> (w: Vec<usize>)
    ensures
        w@.map_values(|x: usize| x as nat) == table_widths(names_of(headers@), rows_view(rows@)),
{
    let mut w: Vec<usize> = Vec::new();
    let mut k: usize = 0;
    while k < headers.len()
        invariant
            k <= headers.len(),
            w@.map_values(|x: usize| x as nat) == names_of(headers@).take(k as int).map_values(|h: Seq<char>| utf8_len(h)),
        decreases headers.len() - k,
    {
        let n = byte_len(headers[k].as_str());
        let ghost before = w@.map_values(|x: usize| x as nat);
        w.push(n);
        assert(names_of(headers@).take(k + 1) =~= names_of(headers@).take(k as int).push(headers@[k as int]@));
        assert(w@.map_values(|x: usize| x as nat) =~= before.push(n as nat));
        assert(w@.map_values(|x: usize| x as nat) =~= names_of(headers@).take(k + 1).map_values(|h: Seq<char>| utf8_len(h)));
        k = k + 1;
    }
    assert(names_of(headers@).take(headers.len() as int) =~= names_of(headers@));
    assert(rows_view(rows@).take(0) =~= Seq::<Seq<Seq<char>>>::empty());
    let mut r: usize = 0;
    while r < rows.len()
        invariant
            r <= rows.len(),
            w@.map_values(|x: usize| x as nat) == table_widths(names_of(headers@), rows_view(rows@).take(r as int)),
        decreases rows.len() - r,
    {
        let row = &rows[r];
        let ghost start = w@.map_values(|x: usize| x as nat);
        let ghost rv = names_of(row@);
        let mut c: usize = 0;
        while c < w.len()
            invariant
                c <= w.len(),
                w@.len() == start.len(),
                rv == names_of(row@),
                forall|k: int| 0 <= k < w@.len() ==> #[trigger] w@[k] as nat == if k < c {
                    widen(start, rv)[k]
                } else {
                    start[k]
                },
            decreases w.len() - c,
        {
            proof {
                if c < row@.len() {
                    assert(rv[c as int] == row@[c as int]@);
                }
                assert(start[c as int] == w@[c as int] as nat);
            }
            if c < row.len() {
                let n = byte_len(row[c].as_str());
                if n > w[c] {
                    w.set(c, n);
                }
            }
            c = c + 1;
        }
        proof {
            assert(rows_view(rows@).take(r + 1).drop_last() =~= rows_view(rows@).take(r as int));
            assert(rows_view(rows@).take(r + 1).last() == rv);
            assert(w@.map_values(|x: usize| x as nat) =~= widen(start, rv));
        }
        r = r + 1;
    }
    assert(rows_view(rows@).take(rows.len() as int) =~= rows_view(rows@));
    w
}

fn pad_into(out: &mut Vec<char>, col: &str, width: usize)
    ensures
        final(out)@ == old(out)@ + pad_right(col@, width as nat),
{
    let chars = chars_of(col);
    let ghost start = out@;
    let mut i: usize = 0;
    while i < chars.len()
        invariant
            i <= chars.len(),
            chars@ == col@,
            out@ == start + chars@.take(i as int),
        decreases chars.len() - i,
    {
        out.push(chars[i]);
        assert(chars@.take(i + 1) =~= chars@.take(i as int).push(chars@[i as int]));
        i = i + 1;
    }
    assert(chars@.take(chars.len() as int) =~= chars@);
    if chars.len() < width {
        let pad = width - chars.len();
        let mut j: usize = 0;
        while j < pad
            invariant
                j <= pad,
                out@ == start + col@ + Seq::new(j as nat, |_i: int| ' '),
            decreases pad - j,
        {
            out.push(' ');
            assert(Seq::new((j + 1) as nat, |_i: int| ' ') =~= Seq::new(j as nat, |_i: int| ' ').push(' '));
            j = j + 1;
        }
    } else {
        assert(out@ =~= start + col@);
    }
}

fn push_str_chars(out: &mut Vec<char>, s: &str)
    ensures
        final(out)@ == old(out)@ + s@,
{
    let chars = chars_of(s);
    let ghost start = out@;
    let mut i: usize = 0;
    while i < chars.len()
        invariant
            i <= chars.len(),
            chars@ == s@,
            out@ == start + chars@.take(i as int),
        decreases chars.len() - i,
    {
        out.push(chars[i]);
        assert(chars@.take(i + 1) =~= chars@.take(i as int).push(chars@[i as int]));
        i = i + 1;
    }
    assert(chars@.take(chars.len() as int) =~= chars@);
}

fn render_row(row: &Vec<String>, widths: &Vec<usize>) -> (line: String)
    ensures
        line@ == row_line(names_of(row@), widths@.map_values(|x: usize| x as nat)),
{
    let ghost wv = widths@.map_values(|x: usize| x as nat);
    let ghost rv = names_of(row@);
    let n = if row.len() <= widths.len() { row.len() } else { widths.len() };
    let ghost parts = Seq::new(n as nat, |k: int| pad_right(rv[k], wv[k]));
    let mut out: Vec<char> = Vec::new();
    let mut k: usize = 0;
    proof {
        reveal_strlit(" | ");
    }
    while k < n
        invariant
            k <= n,
            n <= row.len(),
            n <= widths.len(),
            rv == names_of(row@),
            wv == widths@.map_values(|x: usize| x as nat),
            parts == Seq::new(n as nat, |j: int| pad_right(rv[j], wv[j])),
            out@ == join_with(" | "@, parts.take(k as int)),
        decreases n - k,
    {
        let ghost before = out@;
        if k > 0 {
            push_str_chars(&mut out, " | ");
        }
        pad_into(&mut out, row[k].as_str(), widths[k]);
        proof {
            assert(parts[k as int] == pad_right(row@[k as int]@, widths@[k as int] as nat));
            assert(parts.take(k + 1).drop_last() =~= parts.take(k as int));
            assert(parts.take(k + 1).last() == parts[k as int]);
            if k == 0 {
                assert(parts.take(1) =~= seq![parts[0]]);
            }
        }
        k = k + 1;
    }
    assert(parts.take(n as int) =~= parts);
    string_of(out.as_slice())
}

fn render_separator(widths: &Vec<usize>) -> (line: String)
    ensures
        line@ == separator_line(widths@.map_values(|x: usize| x as nat)),
{
    let ghost parts = widths@.map_values(|x: usize| x as nat).map_values(|w: nat| Seq::new(w, |_i: int| '-'));
    let mut out: Vec<char> = Vec::new();
    let mut k: usize = 0;
    proof {
        reveal_strlit("-+-");
    }
    while k < widths.len()
        invariant
            k <= widths.len(),
            parts == widths@.map_values(|x: usize| x as nat).map_values(|w: nat| Seq::new(w, |_i: int| '-')),
            parts.len() == widths.len(),
            out@ == join_with("-+-"@, parts.take(k as int)),
        decreases widths.len() - k,
    {
        if k > 0 {
            push_str_chars(&mut out, "-+-");
        }
        let ghost mid = out@;
        let w = widths[k];
        let mut j: usize = 0;
        while j < w
            invariant
                j <= w,
                out@ == mid + Seq::new(j as nat, |_i: int| '-'),
            decreases w - j,
        {
            out.push('-');
            assert(Seq::new((j + 1) as nat, |_i: int| '-') =~= Seq::new(j as nat, |_i: int| '-').push('-'));
            j = j + 1;
        }
        proof {
            assert(parts[k as int] =~= Seq::new(w as nat, |_i: int| '-'));
            assert(parts.take(k + 1).drop_last() =~= parts.take(k as int));
            if k == 0 {
                assert(parts.take(1) =~= seq![parts[0]]);
                assert(out@ =~= parts[0]);
            }
        }
        k = k + 1;
    }
    assert(parts.take(widths.len() as int) =~= parts);
    string_of(out.as_slice())
}

/// The lines of a table (without line breaks): header, separator, rows.
pub fn render_table(headers: &Vec<String>, rows: &Vec<Vec<String>>) -> (lines: Vec<String>)
    ensures
        names_of(lines@) == table_lines(names_of(headers@), rows_view(rows@)),
{
    let widths = widths_of(headers, rows);
    let ghost wv = widths@.map_values(|x: usize| x as nat);
    let mut lines: Vec<String> = Vec::new();
    lines.push(render_row(headers, &widths));
    lines.push(render_separator(&widths));
    let mut r: usize = 0;
    while r < rows.len()
        invariant
            r <= rows.len(),
            wv == table_widths(names_of(headers@), rows_view(rows@)),
            wv == widths@.map_values(|x: usize| x as nat),
            names_of(lines@) == seq![row_line(names_of(headers@), wv), separator_line(wv)]
                + rows_view(rows@).take(r as int).map_values(|row: Seq<Seq<char>>| row_line(row, wv)),
        decreases rows.len() - r,
    {
        let ghost before = names_of(lines@);
        lines.push(render_row(&rows[r], &widths));
        proof {
            assert(rows_view(rows@).take(r + 1) =~= rows_view(rows@).take(r as int).push(rows_view(rows@)[r as int]));
            assert(names_of(lines@) =~= before.push(row_line(rows_view(rows@)[r as int], wv)));
        }
        r = r + 1;
    }
    assert(rows_view(rows@).take(rows.len() as int) =~= rows_view(rows@));
    lines
}

/// Cells joined with `sep`.
pub fn join_cells(cells: &Vec<String>, sep: &str) -> (line: String)
    ensures
        line@ == join_with(sep@, names_of(cells@)),
{
    let mut out: Vec<char> = Vec::new();
    let mut k: usize = 0;
    while k < cells.len()
        invariant
            k <= cells.len(),
            out@ == join_with(sep@, names_of(cells@).take(k as int)),
        decreases cells.len() - k,
    {
        if k > 0 {
            push_str_chars(&mut out, sep);
        }
        push_str_chars(&mut out, cells[k].as_str());
        proof {
            let parts = names_of(cells@);
            assert(parts.take(k + 1).drop_last() =~= parts.take(k as int));
            assert(parts.take(k + 1).last() == cells@[k as int]@);
            if k == 0 {
                assert(parts.take(1) =~= seq![parts[0]]);
            }
        }
        k = k + 1;
    }
    assert(names_of(cells@).take(cells.len() as int) =~= names_of(cells@));
    string_of(out.as_slice())
}

/// Cells joined with tabs.
pub fn join_tab(cells: &Vec<String>) -> (line: String)
    ensures
        line@ == join_with("\t"@, names_of(cells@)),
{
    join_cells(cells, "\t")
}

/// The requested names among the first `n` whose width is unknown, in
/// request order.
pub open spec fn undeclared(names: Seq<Seq<char>>, widths: Seq<Option<u32>>, n: int) -> Seq<Seq<char>>
    decreases n,
{
    if n <= 0 {
        Seq::empty()
    } else if widths[n - 1] is None {
        undeclared(names, widths, n - 1).push(names[n - 1])
    } else {
        undeclared(names, widths, n - 1)
    }
}

/// The upper-case name of a waveform format.
pub open spec fn format_label(format: WaveformFormat) -> Seq<char> {
    match format {
        WaveformFormat::Vcd => "VCD"@,
        WaveformFormat::Fst => "FST"@,
    }
}

fn all_distinct(names: &Vec<String>) -> (b: bool)
    ensures
        b == distinct(names_of(names@)),
{
    let ghost v = names_of(names@);
    let mut i: usize = 0;
    while i < names.len()
        invariant
            i <= names.len(),
            v == names_of(names@),
            forall|a: int, b: int| 0 <= a < b < v.len() && a < i ==> v[a] != v[b],
        decreases names.len() - i,
    {
        let mut j: usize = i + 1;
        while j < names.len()
            invariant
                i < names.len(),
                i + 1 <= j <= names.len(),
                v == names_of(names@),
                forall|a: int, b: int| 0 <= a < b < v.len() && a < i ==> v[a] != v[b],
                forall|b: int| i < b < j ==> v[i as int] != v[b],
            decreases names.len() - j,
        {
            if str_eq(names[i].as_str(), names[j].as_str()) {
                assert(v[i as int] == v[j as int]);
                return false;
            }
            j = j + 1;
        }
        i = i + 1;
    }
    true
}

/// The error text for requested signals that cannot be extracted
/// (`widths[i]` is the width of `names[i]` when it is declared): the
/// undeclared names, when a name is undeclared or requested twice.
pub fn undeclared_message(names: &Vec<String>, widths: &Vec<Option<u32>>, format: WaveformFormat) -> (r: Option<String>)
    requires
        names@.len() == widths@.len(),
    ensures
        r is Some <==> (undeclared(names_of(names@), widths@, names@.len() as int).len() > 0 || !distinct(
            names_of(names@),
        )),
        r matches Some(m) ==> m@ == "Signals not found in "@ + format_label(format) + ": "@ + join_with(
            ", "@,
            undeclared(names_of(names@), widths@, names@.len() as int),
        ),
{
    let ghost v = names_of(names@);
    let mut missing: Vec<String> = Vec::new();
    let mut i: usize = 0;
    while i < names.len()
        invariant
            i <= names.len(),
            names@.len() == widths@.len(),
            v == names_of(names@),
            names_of(missing@) == undeclared(v, widths@, i as int),
        decreases names.len() - i,
    {
        if widths[i].is_none() {
            let ghost before = names_of(missing@);
            missing.push(names[i].clone());
            assert(names_of(missing@) =~= before.push(v[i as int]));
        }
        i = i + 1;
    }
    if missing.len() == 0 && all_distinct(names) {
        return None;
    }
    let label = match format {
        WaveformFormat::Vcd => "VCD",
        WaveformFormat::Fst => "FST",
    };
    let head = concat(concat("Signals not found in ", label).as_str(), ": ");
    Some(concat(head.as_str(), join_cells(&missing, ", ").as_str()))
}

/// Time-aligned extraction rows: one row per timestamp with changes, each
/// column showing the last value of its signal so far (empty before its
/// first change).
pub struct ExtractRows {
    names: Vec<String>,
    widths: Vec<u32>,
    values: Vec<String>,
    current_time: Option<u64>,
}

impl ExtractRows {
    pub closed spec fn spec_names(&self) -> Seq<Seq<char>> {
        names_of(self.names@)
    }

    pub closed spec fn spec_widths(&self) -> Seq<u32> {
        self.widths@
    }

    pub closed spec fn spec_values(&self) -> Seq<Seq<char>> {
        names_of(self.values@)
    }

    pub closed spec fn spec_time(&self) -> Option<u64> {
        self.current_time
    }

    pub open spec fn wf(&self) -> bool {
        self.spec_widths().len() == self.spec_names().len() && self.spec_values().len() == self.spec_names().len()
    }

    /// The cells of the row at `time`: the time, then each column's value.
    pub open spec fn row_spec(&self, time: u64) -> Seq<Seq<char>> {
        seq![decimal_chars(time as nat)] + self.spec_values()
    }

    /// Columns `names`, whose signals have the bit widths `widths`.
    pub fn new(names: Vec<String>, widths: Vec<u32>) -> (t: Self)
        requires
            names.len() == widths.len(),
        ensures
            t.wf(),
            t.spec_names() == names_of(names@),
            t.spec_widths() == widths@,
            t.spec_values() == Seq::new(names@.len(), |_k: int| Seq::<char>::empty()),
            t.spec_time() is None,
    {
        let mut values: Vec<String> = Vec::new();
        let mut k: usize = 0;
        while k < names.len()
            invariant
                k <= names.len(),
                names_of(values@) == Seq::new(k as nat, |_j: int| Seq::<char>::empty()),
            decreases names.len() - k,
        {
            let ghost before = names_of(values@);
            values.push(String::from_str(""));
            proof {
                reveal_strlit("");
                assert(""@ =~= Seq::<char>::empty());
                assert(names_of(values@) =~= before.push(Seq::<char>::empty()));
            }
            assert(names_of(values@) =~= Seq::new((k + 1) as nat, |_j: int| Seq::<char>::empty()));
            k = k + 1;
        }
        ExtractRows { names, widths, values, current_time: None }
    }

    /// The header cells: `time`, then the column names.
    pub fn header(&self) -> (cells: Vec<String>)
        ensures
            names_of(cells@) == seq!["time"@] + self.spec_names(),
    {
        let mut cells: Vec<String> = Vec::new();
        cells.push(String::from_str("time"));
        let mut k: usize = 0;
        while k < self.names.len()
            invariant
                k <= self.names.len(),
                names_of(cells@) == seq!["time"@] + self.spec_names().take(k as int),
            decreases self.names.len() - k,
        {
            let ghost before = names_of(cells@);
            cells.push(self.names[k].clone());
            assert(self.spec_names().take(k + 1) =~= self.spec_names().take(k as int).push(self.names@[k as int]@));
            assert(names_of(cells@) =~= before.push(self.names@[k as int]@));
            k = k + 1;
        }
        assert(self.spec_names().take(self.names.len() as int) =~= self.spec_names());
        cells
    }

    fn row(&self, time: u64) -> (cells: Vec<String>)
        ensures
            names_of(cells@) == self.row_spec(time),
    {
        let mut cells: Vec<String> = Vec::new();
        cells.push(u64_decimal(time));
        let mut k: usize = 0;
        while k < self.values.len()
            invariant
                k <= self.values.len(),
                names_of(cells@) == seq![decimal_chars(time as nat)] + self.spec_values().take(k as int),
            decreases self.values.len() - k,
        {
            let ghost before = names_of(cells@);
            cells.push(self.values[k].clone());
            assert(self.spec_values().take(k + 1) =~= self.spec_values().take(k as int).push(self.values@[k as int]@));
            assert(names_of(cells@) =~= before.push(self.values@[k as int]@));
            k = k + 1;
        }
        assert(self.spec_values().take(self.values.len() as int) =~= self.spec_values());
        cells
    }

    /// Accept one change. A change at a new time first returns the row of
    /// the previous time.
    pub fn push(&mut self, signal: &str, time: u64, value: &ChangeValue) -> (row: Option<Vec<String>>)
        requires
            old(self).wf(),
        ensures
            final(self).wf(),
            final(self).spec_names() == old(self).spec_names(),
            final(self).spec_widths() == old(self).spec_widths(),
            final(self).spec_time() == Some(time),
            match row {
                Some(cells) => old(self).spec_time() matches Some(t) && t != time && names_of(cells@) == old(self).row_spec(t),
                None => !(old(self).spec_time() matches Some(t) && t != time),
            },
            final(self).spec_values() == Seq::new(
                old(self).spec_values().len(),
                |k: int| if old(self).spec_names()[k] == signal@ {
                    value_for_signal_text(*value, old(self).spec_widths()[k])
                } else {
                    old(self).spec_values()[k]
                },
            ),
    {
        let row = match self.current_time {
            Some(t) => if t != time {
                Some(self.row(t))
            } else {
                None
            },
            None => None,
        };
        self.current_time = Some(time);
        let ghost names = self.spec_names();
        let ghost widths = self.spec_widths();
        let ghost start = self.spec_values();
        let mut k: usize = 0;
        while k < self.values.len()
            invariant
                k <= self.values.len(),
                self.wf(),
                self.spec_names() == names,
                self.spec_widths() == widths,
                self.spec_time() == Some(time),
                start.len() == names.len(),
                forall|j: int| 0 <= j < start.len() ==> #[trigger] self.spec_values()[j] == if j < k && names[j] == signal@ {
                    value_for_signal_text(*value, widths[j])
                } else {
                    start[j]
                },
            decreases self.values.len() - k,
        {
            if str_eq(self.names[k].as_str(), signal) {
                let text = format_value_for_signal(value, self.widths[k]);
                let ghost prev = self.spec_values();
                let ghost tv = text@;
                self.values.set(k, text);
                assert(self.spec_values() =~= prev.update(k as int, tv));
            }
            k = k + 1;
        }
        assert(self.spec_values() =~= Seq::new(
            start.len(),
            |j: int| if names[j] == signal@ { value_for_signal_text(*value, widths[j]) } else { start[j] },
        ));
        row
    }

    /// The row of the last time, if any change was seen.
    pub fn finish(&self) -> (row: Option<Vec<String>>)
        ensures
            match row {
                Some(cells) => self.spec_time() matches Some(t) && names_of(cells@) == self.row_spec(t),
                None => self.spec_time() is None,
            },
    {
        match self.current_time {
            Some(t) => Some(self.row(t)),
            None => None,
        }
    }
}

} // verus!
