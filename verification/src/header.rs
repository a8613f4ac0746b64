//! VCD header text preparation and parsing: scope identifiers that the
//! header parser would reject are escaped before the header is parsed.

use vstd::prelude::*;

use crate::catalog::{parse_sanitized_header, CompactHeader};
use crate::text::{chars_of, is_unicode_whitespace, is_unicode_whitespace_exec, string_of, trim_start_chars};
use crate::VcdError;

verus! {

/// What `String::from_utf8_lossy` makes of bytes: their characters, each
/// ill-formed sequence replaced by U+FFFD.
pub uninterp spec fn utf8_lossy(bytes: Seq<u8>) -> Seq<char>;

/// Calls `String::from_utf8_lossy` and takes the text as an owned string.
#[verifier::external_body]
fn lossy_text(bytes: &[u8]) -> (s: String)
    ensures
        s@ == utf8_lossy(bytes@),
{
    String::from_utf8_lossy(bytes).into_owned()
}

pub open spec fn is_line_break(c: char) -> bool {
    c == '\n' || c == '\r'
}

/// Lines completed so far and the open line, reading `s` in order; a line
/// ends with (and keeps) its `\n` or `\r`.
pub open spec fn line_state(s: Seq<char>) -> (Seq<Seq<char>>, Seq<char>)
    decreases s.len(),
{
    if s.len() == 0 {
        (Seq::empty(), Seq::empty())
    } else {
        let (done, cur) = line_state(s.drop_last());
        let c = s.last();
        if is_line_break(c) {
            (done.push(cur.push(c)), Seq::empty())
        } else {
            (done, cur.push(c))
        }
    }
}

/// `str::split_inclusive` on `\n` and `\r`.
pub open spec fn split_lines(s: Seq<char>) -> Seq<Seq<char>> {
    let (done, cur) = line_state(s);
    if cur.len() > 0 {
        done.push(cur)
    } else {
        done
    }
}

/// Words completed so far and the open word, reading `s` in order.
pub open spec fn word_state(s: Seq<char>) -> (Seq<Seq<char>>, Seq<char>)
    decreases s.len(),
{
    if s.len() == 0 {
        (Seq::empty(), Seq::empty())
    } else {
        let (done, cur) = word_state(s.drop_last());
        let c = s.last();
        if is_unicode_whitespace(c) {
            if cur.len() > 0 {
                (done.push(cur), Seq::empty())
            } else {
                (done, cur)
            }
        } else {
            (done, cur.push(c))
        }
    }
}

/// `str::split_whitespace`.
pub open spec fn words(s: Seq<char>) -> Seq<Seq<char>> {
    let (done, cur) = word_state(s);
    if cur.len() > 0 {
        done.push(cur)
    } else {
        done
    }
}

pub open spec fn ident_char_allowed(c: char) -> bool {
    ('a' <= c && c <= 'z') || ('A' <= c && c <= 'Z') || ('0' <= c && c <= '9') || c == '_' || c == '$'
        || c == '(' || c == ')' || c == '.'
}

/// A scope identifier the header parser would reject: non-empty, not
/// already escaped with `\`, and not starting with a letter or `_`, or
/// holding a character outside letters, digits and `_$().`.
pub open spec fn needs_escape(ident: Seq<char>) -> bool {
    if ident.len() == 0 || ident[0] == '\\' {
        false
    } else if !(('a' <= ident[0] && ident[0] <= 'z') || ('A' <= ident[0] && ident[0] <= 'Z') || ident[0] == '_') {
        true
    } else {
        exists|i: int| 0 <= i < ident.len() && !ident_char_allowed(#[trigger] ident[i])
    }
}

/// A header line with its `$scope` identifier escaped when needed: a line
/// whose text (after leading whitespace) starts with `$scope ` and has at
/// least four words is rebuilt as `$scope <type> <ident> $end`, keeping
/// its indentation and a final `\n`; other lines are unchanged.
pub open spec fn sanitize_line(line: Seq<char>) -> Seq<char> {
    let trimmed = trim_start_chars(line);
    let parts = words(trimmed);
    if trimmed.len() >= 7 && trimmed.take(7) == "$scope "@ && parts.len() >= 4 && parts[0] == "$scope"@ {
        let ident = parts[2];
        let fixed = if needs_escape(ident) { seq!['\\'] + ident } else { ident };
        let newline = if line.len() > 0 && line.last() == '\n' { seq!['\n'] } else { Seq::empty() };
        line.take(line.len() - trimmed.len()) + "$scope "@ + parts[1] + " "@ + fixed + " $end"@ + newline
    } else {
        line
    }
}

/// Concatenation of lines.
pub open spec fn join_lines(lines: Seq<Seq<char>>) -> Seq<char>
    decreases lines.len(),
{
    if lines.len() == 0 {
        Seq::empty()
    } else {
        join_lines(lines.drop_last()) + lines.last()
    }
}

/// The sanitized header text.
pub open spec fn sanitized_text(header: Seq<u8>) -> Seq<char> {
    join_lines(split_lines(utf8_lossy(header)).map_values(|l: Seq<char>| sanitize_line(l)))
}

fn push_all(out: &mut Vec<char>, s: &[char])
    ensures
        final(out)@ == old(out)@ + s@,
{
    let mut i: usize = 0;
    let ghost start = out@;
    while i < s.len()
        invariant
            i <= s.len(),
            out@ == start + s@.take(i as int),
        decreases s.len() - i,
    {
        out.push(s[i]);
        i = i + 1;
        assert(out@ =~= start + s@.take(i as int));
    }
    assert(s@.take(s@.len() as int) =~= s@);
}

fn words_of(s: &[char]) -> (out: Vec<Vec<char>>)
    ensures
        out@.map_values(|w: Vec<char>| w@) == words(s@),
{
    let mut done: Vec<Vec<char>> = Vec::new();
    let mut cur: Vec<char> = Vec::new();
    let mut i: usize = 0;
    assert(s@.take(0) =~= Seq::<char>::empty());
    while i < s.len()
        invariant
            i <= s.len(),
            word_state(s@.take(i as int)) == (done@.map_values(|w: Vec<char>| w@), cur@),
        decreases s.len() - i,
    {
        assert(s@.take(i + 1).drop_last() =~= s@.take(i as int));
        assert(s@.take(i + 1).last() == s@[i as int]);
        if is_unicode_whitespace_exec(s[i]) {
            if cur.len() > 0 {
                let ghost d = done@.map_values(|w: Vec<char>| w@);
                let finished = cur;
                cur = Vec::new();
                done.push(finished);
                assert(done@.map_values(|w: Vec<char>| w@) =~= d.push(finished@));
            }
        } else {
            cur.push(s[i]);
        }
        i = i + 1;
    }
    assert(s@.take(s@.len() as int) =~= s@);
    if cur.len() > 0 {
        let ghost d = done@.map_values(|w: Vec<char>| w@);
        let finished = cur;
        done.push(finished);
        assert(done@.map_values(|w: Vec<char>| w@) =~= d.push(finished@));
    }
    done
}

fn same_chars(a: &[char], b: &str) -> (r: bool)
    ensures
        r == (a@ == b@),
{
    let bc = crate::text::chars_of(b);
    if a.len() != bc.len() {
        return false;
    }
    let mut i: usize = 0;
    while i < a.len()
        invariant
            i <= a.len(),
            a.len() == bc.len(),
            bc@ == b@,
            forall|j: int| 0 <= j < i ==> a@[j] == bc@[j],
        decreases a.len() - i,
    {
        if a[i] != bc[i] {
            return false;
        }
        i = i + 1;
    }
    assert(a@ =~= b@);
    true
}

fn needs_escape_exec(ident: &[char]) -> (r: bool)
    ensures
        r == needs_escape(ident@),
{
    if ident.len() == 0 || ident[0] == '\\' {
        return false;
    }
    let c = ident[0];
    if !(('a' <= c && c <= 'z') || ('A' <= c && c <= 'Z') || c == '_') {
        return true;
    }
    let mut i: usize = 0;
    while i < ident.len()
        invariant
            i <= ident.len(),
            ident.len() > 0,
            ident@[0] != '\\',
            ('a' <= ident@[0] && ident@[0] <= 'z') || ('A' <= ident@[0] && ident@[0] <= 'Z') || ident@[0] == '_',
            forall|j: int| 0 <= j < i ==> ident_char_allowed(#[trigger] ident@[j]),
        decreases ident.len() - i,
    {
        let d = ident[i];
        if !(('a' <= d && d <= 'z') || ('A' <= d && d <= 'Z') || ('0' <= d && d <= '9') || d == '_'
            || d == '$' || d == '(' || d == ')' || d == '.') {
            assert(!ident_char_allowed(ident@[i as int]));
            return true;
        }
        i = i + 1;
    }
    false
}

/// One line, sanitized.
fn sanitize_line_exec(line: &[char]) -> (out: Vec<char>)
    ensures
        out@ == sanitize_line(line@),
{
    let mut a: usize = 0;
    while a < line.len() && is_unicode_whitespace_exec(line[a])
        invariant
            a <= line.len(),
            forall|j: int| 0 <= j < a ==> is_unicode_whitespace(#[trigger] line@[j]),
        decreases line.len() - a,
    {
        a = a + 1;
    }
    proof {
        crate::text::lemma_trim_start_skip(line@, a as int);
    }
    let mut trimmed: Vec<char> = Vec::new();
    let mut k: usize = a;
    while k < line.len()
        invariant
            a <= k <= line.len(),
            trimmed@ == line@.subrange(a as int, k as int),
        decreases line.len() - k,
    {
        trimmed.push(line[k]);
        k = k + 1;
        assert(trimmed@ =~= line@.subrange(a as int, k as int));
    }
    let ghost t = trim_start_chars(line@);
    assert(trimmed@ == t);
    let mut copy: Vec<char> = Vec::new();
    push_all(&mut copy, line);
    if trimmed.len() < 7 {
        return copy;
    }
    let mut head: Vec<char> = Vec::new();
    push_all(&mut head, &trimmed.as_slice()[0..7]);
    if !same_chars(head.as_slice(), "$scope ") {
        assert(head@ =~= t.take(7));
        return copy;
    }
    assert(head@ =~= t.take(7));
    let parts = words_of(trimmed.as_slice());
    let ghost pv = parts@.map_values(|w: Vec<char>| w@);
    if parts.len() < 4 || !same_chars(parts[0].as_slice(), "$scope") {
        return copy;
    }
    let ident = parts[2].as_slice();
    let mut out: Vec<char> = Vec::new();
    let mut p: usize = 0;
    while p < a
        invariant
            p <= a <= line.len(),
            out@ == line@.take(p as int),
        decreases a - p,
    {
        out.push(line[p]);
        p = p + 1;
        assert(out@ =~= line@.take(p as int));
    }
    assert(line.len() - trimmed.len() == a);
    let scope_kw = crate::text::chars_of("$scope ");
    push_all(&mut out, scope_kw.as_slice());
    push_all(&mut out, parts[1].as_slice());
    out.push(' ');
    if needs_escape_exec(ident) {
        out.push('\\');
    }
    push_all(&mut out, ident);
    let end_kw = crate::text::chars_of(" $end");
    push_all(&mut out, end_kw.as_slice());
    if line.len() > 0 && line[line.len() - 1] == '\n' {
        out.push('\n');
    }
    proof {
        reveal_strlit(" ");
        assert(pv[1] == parts@[1]@);
        assert(pv[2] == parts@[2]@);
        assert(pv[0] == parts@[0]@);
        let fixed = if needs_escape(pv[2]) { seq!['\\'] + pv[2] } else { pv[2] };
        let newline = if line@.len() > 0 && line@.last() == '\n' { seq!['\n'] } else { Seq::<char>::empty() };
        assert(out@ =~= line@.take(a as int) + "$scope "@ + pv[1] + " "@ + fixed + " $end"@ + newline);
    }
    out
}

/// The header text with unusual `$scope` identifiers escaped.
pub fn sanitize_header(header: &[u8]) -> (out: String)
    ensures
        out@ == sanitized_text(header@),
{
    let lossy = lossy_text(header);
    let text = chars_of(lossy.as_str());
    let ghost s = text@;
    let mut out: Vec<char> = Vec::new();
    let mut cur: Vec<char> = Vec::new();
    let mut i: usize = 0;
    assert(s.take(0) =~= Seq::<char>::empty());
    assert(line_state(s.take(0)).0.map_values(|l: Seq<char>| sanitize_line(l)) =~= Seq::<Seq<char>>::empty());
    while i < text.len()
        invariant
            i <= text.len(),
            s == text@,
            line_state(s.take(i as int)).1 == cur@,
            out@ == join_lines(line_state(s.take(i as int)).0.map_values(|l: Seq<char>| sanitize_line(l))),
        decreases text.len() - i,
    {
        let ghost prior = line_state(s.take(i as int));
        assert(s.take(i + 1).drop_last() =~= s.take(i as int));
        assert(s.take(i + 1).last() == s[i as int]);
        let c = text[i];
        cur.push(c);
        if c == '\n' || c == '\r' {
            let line = sanitize_line_exec(cur.as_slice());
            push_all(&mut out, line.as_slice());
            let ghost lines = prior.0.push(cur@);
            assert(lines.map_values(|l: Seq<char>| sanitize_line(l)).drop_last() =~= prior.0.map_values(|l: Seq<char>| sanitize_line(l)));
            cur = Vec::new();
        }
        i = i + 1;
    }
    assert(s.take(text.len() as int) =~= s);
    if cur.len() > 0 {
        let ghost prior = line_state(s);
        let line = sanitize_line_exec(cur.as_slice());
        push_all(&mut out, line.as_slice());
        let ghost lines = prior.0.push(cur@);
        assert(lines.map_values(|l: Seq<char>| sanitize_line(l)).drop_last() =~= prior.0.map_values(|l: Seq<char>| sanitize_line(l)));
    }
    string_of(out.as_slice())
}

/// Sanitize and parse a header's bytes, keeping the body's offset.
pub fn parse_compact_header(bytes: &[u8], body_offset: u64) -> (r: Result<CompactHeader, VcdError>)
    ensures
        match crate::catalog::vcd_header_parse(sanitized_text(bytes@)) {
            Err(m) => r matches Err(VcdError::Parse(e)) && e@ == m,
            Ok((items, ts)) => match r {
                Ok(h) => crate::catalog::catalog_builds(crate::catalog::flatten(items)) && h.catalog.wf()
                    && crate::catalog::holds_vars(h.catalog.signal_seq(), crate::catalog::walk(crate::catalog::flatten(items)).1)
                    && h.timescale == ts && h.body_offset == body_offset,
                Err(_) => !crate::catalog::catalog_builds(crate::catalog::flatten(items)),
            },
        },
{
    let text = sanitize_header(bytes);
    parse_sanitized_header(text.as_str(), body_offset)
}

/// `needle` occurs in `hay` at position `i`.
pub open spec fn bytes_at(hay: Seq<u8>, needle: Seq<u8>, i: int) -> bool {
    0 <= i && i + needle.len() <= hay.len() && hay.subrange(i, i + needle.len()) == needle
}

/// The bytes of `$enddefinitions`.
pub open spec fn enddefinitions_bytes() -> Seq<u8> {
    seq![36u8, 101u8, 110u8, 100u8, 100u8, 101u8, 102u8, 105u8, 110u8, 105u8, 116u8, 105u8, 111u8, 110u8, 115u8]
}

/// A header line that holds `$enddefinitions` ends the header.
pub open spec fn ends_header(line: Seq<u8>) -> bool {
    exists|i: int| bytes_at(line, enddefinitions_bytes(), i)
}

fn matches_at(hay: &[u8], needle: &[u8], i: usize) -> (b: bool)
    requires
        i + needle.len() <= hay.len(),
    ensures
        b == bytes_at(hay@, needle@, i as int),
{
    let mut k: usize = 0;
    while k < needle.len()
        invariant
            k <= needle.len(),
            i + needle.len() <= hay.len(),
            forall|j: int| 0 <= j < k ==> hay@[i + j] == needle@[j],
        decreases needle.len() - k,
    {
        if hay[i + k] != needle[k] {
            assert(hay@.subrange(i as int, i + needle.len())[k as int] != needle@[k as int]);
            return false;
        }
        k = k + 1;
    }
    assert(hay@.subrange(i as int, i + needle.len()) =~= needle@);
    true
}

/// Whether a header line ends the definitions.
pub fn ends_definitions(line: &[u8]) -> (b: bool)
    ensures
        b == ends_header(line@),
{
    let needle: [u8; 15] = [36, 101, 110, 100, 100, 101, 102, 105, 110, 105, 116, 105, 111, 110, 115];
    assert(needle@ =~= enddefinitions_bytes());
    if line.len() < 15 {
        assert forall|i: int| !bytes_at(line@, enddefinitions_bytes(), i) by {}
        return false;
    }
    let last = line.len() - 15;
    let mut i: usize = 0;
    while i <= last
        invariant
            last == line.len() - 15,
            needle@ == enddefinitions_bytes(),
            forall|j: int| 0 <= j < i ==> !bytes_at(line@, enddefinitions_bytes(), j),
        decreases last + 1 - i,
    {
        if matches_at(line, needle.as_slice(), i) {
            return true;
        }
        i = i + 1;
    }
    assert forall|j: int| !bytes_at(line@, enddefinitions_bytes(), j) by {
        if 0 <= j && j + 15 <= line@.len() {
            assert(j < i);
        }
    }
    false
}

} // verus!
