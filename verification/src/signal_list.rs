//! Signal list files: one hierarchical name per line, `#` starts a comment.

use vstd::prelude::*;

use crate::text::{chars_of, string_of, trim, trim_chars};

verus! {

/// The characters of `s` before its first `#`.
pub open spec fn before_hash(s: Seq<char>) -> Seq<char>
    decreases s.len(),
{
    if s.len() == 0 || s[0] == '#' {
        Seq::empty()
    } else {
        seq![s[0]] + before_hash(s.drop_first())
    }
}

/// The name a line contributes: lines that are blank or start with `#`
/// (after trimming) contribute none; otherwise the trimmed text before the
/// first `#`, if that is not empty.
pub open spec fn line_entry(line: Seq<char>) -> Option<Seq<char>> {
    let t = trim_chars(line);
    if t.len() == 0 || t[0] == '#' {
        None
    } else {
        let name = trim_chars(before_hash(t));
        if name.len() == 0 {
            None
        } else {
            Some(name)
        }
    }
}

/// `names` extended by what `line` contributes.
pub open spec fn push_entry(names: Seq<Seq<char>>, line: Seq<char>) -> Seq<Seq<char>> {
    match line_entry(line) {
        Some(name) => names.push(name),
        None => names,
    }
}

/// Reading `s` in order: the names of the completed lines and the open line.
pub open spec fn list_state(s: Seq<char>) -> (Seq<Seq<char>>, Seq<char>)
    decreases s.len(),
{
    if s.len() == 0 {
        (Seq::empty(), Seq::empty())
    } else {
        let (names, cur) = list_state(s.drop_last());
        if s.last() == '\n' {
            (push_entry(names, cur), Seq::empty())
        } else {
            (names, cur.push(s.last()))
        }
    }
}

/// The names a signal list file declares, in file order.
pub open spec fn signal_list(s: Seq<char>) -> Seq<Seq<char>> {
    let (names, cur) = list_state(s);
    push_entry(names, cur)
}

proof fn lemma_before_hash(s: Seq<char>, k: int)
    requires
        0 <= k <= s.len(),
        forall|j: int| 0 <= j < k ==> s[j] != '#',
        k == s.len() || s[k] == '#',
    ensures
        before_hash(s) == s.take(k),
    decreases s.len(),
{
    if s.len() == 0 || s[0] == '#' {
        assert(s.take(k) =~= Seq::<char>::empty());
    } else {
        lemma_before_hash(s.drop_first(), k - 1);
        assert(seq![s[0]] + s.drop_first().take(k - 1) =~= s.take(k));
    }
}

fn line_entry_exec(line: &[char]) -> (r: Option<String>)
    ensures
        match r {
            Some(name) => line_entry(line@) == Some(name@),
            None => line_entry(line@) is None,
        },
{
    let t = trim(line);
    if t.len() == 0 || t[0] == '#' {
        return None;
    }
    let mut k: usize = 0;
    while k < t.len() && t[k] != '#'
        invariant
            k <= t.len(),
            forall|j: int| 0 <= j < k ==> t@[j] != '#',
        decreases t.len() - k,
    {
        k = k + 1;
    }
    proof {
        lemma_before_hash(t@, k as int);
    }
    let head = vstd::slice::slice_subrange(t.as_slice(), 0, k);
    let name = trim(head);
    if name.len() == 0 {
        None
    } else {
        Some(string_of(name.as_slice()))
    }
}

/// Parse the text of a signal list file.
pub fn parse_signal_list(content: &str) -> (out: Vec<String>)
    ensures
        out@.map_values(|n: String| n@) == signal_list(content@),
{
    let chars = chars_of(content);
    let mut names: Vec<String> = Vec::new();
    let mut cur: Vec<char> = Vec::new();
    let mut i: usize = 0;
    while i < chars.len()
        invariant
            i <= chars.len(),
            chars@ == content@,
            list_state(chars@.take(i as int)) == (names@.map_values(|n: String| n@), cur@),
        decreases chars.len() - i,
    {
        let c = chars[i];
        proof {
            assert(chars@.take(i + 1).drop_last() =~= chars@.take(i as int));
        }
        if c == '\n' {
            let entry = line_entry_exec(cur.as_slice());
            match entry {
                Some(name) => {
                    names.push(name);
                },
                None => {},
            }
            cur = Vec::new();
        } else {
            cur.push(c);
        }
        i = i + 1;
        assert(list_state(chars@.take(i as int)) == (names@.map_values(|n: String| n@), cur@));
    }
    let entry = line_entry_exec(cur.as_slice());
    match entry {
        Some(name) => {
            names.push(name);
        },
        None => {},
    }
    assert(chars@.take(chars.len() as int) =~= chars@);
    names
}

} // verus!
