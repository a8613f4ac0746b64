//! Compact signal catalog built from a VCD header's declarations.

use vstd::hash_map::StringHashMap;
use vstd::prelude::*;

use crate::{concat, IdCode, Timescale, VcdError};

verus! {

/// A `$var` declaration.
#[derive(Debug, Clone)]
pub struct HeaderVar {
    /// The type keyword as the header writes it (`wire`, `reg`, ...).
    pub var_type: String,
    pub size: u32,
    pub code: IdCode,
    pub reference: String,
    /// Display text of the optional bit index or range (e.g. `[7:0]`).
    pub index: Option<String>,
}

/// One header declaration, in document order: scopes open and close around
/// the variables they contain.
#[derive(Debug, Clone)]
pub enum HeaderDecl {
    ScopeBegin(String),
    ScopeEnd,
    Var(HeaderVar),
}

/// `prefix.component`, or `component` at the top level.
pub open spec fn join_name(prefix: Seq<char>, component: Seq<char>) -> Seq<char> {
    if prefix.len() == 0 {
        component
    } else {
        prefix + seq!['.'] + component
    }
}

/// Reference plus optional index text of a variable.
pub open spec fn var_local_name(var: HeaderVar) -> Seq<char> {
    var.reference@ + match var.index {
        Some(index) => index@,
        None => Seq::empty(),
    }
}

/// One open scope during the header walk: its component and full prefix.
pub type OpenScope = (Seq<char>, Seq<char>);

/// A declared variable as the walk sees it: full name and declaration.
pub type DeclaredVar = (Seq<char>, HeaderVar);

/// The hierarchical prefix in effect for a stack of open scopes.
pub open spec fn top_prefix(stack: Seq<OpenScope>) -> Seq<char> {
    if stack.len() == 0 {
        Seq::empty()
    } else {
        stack.last().1
    }
}

/// The header walk after `decls`: the open scopes (innermost last), the
/// variables declared so far with their full names, and how many scopes were
/// opened. A scope end with no open scope is ignored.
pub open spec fn walk(decls: Seq<HeaderDecl>) -> (Seq<OpenScope>, Seq<DeclaredVar>, nat)
    decreases decls.len(),
{
    if decls.len() == 0 {
        (Seq::empty(), Seq::empty(), 0)
    } else {
        let (stack, vars, scopes) = walk(decls.drop_last());
        match decls.last() {
            HeaderDecl::ScopeBegin(id) => (
                stack.push((id@, join_name(top_prefix(stack), id@))),
                vars,
                scopes + 1,
            ),
            HeaderDecl::ScopeEnd => (
                if stack.len() > 0 {
                    stack.drop_last()
                } else {
                    stack
                },
                vars,
                scopes,
            ),
            HeaderDecl::Var(var) => (
                stack,
                vars.push((join_name(top_prefix(stack), var_local_name(var)), var)),
                scopes,
            ),
        }
    }
}

/// Full names of the variables `decls` declares, in declaration order.
pub open spec fn declared_names(decls: Seq<HeaderDecl>) -> Seq<Seq<char>> {
    walk(decls).1.map_values(|v: DeclaredVar| v.0)
}

/// No name occurs twice.
pub open spec fn distinct(names: Seq<Seq<char>>) -> bool {
    forall|i: int, j: int| 0 <= i < j < names.len() ==> names[i] != names[j]
}

/// Largest number of signals or scopes a catalog can key.
pub open spec fn catalog_capacity() -> nat {
    u32::MAX as nat + 1
}

pub open spec fn capacity_error_text() -> Seq<char> {
    "VCD signal catalog exceeds supported size"@
}

/// The error reported when a header declares more signals or scopes than a
/// catalog can key.
pub fn catalog_capacity_error() -> (e: VcdError)
    ensures
        e matches VcdError::Parse(m) && m@ == capacity_error_text(),
{
    VcdError::Parse(String::from_str("VCD signal catalog exceeds supported size"))
}

/// Signal metadata held by a catalog.
#[derive(Debug, Clone)]
pub struct SignalMeta {
    pub id_code: IdCode,
    pub full_name: String,
    pub size: u32,
    pub var_type: String,
    pub scope: Option<usize>,
}

/// One scope of the catalog's scope arena.
#[derive(Debug, Clone)]
pub struct ScopeNode {
    pub component: String,
    pub parent: Option<usize>,
}

/// Compact catalog: signals in declaration order, a name index, identifier
/// aliases in declaration order, and a scope arena.
pub struct SignalCatalog {
    signals: Vec<SignalMeta>,
    by_name: StringHashMap<usize>,
    aliases_by_id: StringHashMap<Vec<usize>>,
    scopes: Vec<ScopeNode>,
}

/// Filtering by a predicate that holds of every element keeps them all.
proof fn lemma_filter_all(s: Seq<Seq<char>>, pred: spec_fn(Seq<char>) -> bool)
    requires
        forall|n: Seq<char>| #[trigger] pred(n),
    ensures
        s.filter(pred) == s,
    decreases s.len(),
{
    reveal(Seq::filter);
    if s.len() > 0 {
        lemma_filter_all(s.drop_last(), pred);
        assert(s.drop_last().push(s.last()) =~= s);
    } else {
        assert(s.filter(pred) =~= s);
    }
}

/// Names of a signal sequence.
pub open spec fn meta_names(signals: Seq<SignalMeta>) -> Seq<Seq<char>> {
    signals.map_values(|s: SignalMeta| s.full_name@)
}

/// `keys` lists, in increasing order, exactly the positions of `signals`
/// whose identifier code is `id`.
pub open spec fn alias_list(signals: Seq<SignalMeta>, id: Seq<char>, keys: Seq<usize>) -> bool {
    &&& forall|a: int, b: int| 0 <= a < b < keys.len() ==> keys[a] < keys[b]
    &&& forall|a: int|
        0 <= a < keys.len() ==> keys[a] < signals.len() && signals[keys[a] as int].id_code.text@
            == id
    &&& forall|i: int|
        0 <= i < signals.len() && signals[i].id_code.text@ == id ==> keys.contains(i as usize)
}

impl SignalCatalog {
    pub closed spec fn signal_seq(&self) -> Seq<SignalMeta> {
        self.signals@
    }

    pub closed spec fn scope_seq(&self) -> Seq<ScopeNode> {
        self.scopes@
    }

    pub closed spec fn name_index(&self) -> Map<Seq<char>, usize> {
        self.by_name@
    }

    pub closed spec fn alias_index(&self) -> Map<Seq<char>, Vec<usize>> {
        self.aliases_by_id@
    }

    /// Names are distinct and indexed; aliases list every signal of an
    /// identifier in order; scope parents precede their children.
    pub open spec fn wf(&self) -> bool {
        let signals = self.signal_seq();
        &&& signals.len() <= catalog_capacity()
        &&& self.scope_seq().len() <= catalog_capacity()
        &&& distinct(meta_names(signals))
        &&& forall|i: int|
            0 <= i < signals.len() ==> self.name_index().contains_key(
                #[trigger] signals[i].full_name@,
            ) && self.name_index()[signals[i].full_name@] == i
        &&& forall|k: Seq<char>|
            #[trigger] self.name_index().contains_key(k) ==> self.name_index()[k] < signals.len()
                && signals[self.name_index()[k] as int].full_name@ == k
        &&& forall|i: int|
            0 <= i < signals.len() ==> self.alias_index().contains_key(
                #[trigger] signals[i].id_code.text@,
            )
        &&& forall|k: Seq<char>|
            #[trigger] self.alias_index().contains_key(k) ==> alias_list(
                signals,
                k,
                self.alias_index()[k]@,
            )
        &&& forall|i: int|
            0 <= i < signals.len() ==> (#[trigger] signals[i].scope matches Some(s) ==> s
                < self.scope_seq().len())
        &&& forall|j: int|
            0 <= j < self.scope_seq().len() ==> (#[trigger] self.scope_seq()[j].parent matches Some(
                p,
            ) ==> p < j)
    }

    /// The catalog's names in declaration order.
    pub open spec fn names(&self) -> Seq<Seq<char>> {
        meta_names(self.signal_seq())
    }

    pub fn len(&self) -> (n: usize)
        ensures
            n == self.signal_seq().len(),
    {
        self.signals.len()
    }

    pub fn is_empty(&self) -> (b: bool)
        ensures
            b == (self.signal_seq().len() == 0),
    {
        self.signals.len() == 0
    }

    /// Signal at a catalog key.
    pub fn signal(&self, key: usize) -> (s: &SignalMeta)
        requires
            key < self.signal_seq().len(),
        ensures
            *s == self.signal_seq()[key as int],
    {
        &self.signals[key]
    }

    /// Key of the signal with this full name.
    pub fn key_by_name(&self, name: &str) -> (k: Option<usize>)
        requires
            self.wf(),
        ensures
            match k {
                Some(key) => key < self.signal_seq().len() && self.signal_seq()[key as int].full_name@
                    == name@,
                None => !self.names().contains(name@),
            },
    {
        match self.by_name.get(name) {
            Some(key) => Some(*key),
            None => {
                proof {
                    if self.names().contains(name@) {
                        let i = choose|i: int|
                            0 <= i < self.names().len() && self.names()[i] == name@;
                        assert(self.signal_seq()[i].full_name@ == name@);
                    }
                }
                None
            },
        }
    }

    /// Keys of every signal declared with identifier `id`, in declaration order.
    pub fn aliases(&self, id: &str) -> (keys: Vec<usize>)
        requires
            self.wf(),
        ensures
            alias_list(self.signal_seq(), id@, keys@),
    {
        match self.aliases_by_id.get(id) {
            Some(keys) => {
                let out = vstd::slice::slice_to_vec(keys.as_slice());
                assert(self.alias_index().contains_key(id@));
                assert(out@ == self.alias_index()[id@]@);
                out
            },
            None => {
                proof {
                    assert forall|i: int|
                        0 <= i < self.signal_seq().len() && self.signal_seq()[i].id_code.text@
                            == id@ implies Seq::<usize>::empty().contains(i as usize) by {
                        assert(self.alias_index().contains_key(self.signal_seq()[i].id_code.text@));
                    }
                }
                Vec::new()
            },
        }
    }

    /// Scope arena entry.
    pub fn scope(&self, key: usize) -> (s: &ScopeNode)
        requires
            key < self.scope_seq().len(),
        ensures
            *s == self.scope_seq()[key as int],
    {
        &self.scopes[key]
    }

    pub fn scope_count(&self) -> (n: usize)
        ensures
            n == self.scope_seq().len(),
    {
        self.scopes.len()
    }
}


/// `signal` is the catalog entry of declared variable `var`.
pub open spec fn entry_of(signal: SignalMeta, var: DeclaredVar) -> bool {
    &&& signal.full_name@ == var.0
    &&& signal.id_code.text@ == var.1.code.text@
    &&& signal.size == var.1.size
    &&& signal.var_type@ == var.1.var_type@
}

/// The catalog holds exactly the declared variables, in order.
pub open spec fn holds_vars(signals: Seq<SignalMeta>, vars: Seq<DeclaredVar>) -> bool {
    &&& signals.len() == vars.len()
    &&& forall|k: int| 0 <= k < vars.len() ==> entry_of(#[trigger] signals[k], vars[k])
}

/// The first `k` names are distinct and name `k` repeats one of them.
pub open spec fn first_repeat(names: Seq<Seq<char>>, k: int) -> bool {
    &&& 0 <= k < names.len()
    &&& distinct(names.take(k))
    &&& names.take(k).contains(names[k])
}

/// Building a catalog from `decls` succeeds: names are distinct and the
/// signal and scope counts fit the catalog's keys.
pub open spec fn catalog_builds(decls: Seq<HeaderDecl>) -> bool {
    &&& distinct(declared_names(decls))
    &&& walk(decls).1.len() <= catalog_capacity()
    &&& walk(decls).2 <= catalog_capacity()
}

proof fn lemma_walk_prefix(decls: Seq<HeaderDecl>, k: int)
    requires
        0 <= k <= decls.len(),
    ensures
        walk(decls.take(k)).1.len() <= walk(decls).1.len(),
        walk(decls.take(k)).2 <= walk(decls).2,
        walk(decls.take(k)).1 == walk(decls).1.take(walk(decls.take(k)).1.len() as int),
    decreases decls.len() - k,
{
    if k < decls.len() {
        assert(decls.drop_last().take(k) == decls.take(k));
        lemma_walk_prefix(decls.drop_last(), k);
        assert(walk(decls).1.take(walk(decls.drop_last()).1.len() as int) =~= walk(decls.drop_last()).1);
        assert(walk(decls).1.take(walk(decls.take(k)).1.len() as int) =~= walk(decls.drop_last()).1.take(walk(decls.take(k)).1.len() as int));
    } else {
        assert(decls.take(k) == decls);
        assert(walk(decls).1.take(walk(decls).1.len() as int) =~= walk(decls).1);
    }
}

/// `prefix.component`, or `component` under an empty prefix.
fn join_exec(prefix: &str, component: &str) -> (s: String)
    ensures
        s@ == join_name(prefix@, component@),
{
    if prefix.is_empty() {
        String::from_str(component)
    } else {
        proof {
            reveal_strlit(".");
        }
        let mut p = String::from_str(prefix);
        p.append(".");
        p.append(component);
        p
    }
}

/// Adding a signal with a fresh name keeps a catalog well formed.
proof fn lemma_add_signal(c: SignalCatalog, c2: SignalCatalog, meta: SignalMeta, keys: Vec<usize>)
    requires
        c.wf(),
        c.signals@.len() <= u32::MAX,
        !c.name_index().contains_key(meta.full_name@),
        meta.scope matches Some(s) ==> s < c.scopes@.len(),
        c2.signals@ == c.signals@.push(meta),
        c2.scopes@ == c.scopes@,
        c2.by_name@ == c.by_name@.insert(meta.full_name@, c.signals@.len() as usize),
        c2.aliases_by_id@ == c.aliases_by_id@.insert(meta.id_code.text@, keys),
        c.alias_index().contains_key(meta.id_code.text@) ==> keys@ == c.alias_index()[meta.id_code.text@]@.push(c.signals@.len() as usize),
        !c.alias_index().contains_key(meta.id_code.text@) ==> keys@ == seq![c.signals@.len() as usize],
    ensures
        c2.wf(),
        c2.names() == c.names().push(meta.full_name@),
{
    let key = c.signals@.len() as usize;
    let code = meta.id_code.text@;
    let s1 = c.signals@;
    let s2 = c2.signals@;
    assert(c2.names() =~= c.names().push(meta.full_name@));
    assert forall|i: int| 0 <= i < s1.len() implies s1[i].full_name@ != meta.full_name@ by {
        assert(c.name_index().contains_key(s1[i].full_name@));
    }
    assert(distinct(meta_names(s2))) by {
        assert forall|i: int, j: int| 0 <= i < j < meta_names(s2).len() implies meta_names(s2)[i] != meta_names(s2)[j] by {
            if j < s1.len() {
                assert(meta_names(s1)[i] != meta_names(s1)[j]);
            }
        }
    }
    assert forall|i: int| 0 <= i < s2.len() implies c2.name_index().contains_key(#[trigger] s2[i].full_name@)
        && c2.name_index()[s2[i].full_name@] == i by {
        if i < s1.len() {
            assert(c.name_index().contains_key(s1[i].full_name@));
        }
    }
    assert forall|k: Seq<char>| #[trigger] c2.name_index().contains_key(k) implies c2.name_index()[k] < s2.len()
        && s2[c2.name_index()[k] as int].full_name@ == k by {
        if k != meta.full_name@ {
            assert(c.name_index().contains_key(k));
        }
    }
    assert forall|i: int| 0 <= i < s2.len() implies c2.alias_index().contains_key(#[trigger] s2[i].id_code.text@) by {
        if i < s1.len() && s1[i].id_code.text@ != code {
            assert(c.alias_index().contains_key(s1[i].id_code.text@));
        }
    }
    assert forall|k: Seq<char>| #[trigger] c2.alias_index().contains_key(k) implies alias_list(s2, k, c2.alias_index()[k]@) by {
        if k == code {
            let ks = keys@;
            if c.alias_index().contains_key(code) {
                let old = c.alias_index()[code]@;
                assert(alias_list(s1, code, old));
                assert(ks == old.push(key));
                assert forall|a: int, b: int| 0 <= a < b < ks.len() implies ks[a] < ks[b] by {
                    if b == ks.len() - 1 {
                        assert(old[a] < s1.len());
                    }
                }
                assert forall|a: int| 0 <= a < ks.len() implies ks[a] < s2.len() && s2[ks[a] as int].id_code.text@ == k by {
                    if a < old.len() {
                        assert(old[a] < s1.len());
                    }
                }
                assert forall|i: int| 0 <= i < s2.len() && s2[i].id_code.text@ == k implies ks.contains(i as usize) by {
                    if i < s1.len() {
                        assert(old.contains(i as usize));
                        let w = choose|w: int| 0 <= w < old.len() && old[w] == i as usize;
                        assert(ks[w] == i as usize);
                    } else {
                        assert(ks[ks.len() - 1] == i as usize);
                    }
                }
            } else {
                assert forall|i: int| 0 <= i < s2.len() && s2[i].id_code.text@ == k implies ks.contains(i as usize) by {
                    if i < s1.len() {
                        assert(c.alias_index().contains_key(s1[i].id_code.text@));
                    } else {
                        assert(ks[0] == i as usize);
                    }
                }
            }
        } else {
            assert(c.alias_index().contains_key(k));
            let ks = c.alias_index()[k]@;
            assert(alias_list(s1, k, ks));
            assert(c2.alias_index()[k]@ == ks);
            assert forall|a: int| 0 <= a < ks.len() implies ks[a] < s2.len() && s2[ks[a] as int].id_code.text@ == k by {
                assert(ks[a] < s1.len());
            }
        }
    }
    assert forall|i: int| 0 <= i < s2.len() implies (#[trigger] s2[i].scope matches Some(s) ==> s < c2.scope_seq().len()) by {
        if i < s1.len() {
            assert(s1[i].scope matches Some(s) ==> s < c.scope_seq().len());
        }
    }
}

/// Builder state: the catalog so far plus the open scopes' keys and prefixes.
struct CatalogBuilder {
    signals: Vec<SignalMeta>,
    by_name: StringHashMap<usize>,
    aliases_by_id: StringHashMap<Vec<usize>>,
    scopes: Vec<ScopeNode>,
    open_keys: Vec<usize>,
    open_prefixes: Vec<String>,
}

impl CatalogBuilder {
    spec fn catalog_view(&self) -> SignalCatalog {
        SignalCatalog {
            signals: self.signals,
            by_name: self.by_name,
            aliases_by_id: self.aliases_by_id,
            scopes: self.scopes,
        }
    }

    /// The builder agrees with the walk of the declarations read so far.
    spec fn tracks(&self, w: (Seq<OpenScope>, Seq<DeclaredVar>, nat)) -> bool {
        &&& self.catalog_view().wf()
        &&& holds_vars(self.signals@, w.1)
        &&& self.scopes@.len() == w.2
        &&& self.open_prefixes@.len() == w.0.len()
        &&& self.open_keys@.len() == w.0.len()
        &&& forall|d: int| 0 <= d < w.0.len() ==> (#[trigger] self.open_prefixes@[d])@ == w.0[d].1
        &&& forall|d: int| 0 <= d < w.0.len() ==> #[trigger] self.open_keys@[d] < self.scopes@.len()
    }
}

impl SignalCatalog {
    /// Build the catalog of a header's declarations: every variable in
    /// declaration order under its hierarchical name, aliases grouped by
    /// identifier code, and the scope arena.
    pub fn from_decls(decls: &Vec<HeaderDecl>) -> (r: Result<SignalCatalog, VcdError>)
        ensures
            r is Ok <==> catalog_builds(decls@),
            match r {
                Ok(c) => c.wf() && holds_vars(c.signal_seq(), walk(decls@).1) && c.scope_seq().len()
                    == walk(decls@).2,
                Err(VcdError::DuplicateSignal(name)) => exists|k: int|
                    first_repeat(declared_names(decls@), k) && declared_names(decls@)[k] == name@,
                Err(VcdError::Parse(message)) => message@ == capacity_error_text() && (walk(
                    decls@,
                ).1.len() > catalog_capacity() || walk(decls@).2 > catalog_capacity()),
                Err(_) => false,
            },
    {
        let mut b = CatalogBuilder {
            signals: Vec::new(),
            by_name: StringHashMap::new(),
            aliases_by_id: StringHashMap::new(),
            scopes: Vec::new(),
            open_keys: Vec::new(),
            open_prefixes: Vec::new(),
        };
        let mut i: usize = 0;
        proof {
            assert(decls@.take(0) =~= Seq::<HeaderDecl>::empty());
            assert(b.catalog_view().names() =~= Seq::<Seq<char>>::empty());
        }
        while i < decls.len()
            invariant
                i <= decls.len(),
                b.tracks(walk(decls@.take(i as int))),
                distinct(walk(decls@.take(i as int)).1.map_values(|v: DeclaredVar| v.0)),
            decreases decls.len() - i,
        {
            let ghost prior = walk(decls@.take(i as int));
            proof {
                assert(decls@.take(i + 1).drop_last() == decls@.take(i as int));
                assert(decls@.take(i + 1).last() == decls@[i as int]);
            }
            match &decls[i] {
                HeaderDecl::ScopeBegin(id) => {
                    if b.scopes.len() > 4294967295usize {
                        proof {
                            lemma_walk_prefix(decls@, i + 1);
                        }
                        return Err(catalog_capacity_error());
                    }
                    let parent = if b.open_keys.len() == 0 {
                        None
                    } else {
                        Some(b.open_keys[b.open_keys.len() - 1])
                    };
                    let prefix = if b.open_prefixes.len() == 0 {
                        join_exec("", id.as_str())
                    } else {
                        join_exec(b.open_prefixes[b.open_prefixes.len() - 1].as_str(), id.as_str())
                    };
                    proof {
                        reveal_strlit("");
                    }
                    let ghost next = walk(decls@.take(i + 1));
                    assert(prefix@ == join_name(top_prefix(prior.0), id@));
                    assert(next.0 == prior.0.push((id@, prefix@)));
                    let ghost before = b.catalog_view();
                    let ghost old_prefixes = b.open_prefixes@;
                    let key = b.scopes.len();
                    b.scopes.push(ScopeNode { component: id.clone(), parent });
                    b.open_keys.push(key);
                    b.open_prefixes.push(prefix);
                    proof {
                        let after = b.catalog_view();
                        assert(after.names() == before.names());
                        assert forall|j: int| 0 <= j < after.scope_seq().len() implies (#[trigger] after.scope_seq()[j].parent matches Some(p) ==> p < j) by {
                            if j < before.scope_seq().len() {
                                assert(before.scope_seq()[j].parent matches Some(p) ==> p < j);
                            }
                        }
                        assert forall|k: int| 0 <= k < after.signal_seq().len() implies (#[trigger] after.signal_seq()[k].scope matches Some(s) ==> s < after.scope_seq().len()) by {
                            assert(before.signal_seq()[k].scope matches Some(s) ==> s < before.scope_seq().len());
                        }
                        assert(after.wf());
                        assert forall|d: int| 0 <= d < next.0.len() implies (#[trigger] b.open_prefixes@[d])@ == next.0[d].1 by {
                            if d < prior.0.len() {
                                assert(b.open_prefixes@[d] == old_prefixes[d]);
                            }
                        }
                    }
                },
                HeaderDecl::ScopeEnd => {
                    if b.open_keys.len() > 0 {
                        b.open_keys.pop();
                        b.open_prefixes.pop();
                    }
                    proof {
                        let next = walk(decls@.take(i + 1));
                        assert(b.catalog_view().names() == prior.1.map_values(|v: DeclaredVar| v.0));
                    }
                },
                HeaderDecl::Var(var) => {
                    if b.signals.len() > 4294967295usize {
                        proof {
                            lemma_walk_prefix(decls@, i + 1);
                        }
                        return Err(catalog_capacity_error());
                    }
                    let mut local = var.reference.clone();
                    match &var.index {
                        Some(index) => local.append(index.as_str()),
                        None => {},
                    }
                    assert(local@ == var_local_name(*var));
                    let full_name = if b.open_prefixes.len() == 0 {
                        join_exec("", local.as_str())
                    } else {
                        join_exec(b.open_prefixes[b.open_prefixes.len() - 1].as_str(), local.as_str())
                    };
                    proof {
                        reveal_strlit("");
                    }
                    assert(full_name@ == join_name(top_prefix(prior.0), var_local_name(*var)));
                    let ghost names = prior.1.map_values(|v: DeclaredVar| v.0);
                    let ghost next = walk(decls@.take(i + 1));
                    assert(next.1 == prior.1.push((full_name@, *var)));
                    assert(next.1.map_values(|v: DeclaredVar| v.0) =~= names.push(full_name@));
                    if b.by_name.contains_key(full_name.as_str()) {
                        proof {
                            let j = b.by_name@[full_name@] as int;
                            assert(b.catalog_view().name_index().contains_key(full_name@));
                            assert(b.signals@[j].full_name@ == full_name@);
                            assert(entry_of(b.signals@[j], prior.1[j]));
                            assert(names[j] == full_name@);
                            let all = declared_names(decls@);
                            lemma_walk_prefix(decls@, i + 1);
                            assert(all.take(names.len() as int) =~= names) by {
                                assert(walk(decls@).1.take(next.1.len() as int) == next.1);
                                assert(walk(decls@).1.take(names.len() as int) =~= prior.1);
                            }
                            assert(all[names.len() as int] == full_name@) by {
                                assert(walk(decls@).1.take(next.1.len() as int) == next.1);
                                assert(walk(decls@).1[names.len() as int] == next.1[names.len() as int]);
                            }
                            assert(names.contains(full_name@));
                            assert(first_repeat(all, names.len() as int));
                        }
                        return Err(VcdError::DuplicateSignal(full_name));
                    }
                    let key = b.signals.len();
                    let scope = if b.open_keys.len() == 0 {
                        None
                    } else {
                        Some(b.open_keys[b.open_keys.len() - 1])
                    };
                    let code = var.code.text.clone();
                    let mut keys = match b.aliases_by_id.get(code.as_str()) {
                        Some(existing) => vstd::slice::slice_to_vec(existing.as_slice()),
                        None => Vec::new(),
                    };
                    keys.push(key);
                    let ghost before = b.catalog_view();
                    let meta = SignalMeta {
                        id_code: IdCode { text: code.clone() },
                        full_name: full_name.clone(),
                        size: var.size,
                        var_type: var.var_type.clone(),
                        scope,
                    };
                    b.signals.push(meta);
                    b.by_name.insert(full_name, key);
                    b.aliases_by_id.insert(code, keys);
                    proof {
                        lemma_add_signal(before, b.catalog_view(), b.signals@.last(), keys);
                        assert(b.catalog_view().names() =~= next.1.map_values(|v: DeclaredVar| v.0));
                        assert(holds_vars(b.signals@, next.1)) by {
                            assert forall|k: int| 0 <= k < next.1.len() implies entry_of(#[trigger] b.signals@[k], next.1[k]) by {
                                if k < prior.1.len() {
                                    assert(entry_of(before.signals@[k], prior.1[k]));
                                }
                            }
                        }
                    }
                },
            }
            i = i + 1;
        }
        proof {
            assert(decls@.take(decls@.len() as int) == decls@);
        }
        Ok(
            SignalCatalog {
                signals: b.signals,
                by_name: b.by_name,
                aliases_by_id: b.aliases_by_id,
                scopes: b.scopes,
            },
        )
    }
}


/// Components of the scopes from the root down to `key`, following parent
/// links in the arena.
pub open spec fn arena_path(scopes: Seq<ScopeNode>, key: int) -> Seq<Seq<char>>
    decreases key,
{
    if 0 <= key < scopes.len() {
        match scopes[key].parent {
            Some(p) => if p < key {
                arena_path(scopes, p as int).push(scopes[key].component@)
            } else {
                seq![scopes[key].component@]
            },
            None => seq![scopes[key].component@],
        }
    } else {
        Seq::empty()
    }
}

/// A signal as callers outside the catalog see it.
#[derive(Debug, Clone, PartialEq, Eq)]
pub struct Signal {
    pub name: String,
    pub id_code: IdCode,
    pub size: u32,
    pub type_: String,
    pub scope: Vec<String>,
}

pub open spec fn scope_path(scopes: Seq<ScopeNode>, scope: Option<usize>) -> Seq<Seq<char>> {
    match scope {
        Some(k) => arena_path(scopes, k as int),
        None => Seq::empty(),
    }
}

impl SignalCatalog {
    fn path_of(&self, key: usize) -> (out: Vec<String>)
        requires
            key < self.scope_seq().len(),
        ensures
            out@.map_values(|c: String| c@) == arena_path(self.scope_seq(), key as int),
        decreases key,
    {
        let node = &self.scopes[key];
        let mut out = match node.parent {
            Some(p) => if p < key {
                self.path_of(p)
            } else {
                Vec::new()
            },
            None => Vec::new(),
        };
        let ghost prior = out@.map_values(|c: String| c@);
        out.push(node.component.clone());
        assert(out@.map_values(|c: String| c@) =~= prior.push(node.component@));
        out
    }

    /// Components of a signal's enclosing scopes, outermost first.
    pub fn scope_components(&self, scope: Option<usize>) -> (out: Vec<String>)
        requires
            self.wf(),
            scope matches Some(k) ==> k < self.scope_seq().len(),
        ensures
            out@.map_values(|c: String| c@) == scope_path(self.scope_seq(), scope),
    {
        match scope {
            Some(k) => self.path_of(k),
            None => {
                let out: Vec<String> = Vec::new();
                assert(out@.map_values(|c: String| c@) =~= Seq::<Seq<char>>::empty());
                out
            },
        }
    }

    /// Every signal, in declaration order, with its scope path.
    pub fn to_owned_signals(&self) -> (out: Vec<Signal>)
        requires
            self.wf(),
        ensures
            out@.len() == self.signal_seq().len(),
            forall|k: int|
                0 <= k < out@.len() ==> {
                    let s = #[trigger] out@[k];
                    let m = self.signal_seq()[k];
                    &&& s.name@ == m.full_name@
                    &&& s.id_code.text@ == m.id_code.text@
                    &&& s.size == m.size
                    &&& s.type_@ == m.var_type@
                    &&& s.scope@.map_values(|c: String| c@) == scope_path(self.scope_seq(), m.scope)
                },
    {
        let mut out: Vec<Signal> = Vec::new();
        let mut i: usize = 0;
        while i < self.signals.len()
            invariant
                self.wf(),
                i <= self.signals.len(),
                out@.len() == i,
                forall|k: int|
                    0 <= k < i ==> {
                        let s = #[trigger] out@[k];
                        let m = self.signal_seq()[k];
                        &&& s.name@ == m.full_name@
                        &&& s.id_code.text@ == m.id_code.text@
                        &&& s.size == m.size
                        &&& s.type_@ == m.var_type@
                        &&& s.scope@.map_values(|c: String| c@) == scope_path(self.scope_seq(), m.scope)
                    },
            decreases self.signals.len() - i,
        {
            let m = &self.signals[i];
            assert(self.signal_seq()[i as int].scope matches Some(s) ==> s < self.scope_seq().len());
            let scope = self.scope_components(m.scope);
            out.push(
                Signal {
                    name: m.full_name.clone(),
                    id_code: IdCode { text: m.id_code.text.clone() },
                    size: m.size,
                    type_: m.var_type.clone(),
                    scope,
                },
            );
            i = i + 1;
        }
        out
    }
}

/// What the `vcd` crate's header parser makes of a header text: its scope
/// tree and its timescale, or the parser's error message.
pub uninterp spec fn vcd_header_parse(text: Seq<char>) -> Result<(Seq<HeaderItem>, Option<Timescale>), Seq<char>>;

#[verifier::external_type_specification]
#[verifier::external_body]
pub struct ExVcdVar(vcd::Var);

#[verifier::external_type_specification]
#[verifier::external_body]
pub struct ExVcdTimescaleUnit(vcd::TimescaleUnit);

#[verifier::external_type_specification]
#[verifier::external_body]
pub struct ExVcdScopeItem(vcd::ScopeItem);

/// Converts a `vcd::Var`: its type keyword and code by their `Display`
/// text, the index by its `Display` text.
#[verifier::external_body]
fn header_var(v: vcd::Var) -> HeaderVar {
    HeaderVar {
        var_type: v.var_type.to_string(),
        size: v.size,
        code: IdCode { text: v.code.to_string() },
        reference: v.reference,
        index: v.index.map(|i| i.to_string()),
    }
}

/// Converts a `vcd::TimescaleUnit`, variant by variant.
#[verifier::external_body]
fn time_unit_of(unit: vcd::TimescaleUnit) -> crate::TimeUnit {
    match unit {
        vcd::TimescaleUnit::S => crate::TimeUnit::S,
        vcd::TimescaleUnit::MS => crate::TimeUnit::MS,
        vcd::TimescaleUnit::US => crate::TimeUnit::US,
        vcd::TimescaleUnit::NS => crate::TimeUnit::NS,
        vcd::TimescaleUnit::PS => crate::TimeUnit::PS,
        vcd::TimescaleUnit::FS => crate::TimeUnit::FS,
    }
}

/// One item of a parsed header's scope tree.
#[derive(Debug)]
pub enum HeaderItem {
    Scope { identifier: String, items: Vec<HeaderItem> },
    Var(HeaderVar),
    Comment(String),
    /// An item of a kind this library does not read.
    Other,
}

/// Converts a `vcd::ScopeItem` tree, variant by variant.
#[verifier::external_body]
fn header_item(item: vcd::ScopeItem) -> HeaderItem {
    match item {
        vcd::ScopeItem::Scope(s) => HeaderItem::Scope {
            identifier: s.identifier,
            items: s.items.into_iter().map(header_item).collect(),
        },
        vcd::ScopeItem::Var(v) => HeaderItem::Var(header_var(v)),
        vcd::ScopeItem::Comment(c) => HeaderItem::Comment(c),
        _ => HeaderItem::Other,
    }
}

/// Calls `vcd::Parser::parse_header` on the text; the scope tree and
/// timescale, or the parser error's display text, are named.
#[verifier::external_body]
fn parse_vcd_header(text: &str) -> (r: Result<(Vec<HeaderItem>, Option<Timescale>), String>)
    ensures
        match r {
            Ok((items, ts)) => vcd_header_parse(text@) == Ok::<(Seq<HeaderItem>, Option<Timescale>), Seq<char>>((items@, ts)),
            Err(m) => vcd_header_parse(text@) == Err::<(Seq<HeaderItem>, Option<Timescale>), Seq<char>>(m@),
        },
{
    let header = vcd::Parser::new(text.as_bytes()).parse_header().map_err(|e| e.to_string())?;
    let timescale = header.timescale.map(|(m, u)| Timescale { magnitude: m, unit: time_unit_of(u) });
    Ok((header.items.into_iter().map(header_item).collect(), timescale))
}

/// The declarations of a scope tree in document order: each scope's
/// contents between its begin and end; comments carry none.
pub open spec fn flatten(items: Seq<HeaderItem>) -> Seq<HeaderDecl>
    decreases items,
{
    if items.len() == 0 {
        Seq::empty()
    } else {
        flatten(items.drop_last()) + flatten_item(items.last())
    }
}

pub open spec fn flatten_item(item: HeaderItem) -> Seq<HeaderDecl>
    decreases item,
{
    match item {
        HeaderItem::Scope { identifier, items } => seq![HeaderDecl::ScopeBegin(identifier)] + flatten(items@)
            + seq![HeaderDecl::ScopeEnd],
        HeaderItem::Var(var) => seq![HeaderDecl::Var(var)],
        HeaderItem::Comment(_) => Seq::empty(),
        HeaderItem::Other => Seq::empty(),
    }
}

fn copy_var(var: &HeaderVar) -> (out: HeaderVar)
    ensures
        out == *var,
{
    HeaderVar {
        var_type: var.var_type.clone(),
        size: var.size,
        code: IdCode { text: var.code.text.clone() },
        reference: var.reference.clone(),
        index: match &var.index {
            Some(index) => Some(index.clone()),
            None => None,
        },
    }
}

/// Append the declarations of `items` to `out`.
fn flatten_into(items: &Vec<HeaderItem>, out: &mut Vec<HeaderDecl>)
    ensures
        final(out)@ == old(out)@ + flatten(items@),
    decreases items,
{
    let ghost start = out@;
    let mut i: usize = 0;
    while i < items.len()
        invariant
            i <= items.len(),
            out@ == start + flatten(items@.take(i as int)),
        decreases items.len() - i,
    {
        proof {
            assert(items@.take(i + 1).drop_last() =~= items@.take(i as int));
            assert(items@.take(i + 1).last() == items@[i as int]);
            assert(flatten(items@.take(i + 1)) == flatten(items@.take(i as int)) + flatten_item(items@[i as int]));
        }
        match &items[i] {
            HeaderItem::Scope { identifier, items: children } => {
                out.push(HeaderDecl::ScopeBegin(identifier.clone()));
                proof {
                    assert(decreases_to!(items => items@[i as int]));
                }
                flatten_into(children, out);
                out.push(HeaderDecl::ScopeEnd);
            },
            HeaderItem::Var(var) => {
                out.push(HeaderDecl::Var(copy_var(var)));
            },
            HeaderItem::Comment(_) => {},
            HeaderItem::Other => {},
        }
        assert(out@ =~= start + flatten(items@.take(i + 1)));
        i = i + 1;
    }
    assert(items@.take(items.len() as int) =~= items@);
}

/// The declarations of a parsed scope tree, in document order.
pub fn flatten_items(items: &Vec<HeaderItem>) -> (out: Vec<HeaderDecl>)
    ensures
        out@ == flatten(items@),
{
    let mut out = Vec::new();
    flatten_into(items, &mut out);
    assert(out@ =~= flatten(items@));
    out
}

/// A parsed header: catalog, timescale and the body's byte offset.
pub struct CompactHeader {
    pub catalog: SignalCatalog,
    pub timescale: Option<Timescale>,
    pub body_offset: u64,
}

/// Parse already sanitized header text and build its catalog.
pub fn parse_sanitized_header(text: &str, body_offset: u64) -> (r: Result<CompactHeader, VcdError>)
    ensures
        match vcd_header_parse(text@) {
            Err(m) => r matches Err(VcdError::Parse(e)) && e@ == m,
            Ok((items, ts)) => match r {
                Ok(h) => catalog_builds(flatten(items)) && h.catalog.wf() && holds_vars(h.catalog.signal_seq(), walk(flatten(items)).1)
                    && h.timescale == ts && h.body_offset == body_offset,
                Err(_) => !catalog_builds(flatten(items)),
            },
        },
{
    let (items, timescale) = match parse_vcd_header(text) {
        Ok(parsed) => parsed,
        Err(message) => {
            return Err(VcdError::Parse(message));
        },
    };
    let decls = flatten_items(&items);
    let catalog = SignalCatalog::from_decls(&decls)?;
    Ok(CompactHeader { catalog, timescale, body_offset })
}


impl SignalCatalog {
    /// The signal names, in declaration order, that contain `filter` (all
    /// of them without one).
    pub fn list_signals(&self, filter: Option<&str>) -> (out: Vec<String>)
        ensures
            out@.map_values(|n: String| n@) == self.names().filter(|n: Seq<char>| match filter {
                Some(f) => crate::text::contains_seq(n, f@),
                None => true,
            }),
            filter is None ==> out@.map_values(|n: String| n@) == self.names(),
    {
        let ghost pred = |n: Seq<char>| match filter {
            Some(f) => crate::text::contains_seq(n, f@),
            None => true,
        };
        let mut out: Vec<String> = Vec::new();
        let mut i: usize = 0;
        proof {
            assert(self.names().take(0) =~= Seq::<Seq<char>>::empty());
            reveal(Seq::filter);
            assert(Seq::<Seq<char>>::empty().filter(pred) =~= Seq::<Seq<char>>::empty());
            assert(out@.map_values(|n: String| n@) =~= Seq::<Seq<char>>::empty());
        }
        while i < self.signals.len()
            invariant
                i <= self.signals.len(),
                pred == (|n: Seq<char>| match filter {
                    Some(f) => crate::text::contains_seq(n, f@),
                    None => true,
                }),
                out@.map_values(|n: String| n@) == self.names().take(i as int).filter(pred),
            decreases self.signals.len() - i,
        {
            let keep = match filter {
                Some(f) => crate::text::contains_str(self.signals[i].full_name.as_str(), f),
                None => true,
            };
            let ghost before = out@.map_values(|n: String| n@);
            assert(pred(self.signals@[i as int].full_name@) == keep);
            proof {
                reveal(Seq::filter);
                assert(self.names().take(i + 1).drop_last() =~= self.names().take(i as int));
                assert(self.names().take(i + 1).last() == self.signals@[i as int].full_name@);
            }
            if keep {
                out.push(self.signals[i].full_name.clone());
                assert(out@.map_values(|n: String| n@) =~= before.push(self.signals@[i as int].full_name@));
            }
            i = i + 1;
        }
        assert(self.names().take(self.signals@.len() as int) =~= self.names());
        proof {
            assert(self.names().take(self.signals@.len() as int) =~= self.names());
            if filter is None {
                lemma_filter_all(self.names(), pred);
            }
        }
        out
    }
}

} // verus!
