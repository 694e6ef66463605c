//! An index of symbols by name.
use vstd::prelude::*;
use crate::symbols::Symbol;

verus! {

/// Symbols grouped by name; names may repeat across files and classes, so
/// each name holds a list, in the order the symbols were added.
#[derive(Debug)]
pub struct SymbolIndex {
    pub symbols: Vec<(String, Vec<Symbol>)>,
    path: String,
}

/// No two entries share a name.
pub open spec fn names_distinct(es: Seq<(String, Vec<Symbol>)>) -> bool {
    forall|i: int, j: int|
        0 <= i < es.len() && 0 <= j < es.len() && i != j ==> (#[trigger] es[i]).0@ != (
        #[trigger] es[j]).0@
}

/// The position of the entry named `k` among the first `n`.
pub open spec fn entry_upto(es: Seq<(String, Vec<Symbol>)>, k: Seq<char>, n: int) -> Option<int>
    decreases n,
{
    if n <= 0 {
        None
    } else if es[n - 1].0@ == k {
        Some(n - 1)
    } else {
        entry_upto(es, k, n - 1)
    }
}

pub proof fn lemma_entry_upto(es: Seq<(String, Vec<Symbol>)>, k: Seq<char>, n: int)
    requires
        0 <= n <= es.len(),
    ensures
        match entry_upto(es, k, n) {
            Some(i) => 0 <= i < n && es[i].0@ == k,
            None => forall|j: int| 0 <= j < n ==> (#[trigger] es[j]).0@ != k,
        },
    decreases n,
{
    if n > 0 && es[n - 1].0@ != k {
        lemma_entry_upto(es, k, n - 1);
    }
}

/// The symbols among the first `n` of `v` named `k`, in order.
pub open spec fn named(v: Seq<Symbol>, k: Seq<char>, n: int) -> Seq<Symbol>
    decreases n,
{
    if n <= 0 {
        seq![]
    } else if v[n - 1].name@ == k {
        named(v, k, n - 1).push(v[n - 1])
    } else {
        named(v, k, n - 1)
    }
}

impl SymbolIndex {
    /// The index's invariant: one entry per name.
    pub closed spec fn wf(&self) -> bool {
        names_distinct(self.symbols@)
    }

    /// The symbols indexed under `k`, oldest first; none when `k` is not a
    /// name of the index.
    pub closed spec fn get(&self, k: Seq<char>) -> Seq<Symbol> {
        match entry_upto(self.symbols@, k, self.symbols@.len() as int) {
            Some(i) => self.symbols@[i].1@,
            None => seq![],
        }
    }

    /// Whether `k` is a name of the index.
    pub closed spec fn has(&self, k: Seq<char>) -> bool {
        entry_upto(self.symbols@, k, self.symbols@.len() as int) is Some
    }

    /// The file the index is kept in.
    pub closed spec fn path_view(&self) -> Seq<char> {
        self.path@
    }

    /// An empty index kept in the file `path`.
    pub fn new(path: &str) -> (r: Self)
        ensures
            r.wf(),
            r.path_view() == path@,
            forall|k: Seq<char>| !r.has(k) && r.get(k) == Seq::<Symbol>::empty(),
    {
        SymbolIndex { symbols: Vec::new(), path: crate::text::string_of(crate::text::chars_of(path).as_slice()) }
    }

    /// The file the index is kept in.
    pub fn path(&self) -> (r: &String)
        ensures
            r@ == self.path_view(),
    {
        &self.path
    }

    fn position(&self, k: &String) -> (r: Option<usize>)
        ensures
            match r {
                Some(i) => entry_upto(self.symbols@, k@, self.symbols@.len() as int) == Some(i as int),
                None => entry_upto(self.symbols@, k@, self.symbols@.len() as int) is None,
            },
    {
        let mut i: usize = self.symbols.len();
        while i > 0
            invariant
                0 <= i <= self.symbols.len(),
                entry_upto(self.symbols@, k@, self.symbols@.len() as int) == entry_upto(
                    self.symbols@,
                    k@,
                    i as int,
                ),
            decreases i,
        {
            if crate::graph::string_eq(&self.symbols[i - 1].0, k) {
                return Some(i - 1);
            }
            i = i - 1;
        }
        None
    }

    fn add_one(&mut self, s: Symbol)
        requires
            old(self).wf(),
        ensures
            final(self).wf(),
            final(self).path == old(self).path,
            forall|k: Seq<char>|
                #[trigger] final(self).get(k) == if k == s.name@ {
                    old(self).get(k).push(s)
                } else {
                    old(self).get(k)
                },
            forall|k: Seq<char>| #[trigger] final(self).has(k) == (old(self).has(k) || k == s.name@),
    {
        let ghost es = self.symbols@;
        proof {
            lemma_entry_upto(es, s.name@, es.len() as int);
        }
        match self.position(&s.name) {
            Some(i) => {
                let ghost old_list = self.symbols@[i as int].1@;
                self.symbols[i].1.push(s);
                proof {
                    let ns = self.symbols@;
                    assert(ns.len() == es.len());
                    assert forall|a: int| 0 <= a < ns.len() && a != i implies ns[a] == es[a] by {}
                    assert(ns[i as int].0 == es[i as int].0);
                    assert(ns[i as int].1@ == old_list.push(s));
                    assert forall|x: int, y: int|
                        0 <= x < ns.len() && 0 <= y < ns.len() && x != y implies (#[trigger] ns[x]).0@
                        != (#[trigger] ns[y]).0@ by {
                        assert(es[x].0@ != es[y].0@);
                    }
                    assert forall|k: Seq<char>|
                        #![trigger self.get(k)]
                        #![trigger self.has(k)]
                        self.get(k) == (if k == s.name@ {
                            old(self).get(k).push(s)
                        } else {
                            old(self).get(k)
                        }) && self.has(k) == (old(self).has(k) || k == s.name@) by {
                        lemma_same_entries(es, ns, k, i as int);
                        assert(entry_upto(ns, k, ns.len() as int) == entry_upto(es, k, es.len() as int));
                        if k == s.name@ {
                            assert(entry_upto(es, k, es.len() as int) == Some(i as int));
                            assert(self.get(k) == ns[i as int].1@);
                            assert(old(self).get(k) == old_list);
                            assert(self.has(k));
                        } else {
                            match entry_upto(es, k, es.len() as int) {
                                Some(j) => {
                                    lemma_entry_upto(es, k, es.len() as int);
                                    assert(j != i);
                                    assert(ns[j] == es[j]);
                                },
                                None => {},
                            }
                            assert(self.get(k) == old(self).get(k));
                            assert(self.has(k) == old(self).has(k));
                        }
                    }
                }
            },
            None => {
                let key = s.name.clone();
                let mut list: Vec<Symbol> = Vec::new();
                list.push(s);
                self.symbols.push((key, list));
                proof {
                    let ns = self.symbols@;
                    assert(ns[es.len() as int].0@ == s.name@);
                    assert forall|x: int, y: int|
                        0 <= x < ns.len() && 0 <= y < ns.len() && x != y implies (#[trigger] ns[x]).0@
                        != (#[trigger] ns[y]).0@ by {
                        let m = es.len() as int;
                        if x < m && y < m {
                            assert(es[x].0@ != es[y].0@);
                        } else if x == m {
                            assert(ns[y] == es[y]);
                        } else {
                            assert(ns[x] == es[x]);
                        }
                    }
                    assert forall|k: Seq<char>|
                        #![trigger self.get(k)]
                        #![trigger self.has(k)]
                        self.get(k) == (if k == s.name@ {
                            old(self).get(k).push(s)
                        } else {
                            old(self).get(k)
                        }) && self.has(k) == (old(self).has(k) || k == s.name@) by {
                        lemma_entry_upto(es, k, es.len() as int);
                        if k != s.name@ {
                            lemma_prefix_entries(es, ns, k, es.len() as int);
                            assert(entry_upto(ns, k, ns.len() as int) == entry_upto(es, k, es.len() as int));
                            lemma_entry_upto(ns, k, ns.len() as int);
                            match entry_upto(es, k, es.len() as int) {
                                Some(j) => assert(ns[j] == es[j]),
                                None => {},
                            }
                        } else {
                            assert(list@ =~= seq![s]);
                        }
                    }
                }
            },
        }
    }

    /// Adds symbols under their names, after the symbols already there.
    pub fn add_symbols(&mut self, new_symbols: Vec<Symbol>)
        requires
            old(self).wf(),
        ensures
            final(self).wf(),
            final(self).path_view() == old(self).path_view(),
            forall|k: Seq<char>|
                #[trigger] final(self).get(k) == old(self).get(k) + named(
                    new_symbols@,
                    k,
                    new_symbols@.len() as int,
                ),
            forall|k: Seq<char>|
                #[trigger] final(self).has(k) == (old(self).has(k) || named(
                    new_symbols@,
                    k,
                    new_symbols@.len() as int,
                ).len() > 0),
    {
        let ghost v0 = new_symbols@;
        let mut rest = new_symbols;
        let mut rev: Vec<Symbol> = Vec::new();
        while rest.len() > 0
            invariant
                v0 == rest@ + rev@.reverse(),
            decreases rest.len(),
        {
            let ghost before = rest@;
            let x = rest.pop().unwrap();
            assert(before == rest@.push(x));
            let ghost r0 = rev@;
            rev.push(x);
            assert(rev@.reverse() =~= seq![x] + r0.reverse());
            assert(v0 =~= rest@ + rev@.reverse());
        }
        assert(v0 =~= rev@.reverse());
        let ghost n0 = rev@.len();
        while rev.len() > 0
            invariant
                self.wf(),
                self.path == old(self).path,
                n0 == v0.len(),
                v0 == v0.take(n0 - rev@.len()) + rev@.reverse(),
                rev@.len() <= n0,
                forall|k: Seq<char>|
                    #[trigger] self.get(k) == old(self).get(k) + named(v0, k, n0 - rev@.len()),
                forall|k: Seq<char>|
                    #[trigger] self.has(k) == (old(self).has(k) || named(v0, k, n0 - rev@.len()).len() > 0),
            decreases rev.len(),
        {
            let ghost done = n0 - rev@.len();
            let ghost r0 = rev@;
            let x = rev.pop().unwrap();
            assert(r0 == rev@.push(x));
            assert(r0.reverse() =~= seq![x] + rev@.reverse());
            assert(v0[done] == x) by {
                assert(v0 == v0.take(done) + r0.reverse());
                assert((v0.take(done) + r0.reverse())[done] == r0.reverse()[0]);
            }
            let ghost before = *self;
            self.add_one(x);
            proof {
                assert(v0 =~= v0.take(done + 1) + rev@.reverse()) by {
                    assert(v0 == v0.take(done) + r0.reverse());
                }
                assert forall|k: Seq<char>|
                    #[trigger] self.get(k) == old(self).get(k) + named(v0, k, done + 1) && self.has(k) == (
                    old(self).has(k) || named(v0, k, done + 1).len() > 0) by {
                    assert(before.get(k) == old(self).get(k) + named(v0, k, done));
                    assert(before.has(k) == (old(self).has(k) || named(v0, k, done).len() > 0));
                    if k == x.name@ {
                        assert(named(v0, k, done + 1) == named(v0, k, done).push(x));
                        assert(old(self).get(k) + named(v0, k, done).push(x) =~= (old(self).get(k) + named(
                            v0,
                            k,
                            done,
                        )).push(x));
                    } else {
                        assert(named(v0, k, done + 1) == named(v0, k, done));
                    }
                }
            }
        }
    }

    /// The symbols named exactly `query`, oldest first.
    pub fn search(&self, query: &str) -> (r: Vec<&Symbol>)
        requires
            self.wf(),
        ensures
            r@.len() == self.get(query@).len(),
            forall|i: int| 0 <= i < r@.len() ==> *r@[i] == self.get(query@)[i],
    {
        let q = crate::text::string_of(crate::text::chars_of(query).as_slice());
        let mut out: Vec<&Symbol> = Vec::new();
        proof {
            lemma_entry_upto(self.symbols@, q@, self.symbols@.len() as int);
        }
        match self.position(&q) {
            Some(i) => {
                let list = &self.symbols[i].1;
                let mut j: usize = 0;
                while j < list.len()
                    invariant
                        0 <= j <= list.len(),
                        out@.len() == j,
                        forall|t: int| 0 <= t < j ==> *out@[t] == list@[t],
                    decreases list.len() - j,
                {
                    out.push(&list[j]);
                    j = j + 1;
                }
            },
            None => {},
        }
        out
    }

    /// Removes every symbol.
    pub fn clear(&mut self)
        ensures
            final(self).wf(),
            final(self).path_view() == old(self).path_view(),
            forall|k: Seq<char>| !final(self).has(k) && final(self).get(k) == Seq::<Symbol>::empty(),
    {
        self.symbols.clear();
    }
}

/// Positions by name within a prefix are those of the prefix.
pub proof fn lemma_prefix_entries(
    es: Seq<(String, Vec<Symbol>)>,
    ns: Seq<(String, Vec<Symbol>)>,
    k: Seq<char>,
    n: int,
)
    requires
        0 <= n <= es.len() <= ns.len(),
        forall|a: int| 0 <= a < es.len() ==> ns[a] == es[a],
    ensures
        entry_upto(ns, k, n) == entry_upto(es, k, n),
    decreases n,
{
    if n > 0 {
        lemma_prefix_entries(es, ns, k, n - 1);
        assert(ns[n - 1] == es[n - 1]);
    }
}

/// Entries that differ only at `i`, whose name is unchanged, have the same
/// positions by name.
pub proof fn lemma_same_entries(
    es: Seq<(String, Vec<Symbol>)>,
    ns: Seq<(String, Vec<Symbol>)>,
    k: Seq<char>,
    i: int,
)
    requires
        es.len() == ns.len(),
        0 <= i < es.len(),
        ns[i].0@ == es[i].0@,
        forall|a: int| 0 <= a < ns.len() && a != i ==> ns[a] == es[a],
    ensures
        entry_upto(ns, k, ns.len() as int) == entry_upto(es, k, es.len() as int),
{
    lemma_same_entries_upto(es, ns, k, i, es.len() as int);
}

pub proof fn lemma_same_entries_upto(
    es: Seq<(String, Vec<Symbol>)>,
    ns: Seq<(String, Vec<Symbol>)>,
    k: Seq<char>,
    i: int,
    n: int,
)
    requires
        es.len() == ns.len(),
        0 <= n <= es.len(),
        0 <= i < es.len(),
        ns[i].0@ == es[i].0@,
        forall|a: int| 0 <= a < ns.len() && a != i ==> ns[a] == es[a],
    ensures
        entry_upto(ns, k, n) == entry_upto(es, k, n),
    decreases n,
{
    if n > 0 {
        lemma_same_entries_upto(es, ns, k, i, n - 1);
        if n - 1 != i {
            assert(ns[n - 1] == es[n - 1]);
        }
    }
}

/// Searching after adding symbols gives what the name held before, then
/// the added symbols with that name, in the order they were given.
pub proof fn law_search_after_add(before: SymbolIndex, after: SymbolIndex, added: Seq<Symbol>, q: Seq<char>)
    requires
        forall|k: Seq<char>| #[trigger] after.get(k) == before.get(k) + named(added, k, added.len() as int),
    ensures
        after.get(q) == before.get(q) + named(added, q, added.len() as int),
        before.get(q).is_prefix_of(after.get(q)),
        forall|i: int| 0 <= i < named(added, q, added.len() as int).len() ==> (#[trigger] named(added, q, added.len() as int)[i]).name@ == q,
{
    lemma_named(added, q, added.len() as int);
}

pub proof fn lemma_named(v: Seq<Symbol>, k: Seq<char>, n: int)
    requires
        0 <= n <= v.len(),
    ensures
        forall|i: int| 0 <= i < named(v, k, n).len() ==> (#[trigger] named(v, k, n)[i]).name@ == k,
    decreases n,
{
    if n > 0 {
        lemma_named(v, k, n - 1);
        let p = named(v, k, n - 1);
        let c = named(v, k, n);
        assert forall|i: int| 0 <= i < c.len() implies (#[trigger] c[i]).name@ == k by {
            if i < p.len() {
                assert(c[i] == p[i]);
            }
        }
    }
}

} // verus!
