//! The assembler's symbol table: label names mapped to instruction
//! indices. Held as a vector of bindings with unique names; adding a
//! name again replaces its value.

use vstd::prelude::*;

verus! {

/// Label names bound to instruction indices.
#[derive(Debug)]
pub struct SymbolTable {
    pub symbols: Vec<(String, u32)>,
}

impl SymbolTable {
    /// The bindings.
    pub open spec fn entries(&self) -> Seq<(String, u32)> {
        self.symbols@
    }

    /// The table invariant: no name is bound twice.
    pub open spec fn wf(&self) -> bool {
        forall|i: int, j: int|
            0 <= i < j < self.entries().len() ==> (#[trigger] self.entries()[i]).0@ != (
            #[trigger] self.entries()[j]).0@
    }

    /// Whether the table binds `name` to `value`.
    pub open spec fn binds(&self, name: Seq<char>, value: u32) -> bool {
        exists|i: int|
            0 <= i < self.entries().len() && (#[trigger] self.entries()[i]).0@ == name
                && self.entries()[i].1 == value
    }

    /// Whether the table binds `name` at all.
    pub open spec fn has(&self, name: Seq<char>) -> bool {
        exists|i: int| 0 <= i < self.entries().len() && (#[trigger] self.entries()[i]).0@ == name
    }

    /// The value bound to `name`, when one is.
    pub open spec fn lookup(&self, name: Seq<char>) -> Option<u32> {
        if self.has(name) {
            Some(choose|v: u32| self.binds(name, v))
        } else {
            None
        }
    }

    /// A well-formed table binds a name to at most one value.
    pub proof fn lemma_binds_unique(&self, name: Seq<char>, v1: u32, v2: u32)
        requires
            self.wf(),
            self.binds(name, v1),
            self.binds(name, v2),
        ensures
            v1 == v2,
    {
        let i = choose|i: int|
            0 <= i < self.entries().len() && (#[trigger] self.entries()[i]).0@ == name
                && self.entries()[i].1 == v1;
        let j = choose|j: int|
            0 <= j < self.entries().len() && (#[trigger] self.entries()[j]).0@ == name
                && self.entries()[j].1 == v2;
        if i != j {
            assert(self.entries()[i].0@ != self.entries()[j].0@);
        }
    }

    /// What a binding means for `lookup`.
    pub proof fn lemma_lookup(&self, name: Seq<char>, v: u32)
        requires
            self.wf(),
            self.binds(name, v),
        ensures
            self.lookup(name) == Some(v),
    {
        let w = choose|w: u32| self.binds(name, w);
        self.lemma_binds_unique(name, v, w);
    }

    /// An empty table.
    pub fn new() -> (r: SymbolTable)
        ensures
            r.wf(),
            r.entries() =~= Seq::<(String, u32)>::empty(),
    {
        SymbolTable { symbols: Vec::new() }
    }

    /// Binds `symbol` to `value`, replacing any earlier binding of
    /// the same name. Every other binding stays.
    pub fn add_symbol(&mut self, symbol: String, value: u32)
        requires
            old(self).wf(),
        ensures
            final(self).wf(),
            final(self).binds(symbol@, value),
            forall|n: Seq<char>, v: u32|
                n != symbol@ ==> (#[trigger] final(self).binds(n, v) <==> old(self).binds(n, v)),
            forall|n: Seq<char>|
                n != symbol@ ==> (#[trigger] final(self).has(n) <==> old(self).has(n)),
    {
        let mut i: usize = 0;
        let n = self.symbols.len();
        while i < n
            invariant
                *self == *old(self),
                self.wf(),
                n == self.entries().len(),
                0 <= i <= n,
                forall|k: int| 0 <= k < i ==> (#[trigger] self.entries()[k]).0@ != symbol@,
            decreases n - i,
        {
            if crate::utils::str_eq(self.symbols[i].0.as_str(), symbol.as_str()) {
                self.symbols.set(i, (symbol, value));
                proof {
                    let fin = self.entries();
                    let was = old(self).entries();
                    assert(fin[i as int].0@ == was[i as int].0@);
                    assert forall|a: int, b: int| 0 <= a < b < fin.len() implies (
                    #[trigger] fin[a]).0@ != (#[trigger] fin[b]).0@ by {
                        assert(was[a].0@ != was[b].0@);
                    }
                    assert forall|nm: Seq<char>, v: u32|
                        nm != symbol@ implies (#[trigger] self.binds(nm, v) <==> old(self).binds(
                        nm,
                        v,
                    )) by {
                        if self.binds(nm, v) {
                            let w = choose|k: int|
                                0 <= k < fin.len() && (#[trigger] fin[k]).0@ == nm && fin[k].1
                                    == v;
                            assert(was[w].0@ == nm && was[w].1 == v);
                        }
                        if old(self).binds(nm, v) {
                            let w = choose|k: int|
                                0 <= k < was.len() && (#[trigger] was[k]).0@ == nm && was[k].1
                                    == v;
                            assert(fin[w].0@ == nm && fin[w].1 == v);
                        }
                    }
                    assert forall|nm: Seq<char>|
                        nm != symbol@ implies (#[trigger] self.has(nm) <==> old(self).has(nm)) by {
                        if self.has(nm) {
                            let w = choose|k: int|
                                0 <= k < fin.len() && (#[trigger] fin[k]).0@ == nm;
                            assert(was[w].0@ == nm);
                        }
                        if old(self).has(nm) {
                            let w = choose|k: int|
                                0 <= k < was.len() && (#[trigger] was[k]).0@ == nm;
                            assert(fin[w].0@ == nm);
                        }
                    }
                }
                return ;
            }
            i = i + 1;
        }
        self.symbols.push((symbol, value));
        proof {
            let fin = self.entries();
            let was = old(self).entries();
            assert(fin[fin.len() - 1].0@ == symbol@);
            assert forall|a: int, b: int| 0 <= a < b < fin.len() implies (#[trigger] fin[a]).0@
                != (#[trigger] fin[b]).0@ by {
                if b < fin.len() - 1 {
                    assert(was[a].0@ != was[b].0@);
                } else {
                    assert(fin[a].0@ != symbol@);
                }
            }
            assert forall|nm: Seq<char>, v: u32|
                nm != symbol@ implies (#[trigger] self.binds(nm, v) <==> old(self).binds(
                nm,
                v,
            )) by {
                if self.binds(nm, v) {
                    let w = choose|k: int|
                        0 <= k < fin.len() && (#[trigger] fin[k]).0@ == nm && fin[k].1 == v;
                    assert(w < was.len());
                    assert(was[w].0@ == nm && was[w].1 == v);
                }
                if old(self).binds(nm, v) {
                    let w = choose|k: int|
                        0 <= k < was.len() && (#[trigger] was[k]).0@ == nm && was[k].1 == v;
                    assert(fin[w].0@ == nm && fin[w].1 == v);
                }
            }
            assert forall|nm: Seq<char>|
                nm != symbol@ implies (#[trigger] self.has(nm) <==> old(self).has(nm)) by {
                if self.has(nm) {
                    let w = choose|k: int| 0 <= k < fin.len() && (#[trigger] fin[k]).0@ == nm;
                    assert(w < was.len());
                    assert(was[w].0@ == nm);
                }
                if old(self).has(nm) {
                    let w = choose|k: int| 0 <= k < was.len() && (#[trigger] was[k]).0@ == nm;
                    assert(fin[w].0@ == nm);
                }
            }
        }
    }

    /// Looks a name up.
    pub fn get_symbol(&self, symbol: &str) -> (r: Option<&u32>)
        requires
            self.wf(),
        ensures
            match r {
                Some(v) => self.binds(symbol@, *v),
                None => !self.has(symbol@),
            },
    {
        let mut i: usize = 0;
        let n = self.symbols.len();
        while i < n
            invariant
                self.wf(),
                n == self.entries().len(),
                0 <= i <= n,
                forall|k: int| 0 <= k < i ==> (#[trigger] self.entries()[k]).0@ != symbol@,
            decreases n - i,
        {
            if crate::utils::str_eq(self.symbols[i].0.as_str(), symbol) {
                return Some(&self.symbols[i].1);
            }
            i = i + 1;
        }
        None
    }
}

} // verus!
