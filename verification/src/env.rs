//! The environment table: the variables of a process, held as plain values.

use vstd::prelude::*;
use crate::bytes::bytes_eq;

verus! {

/// One key with its value.
#[derive(Clone, Debug, PartialEq, Eq)]
pub struct ParsedEntry {
    pub key: Vec<u8>,
    pub value: Vec<u8>,
}

impl View for ParsedEntry {
    type V = (Seq<u8>, Seq<u8>);

    open spec fn view(&self) -> (Seq<u8>, Seq<u8>) {
        (self.key@, self.value@)
    }
}

/// A table of variables, each key at most once.
#[derive(Debug)]
pub struct Env {
    vars: Vec<ParsedEntry>,
}

/// Whether no key stands twice in `vars`.
pub open spec fn distinct_keys(vars: Seq<ParsedEntry>) -> bool {
    forall|i: int, j: int| 0 <= i < j < vars.len() ==> vars[i].key@ != vars[j].key@
}

/// Whether `k` is the key at `i`.
pub open spec fn key_at(vars: Seq<ParsedEntry>, k: Seq<u8>, i: int) -> bool {
    0 <= i < vars.len() && vars[i].key@ == k
}

/// The map that `vars` stands for.
pub open spec fn table(vars: Seq<ParsedEntry>) -> Map<Seq<u8>, Seq<u8>> {
    Map::new(
        |k: Seq<u8>| exists|i: int| key_at(vars, k, i),
        |k: Seq<u8>| vars[choose|i: int| key_at(vars, k, i)].value@,
    )
}

/// The entry at `i` is what the table holds under its key.
pub proof fn lemma_table_at(vars: Seq<ParsedEntry>, i: int)
    requires
        distinct_keys(vars),
        0 <= i < vars.len(),
    ensures
        table(vars).contains_key(vars[i].key@),
        table(vars)[vars[i].key@] == vars[i].value@,
{
    let k = vars[i].key@;
    assert(key_at(vars, k, i));
    let j = choose|j: int| key_at(vars, k, j);
    assert(key_at(vars, k, j));
    assert(i == j);
}

/// A key of the table stands at some index.
pub proof fn lemma_table_key(vars: Seq<ParsedEntry>, k: Seq<u8>) -> (i: int)
    requires
        table(vars).contains_key(k),
    ensures
        key_at(vars, k, i),
{
    choose|i: int| key_at(vars, k, i)
}

impl View for Env {
    type V = Map<Seq<u8>, Seq<u8>>;

    closed spec fn view(&self) -> Map<Seq<u8>, Seq<u8>> {
        table(self.vars@)
    }
}

impl Env {
    #[verifier::type_invariant]
    spec fn well_formed(&self) -> bool {
        distinct_keys(self.vars@)
    }

    /// The index at which `key` stands, if it is in the table.
    fn position(&self, key: &[u8]) -> (r: Option<usize>)
        ensures
            match r {
                Some(i) => key_at(self.vars@, key@, i as int),
                None => forall|i: int| !key_at(self.vars@, key@, i),
            },
    {
        let mut i: usize = 0;
        while i < self.vars.len()
            invariant
                i <= self.vars@.len(),
                forall|j: int| 0 <= j < i ==> !key_at(self.vars@, key@, j),
            decreases self.vars@.len() - i,
        {
            if bytes_eq(self.vars[i].key.as_slice(), key) {
                return Some(i);
            }
            i += 1;
        }
        None
    }

    /// An empty table.
    pub fn new() -> (r: Env)
        ensures
            r@ == Map::<Seq<u8>, Seq<u8>>::empty(),
    {
        let r = Env { vars: Vec::new() };
        assert(r@ =~= Map::<Seq<u8>, Seq<u8>>::empty());
        r
    }

    /// A copy of the table.
    pub fn snapshot(&self) -> (r: Env)
        ensures
            r@ == self@,
    {
        proof {
            use_type_invariant(self);
        }
        let mut vars: Vec<ParsedEntry> = Vec::new();
        let mut i: usize = 0;
        while i < self.vars.len()
            invariant
                i <= self.vars@.len(),
                vars@.len() == i,
                forall|j: int| 0 <= j < i ==> (#[trigger] vars@[j])@ == self.vars@[j]@,
            decreases self.vars@.len() - i,
        {
            let key = self.vars[i].key.clone();
            let value = self.vars[i].value.clone();
            vars.push(ParsedEntry { key, value });
            i += 1;
        }
        proof {
            let a = self.vars@;
            let b = vars@;
            assert forall|x: Seq<u8>, j: int| key_at(a, x, j) == key_at(b, x, j) by {
                if 0 <= j < a.len() {
                    assert(b[j]@ == a[j]@);
                }
            }
            assert forall|x: Seq<u8>| #[trigger]
                table(b).contains_key(x) == table(a).contains_key(x) by {
                if table(b).contains_key(x) {
                    let j = lemma_table_key(b, x);
                    assert(key_at(a, x, j));
                }
                if table(a).contains_key(x) {
                    let j = lemma_table_key(a, x);
                    assert(key_at(b, x, j));
                }
            }
            assert forall|j: int, l: int| 0 <= j < l < b.len() implies b[j].key@ != b[l].key@ by {
                assert(b[j]@ == a[j]@);
                assert(b[l]@ == a[l]@);
            }
            assert forall|x: Seq<u8>| #[trigger] table(b).contains_key(x) implies table(b)[x]
                == table(a)[x] by {
                let j = lemma_table_key(b, x);
                assert(b[j]@ == a[j]@);
                lemma_table_at(b, j);
                lemma_table_at(a, j);
            }
            assert(table(b) =~= table(a));
        }
        Env { vars }
    }

    /// The variables of the table, each key once.
    pub fn entries(&self) -> (r: &Vec<ParsedEntry>)
        ensures
            distinct_keys(r@),
            table(r@) == self@,
    {
        proof {
            use_type_invariant(self);
        }
        &self.vars
    }

    /// The value of `key`, if it is set.
    pub fn get(&self, key: &[u8]) -> (r: Option<&Vec<u8>>)
        ensures
            match r {
                Some(v) => self@.contains_key(key@) && v@ == self@[key@],
                None => !self@.contains_key(key@),
            },
    {
        proof {
            use_type_invariant(self);
        }
        match self.position(key) {
            Some(i) => {
                proof {
                    lemma_table_at(self.vars@, i as int);
                }
                Some(&self.vars[i].value)
            },
            None => None,
        }
    }

    /// Tells whether `key` is set.
    pub fn contains(&self, key: &[u8]) -> (r: bool)
        ensures
            r == self@.contains_key(key@),
    {
        self.get(key).is_some()
    }

    /// Sets `key` to `value`, whether or not it was set before.
    pub fn set(&mut self, key: Vec<u8>, value: Vec<u8>)
        ensures
            final(self)@ == old(self)@.insert(key@, value@),
    {
        proof {
            use_type_invariant(&*self);
        }
        let ghost before = self.vars@;
        let ghost k = key@;
        let ghost v = value@;
        match self.position(key.as_slice()) {
            Some(i) => {
                let mut vars: Vec<ParsedEntry> = Vec::new();
                core::mem::swap(&mut self.vars, &mut vars);
                vars.set(i, ParsedEntry { key, value });
                proof {
                    let after = vars@;
                    assert forall|a: int, b: int| 0 <= a < b < after.len() implies after[a].key@
                        != after[b].key@ by {
                        assert(after[a].key@ == before[a].key@);
                        assert(after[b].key@ == before[b].key@);
                    }
                    assert forall|x: Seq<u8>| #[trigger]
                        table(after).contains_key(x) == table(before).insert(
                            k,
                            v,
                        ).contains_key(x) by {
                        if table(after).contains_key(x) {
                            let j = lemma_table_key(after, x);
                            assert(key_at(before, x, j));
                        }
                        if table(before).contains_key(x) {
                            let j = lemma_table_key(before, x);
                            assert(key_at(after, x, j));
                        }
                        assert(key_at(after, k, i as int));
                    }
                    assert forall|x: Seq<u8>| #[trigger]
                        table(after).contains_key(x) implies table(after)[x] == table(
                        before,
                    ).insert(k, v)[x] by {
                        let j = lemma_table_key(after, x);
                        lemma_table_at(after, j);
                        if j != i {
                            lemma_table_at(before, j);
                        }
                    }
                    assert(table(after) =~= table(before).insert(k, v));
                }
                core::mem::swap(&mut self.vars, &mut vars);
            },
            None => {
                let mut vars: Vec<ParsedEntry> = Vec::new();
                core::mem::swap(&mut self.vars, &mut vars);
                vars.push(ParsedEntry { key, value });
                proof {
                    let after = vars@;
                    let n = before.len() as int;
                    assert forall|a: int, b: int| 0 <= a < b < after.len() implies after[a].key@
                        != after[b].key@ by {
                        if b == n {
                            assert(!key_at(before, k, a));
                        }
                    }
                    assert forall|x: Seq<u8>| #[trigger]
                        table(after).contains_key(x) == table(before).insert(
                            k,
                            v,
                        ).contains_key(x) by {
                        if table(after).contains_key(x) {
                            let j = lemma_table_key(after, x);
                            if j < n {
                                assert(key_at(before, x, j));
                            }
                        }
                        if table(before).contains_key(x) {
                            let j = lemma_table_key(before, x);
                            assert(key_at(after, x, j));
                        }
                        assert(key_at(after, k, n));
                    }
                    assert forall|x: Seq<u8>| #[trigger]
                        table(after).contains_key(x) implies table(after)[x] == table(
                        before,
                    ).insert(k, v)[x] by {
                        let j = lemma_table_key(after, x);
                        lemma_table_at(after, j);
                        if j < n {
                            lemma_table_at(before, j);
                        }
                    }
                    assert(table(after) =~= table(before).insert(k, v));
                }
                core::mem::swap(&mut self.vars, &mut vars);
            },
        }
    }

    /// Removes `key` from the table, if it is set.
    pub fn remove(&mut self, key: &[u8])
        ensures
            final(self)@ == old(self)@.remove(key@),
    {
        proof {
            use_type_invariant(&*self);
        }
        let ghost before = self.vars@;
        let ghost k = key@;
        match self.position(key) {
            Some(i) => {
                let mut vars: Vec<ParsedEntry> = Vec::new();
                core::mem::swap(&mut self.vars, &mut vars);
                vars.remove(i);
                proof {
                    let after = vars@;
                    assert forall|j: int| 0 <= j < after.len() implies #[trigger] after[j] == before[if j
                        < i {
                        j
                    } else {
                        j + 1
                    }] by {}
                    assert forall|x: Seq<u8>| #[trigger]
                        table(after).contains_key(x) == table(before).remove(k).contains_key(
                            x,
                        ) by {
                        if table(after).contains_key(x) {
                            let j = lemma_table_key(after, x);
                            let j0 = if j < i {
                                j
                            } else {
                                j + 1
                            };
                            assert(key_at(before, x, j0));
                        }
                        if table(before).contains_key(x) && x != k {
                            let j = lemma_table_key(before, x);
                            let j1 = if j < i {
                                j
                            } else {
                                j - 1
                            };
                            assert(key_at(after, x, j1));
                        }
                    }
                    assert forall|x: Seq<u8>| #[trigger]
                        table(after).contains_key(x) implies table(after)[x] == table(
                        before,
                    ).remove(k)[x] by {
                        let j = lemma_table_key(after, x);
                        lemma_table_at(after, j);
                        lemma_table_at(
                            before,
                            if j < i {
                                j
                            } else {
                                j + 1
                            },
                        );
                    }
                    assert(table(after) =~= table(before).remove(k));
                }
                core::mem::swap(&mut self.vars, &mut vars);
            },
            None => {
                proof {
                    assert forall|x: Seq<u8>| #[trigger]
                        table(before).contains_key(x) implies x != k by {
                        let j = lemma_table_key(before, x);
                    }
                    assert(table(before) =~= table(before).remove(k));
                }
            },
        }
    }
}

} // verus!
