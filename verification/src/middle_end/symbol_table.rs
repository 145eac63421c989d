//! Symbol table for top-level Peps declarations.

use vstd::prelude::*;

use crate::common::text::owned;
use crate::middle_end::types::Type;

verus! {

/// Whether no name occurs twice among the entries.
pub open spec fn names_unique(entries: Seq<(String, Type)>) -> bool {
    forall|i: int, j: int|
        0 <= i < j < entries.len() ==> (#[trigger] entries[i]).0@ != (#[trigger] entries[j]).0@
}

/// The mapping from names to types that a list of entries describes, later
/// entries taking precedence over earlier ones.
pub open spec fn entries_map(entries: Seq<(String, Type)>) -> Map<Seq<char>, Type>
    decreases entries.len(),
{
    if entries.len() == 0 {
        Map::empty()
    } else {
        entries_map(entries.drop_last()).insert(entries.last().0@, entries.last().1)
    }
}

/// With distinct names, each entry is what the mapping holds for its name.
pub proof fn lemma_entries_lookup(entries: Seq<(String, Type)>, i: int)
    requires
        names_unique(entries),
        0 <= i < entries.len(),
    ensures
        entries_map(entries).contains_key(entries[i].0@),
        entries_map(entries)[entries[i].0@] == entries[i].1,
    decreases entries.len(),
{
    let n = entries.len() - 1;
    if i < n {
        assert(names_unique(entries.drop_last()));
        lemma_entries_lookup(entries.drop_last(), i);
        assert(entries[i].0@ != entries[n].0@);
    }
}

/// A name that no entry carries is absent from the mapping.
pub proof fn lemma_entries_absent(entries: Seq<(String, Type)>, name: Seq<char>)
    requires
        forall|i: int| 0 <= i < entries.len() ==> (#[trigger] entries[i]).0@ != name,
    ensures
        !entries_map(entries).contains_key(name),
    decreases entries.len(),
{
    if entries.len() > 0 {
        let rest = entries.drop_last();
        assert forall|i: int| 0 <= i < rest.len() implies (#[trigger] rest[i]).0@ != name by {
            assert(rest[i] == entries[i]);
        }
        lemma_entries_absent(rest, name);
    }
}

/// Replacing the type of an entry replaces it in the mapping.
pub proof fn lemma_entries_update(entries: Seq<(String, Type)>, i: int, ty: Type)
    requires
        names_unique(entries),
        0 <= i < entries.len(),
    ensures
        names_unique(entries.update(i, (entries[i].0, ty))),
        entries_map(entries.update(i, (entries[i].0, ty))) == entries_map(entries).insert(entries[i].0@, ty),
    decreases entries.len(),
{
    let updated = entries.update(i, (entries[i].0, ty));
    let n = entries.len() - 1;
    assert(names_unique(updated)) by {
        assert forall|a: int, b: int| 0 <= a < b < updated.len() implies (#[trigger] updated[a]).0@
            != (#[trigger] updated[b]).0@ by {
            assert(entries[a].0@ != entries[b].0@);
        }
    }
    if i == n {
        assert(updated.drop_last() =~= entries.drop_last());
        assert(entries_map(updated) =~= entries_map(entries).insert(entries[i].0@, ty));
    } else {
        assert(names_unique(entries.drop_last()));
        lemma_entries_update(entries.drop_last(), i, ty);
        assert(updated.drop_last() =~= entries.drop_last().update(i, (entries[i].0, ty)));
        assert(entries[i].0@ != entries[n].0@);
        assert(entries_map(updated) =~= entries_map(entries).insert(entries[i].0@, ty));
    }
}

/// Mapping from top-level Peps variable names to their inferred static types.
///
/// Local block bindings, such as loop variables, are tracked by the semantic
/// checker instead of being stored here.
#[derive(Debug)]
pub struct SymbolTable {
    symbols: Vec<(String, Type)>,
}

impl View for SymbolTable {
    type V = Map<Seq<char>, Type>;

    closed spec fn view(&self) -> Map<Seq<char>, Type> {
        entries_map(self.symbols@)
    }
}

impl SymbolTable {
    #[verifier::type_invariant]
    spec fn well_formed(self) -> bool {
        names_unique(self.symbols@)
    }

    /// Create an empty symbol table.
    pub fn new() -> (t: SymbolTable)
        ensures
            t@ == Map::<Seq<char>, Type>::empty(),
    {
        SymbolTable { symbols: Vec::new() }
    }

    /// The position of `name` among the entries, if present.
    fn position(&self, name: &str) -> (r: Option<usize>)
        ensures
            match r {
                Some(i) => i < self.symbols@.len() && self.symbols@[i as int].0@ == name@,
                None => forall|i: int| 0 <= i < self.symbols@.len() ==> (#[trigger] self.symbols@[i]).0@ != name@,
            },
    {
        let key = owned(name);
        let mut i: usize = 0;
        while i < self.symbols.len()
            invariant
                key@ == name@,
                0 <= i <= self.symbols@.len(),
                forall|k: int| 0 <= k < i ==> (#[trigger] self.symbols@[k]).0@ != name@,
            decreases self.symbols@.len() - i,
        {
            if self.symbols[i].0 == key {
                return Some(i);
            }
            i = i + 1;
        }
        None
    }

    /// Return whether a top-level declaration exists for `name`.
    pub fn contains(&self, name: &str) -> (r: bool)
        ensures
            r == self@.contains_key(name@),
    {
        proof { use_type_invariant(self); }
        match self.position(name) {
            Some(i) => {
                proof { lemma_entries_lookup(self.symbols@, i as int); }
                true
            },
            None => {
                proof { lemma_entries_absent(self.symbols@, name@); }
                false
            },
        }
    }

    /// Get the inferred type for a top-level declaration.
    pub fn get(&self, name: &str) -> (r: Option<&Type>)
        ensures
            match r {
                Some(t) => self@.contains_key(name@) && *t == self@[name@],
                None => !self@.contains_key(name@),
            },
    {
        proof { use_type_invariant(self); }
        match self.position(name) {
            Some(i) => {
                proof { lemma_entries_lookup(self.symbols@, i as int); }
                Some(&self.symbols[i].1)
            },
            None => {
                proof { lemma_entries_absent(self.symbols@, name@); }
                None
            },
        }
    }

    /// Insert or replace a top-level declaration.
    pub fn insert(&mut self, name: String, ty: Type)
        ensures
            final(self)@ == old(self)@.insert(name@, ty),
    {
        proof { use_type_invariant(&*self); }
        let position = self.position(name.as_str());
        let mut symbols: Vec<(String, Type)> = Vec::new();
        std::mem::swap(&mut symbols, &mut self.symbols);
        let ghost before = symbols@;
        match position {
            Some(i) => {
                proof { lemma_entries_update(before, i as int, ty); }
                symbols.set(i, (name, ty));
                proof {
                    assert(symbols@ =~= before.update(i as int, (before[i as int].0, ty)) || symbols@[i as int].0@ == before[i as int].0@);
                    lemma_entries_same(symbols@, before.update(i as int, (before[i as int].0, ty)));
                    assert(names_unique(symbols@)) by {
                        assert forall|a: int, b: int| 0 <= a < b < symbols@.len() implies (#[trigger] symbols@[a]).0@
                            != (#[trigger] symbols@[b]).0@ by {
                            assert(before[a].0@ != before[b].0@);
                        }
                    }
                }
            },
            None => {
                symbols.push((name, ty));
                proof {
                    assert(symbols@.drop_last() =~= before);
                }
            },
        }
        self.symbols = symbols;
    }

    /// A copy of the table.
    pub fn duplicate(&self) -> (r: SymbolTable)
        ensures
            r@ == self@,
    {
        proof { use_type_invariant(self); }
        let mut symbols: Vec<(String, Type)> = Vec::new();
        let mut i: usize = 0;
        while i < self.symbols.len()
            invariant
                0 <= i <= self.symbols@.len(),
                symbols@.len() == i,
                names_unique(self.symbols@),
                forall|k: int| 0 <= k < i ==> (#[trigger] symbols@[k]).0@ == self.symbols@[k].0@
                    && symbols@[k].1 == self.symbols@[k].1,
            decreases self.symbols@.len() - i,
        {
            let name = self.symbols[i].0.clone();
            let ty = self.symbols[i].1.duplicate();
            symbols.push((name, ty));
            i = i + 1;
        }
        proof {
            lemma_entries_same(symbols@, self.symbols@);
        }
        SymbolTable { symbols }
    }
}

/// Entries with the same names and types describe the same mapping.
proof fn lemma_entries_same(a: Seq<(String, Type)>, b: Seq<(String, Type)>)
    requires
        a.len() == b.len(),
        forall|k: int| 0 <= k < a.len() ==> (#[trigger] a[k]).0@ == b[k].0@ && a[k].1 == b[k].1,
    ensures
        entries_map(a) == entries_map(b),
    decreases a.len(),
{
    if a.len() > 0 {
        let n = a.len() - 1;
        assert forall|k: int| 0 <= k < n implies (#[trigger] a.drop_last()[k]).0@ == b.drop_last()[k].0@
            && a.drop_last()[k].1 == b.drop_last()[k].1 by {
            assert(a[k].0@ == b[k].0@);
        }
        lemma_entries_same(a.drop_last(), b.drop_last());
        assert(a[n].0@ == b[n].0@);
    }
}

} // verus!
