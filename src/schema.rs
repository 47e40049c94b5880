//! The structures the loader needs, created only where missing, so that
//! creating the schema again changes nothing.

use vstd::prelude::*;

verus! {

/// A table or index of the schema.
#[derive(Debug, Clone, Copy, PartialEq, Eq, Structural)]
pub enum Structure {
    NamesTable,
    SummaryTable,
    NameLanguageIndex,
}

/// The structures that exist, in the order they were created.
pub struct Catalog {
    present: Vec<Structure>,
}

/// The structures a complete schema holds.
pub open spec fn schema_structures() -> Seq<Structure> {
    seq![Structure::NamesTable, Structure::SummaryTable, Structure::NameLanguageIndex]
}

/// Whether no structure appears twice.
pub open spec fn no_duplicates(s: Seq<Structure>) -> bool {
    forall|i: int, j: int| 0 <= i < s.len() && 0 <= j < s.len() && i != j ==> s[i] != s[j]
}

/// The structures after creating `x` where it is missing.
pub open spec fn with_structure(s: Seq<Structure>, x: Structure) -> Seq<Structure> {
    if s.contains(x) {
        s
    } else {
        s.push(x)
    }
}

/// The structures after creating the whole schema over `s`.
pub open spec fn with_schema(s: Seq<Structure>) -> Seq<Structure> {
    with_structure(
        with_structure(with_structure(s, Structure::NamesTable), Structure::SummaryTable),
        Structure::NameLanguageIndex,
    )
}

/// Creating the schema a second time changes nothing, and the schema holds
/// each of its structures once.
pub proof fn lemma_schema_twice(s: Seq<Structure>)
    requires
        no_duplicates(s),
    ensures
        with_schema(with_schema(s)) == with_schema(s),
        no_duplicates(with_schema(s)),
        forall|i: int| 0 <= i < 3 ==> with_schema(s).contains(#[trigger] schema_structures()[i]),
{
    let a = with_structure(s, Structure::NamesTable);
    let b = with_structure(a, Structure::SummaryTable);
    let c = with_structure(b, Structure::NameLanguageIndex);
    assert(a.contains(Structure::NamesTable)) by {
        if !s.contains(Structure::NamesTable) {
            assert(a[s.len() as int] == Structure::NamesTable);
        }
    }
    assert(b.contains(Structure::NamesTable) && b.contains(Structure::SummaryTable)) by {
        if !a.contains(Structure::SummaryTable) {
            assert(b[a.len() as int] == Structure::SummaryTable);
            let k = choose|k: int| 0 <= k < a.len() && a[k] == Structure::NamesTable;
            assert(b[k] == Structure::NamesTable);
        }
    }
    assert(c.contains(Structure::NamesTable) && c.contains(Structure::SummaryTable)
        && c.contains(Structure::NameLanguageIndex)) by {
        if !b.contains(Structure::NameLanguageIndex) {
            assert(c[b.len() as int] == Structure::NameLanguageIndex);
            let k = choose|k: int| 0 <= k < b.len() && b[k] == Structure::NamesTable;
            assert(c[k] == Structure::NamesTable);
            let m = choose|m: int| 0 <= m < b.len() && b[m] == Structure::SummaryTable;
            assert(c[m] == Structure::SummaryTable);
        }
    }
    assert(no_duplicates(a));
    assert(no_duplicates(b));
    assert(no_duplicates(c));
}

impl Catalog {
    /// The structures that exist, in creation order.
    pub closed spec fn structures(&self) -> Seq<Structure> {
        self.present@
    }

    /// A catalog of an empty database.
    pub fn new() -> (r: Catalog)
        ensures
            r.structures() == Seq::<Structure>::empty(),
    {
        Catalog { present: Vec::new() }
    }

    /// Tests whether a structure exists.
    pub fn has(&self, x: Structure) -> (r: bool)
        ensures
            r == self.structures().contains(x),
    {
        let n = self.present.len();
        let mut i: usize = 0;
        while i < n
            invariant
                n == self.present@.len(),
                i <= n,
                forall|j: int| 0 <= j < i ==> self.present@[j] != x,
            decreases n - i,
        {
            if self.present[i] == x {
                return true;
            }
            i = i + 1;
        }
        false
    }

    /// Creates a structure unless it exists.
    pub fn ensure(&mut self, x: Structure)
        ensures
            final(self).structures() == with_structure(old(self).structures(), x),
    {
        if !self.has(x) {
            self.present.push(x);
        }
    }

    /// Creates every structure of the schema that is missing.
    pub fn create_schema(&mut self)
        ensures
            final(self).structures() == with_schema(old(self).structures()),
    {
        self.ensure(Structure::NamesTable);
        self.ensure(Structure::SummaryTable);
        self.ensure(Structure::NameLanguageIndex);
    }
}

} // verus!
