//! The stored name table. Rows are keyed by their alternate-name identifier:
//! writing a record whose identifier is already stored replaces that row, so
//! loading the same records again converges to the same rows.

use vstd::prelude::*;
use crate::record::{NameRecord, RecordView};

verus! {

/// The table that results from writing the records of `s`, in order, over
/// the table `m`: each record replaces the row with its identifier.
pub open spec fn apply_all(m: Map<u64, RecordView>, s: Seq<RecordView>) -> Map<u64, RecordView>
    decreases s.len(),
{
    if s.len() == 0 {
        m
    } else {
        apply_all(m, s.drop_last()).insert(s.last().alt_id, s.last())
    }
}

/// Whether no two records of `s` share an identifier.
pub open spec fn unique_ids(s: Seq<RecordView>) -> bool {
    forall|i: int, j: int|
        0 <= i < s.len() && 0 <= j < s.len() && i != j ==> #[trigger] s[i].alt_id
            != #[trigger] s[j].alt_id
}

/// Writing `a` and then `b` is writing `a + b`.
pub proof fn lemma_apply_all_append(m: Map<u64, RecordView>, a: Seq<RecordView>, b: Seq<RecordView>)
    ensures
        apply_all(m, a + b) == apply_all(apply_all(m, a), b),
    decreases b.len(),
{
    if b.len() == 0 {
        assert(a + b =~= a);
    } else {
        assert((a + b).drop_last() =~= a + b.drop_last());
        lemma_apply_all_append(m, a, b.drop_last());
    }
}

/// Writing `s` over `m` lays the rows that `s` alone gives over `m`.
pub proof fn lemma_apply_all_union(m: Map<u64, RecordView>, s: Seq<RecordView>)
    ensures
        apply_all(m, s) == m.union_prefer_right(apply_all(Map::empty(), s)),
    decreases s.len(),
{
    if s.len() == 0 {
        assert(m.union_prefer_right(Map::empty()) =~= m);
    } else {
        lemma_apply_all_union(m, s.drop_last());
        assert(apply_all(m, s) =~= m.union_prefer_right(apply_all(Map::empty(), s)));
    }
}

/// Loading the same records a second time leaves every row as the first
/// load left it, so the row count is unchanged too.
pub proof fn lemma_reload_unchanged(m: Map<u64, RecordView>, s: Seq<RecordView>)
    ensures
        apply_all(apply_all(m, s), s) == apply_all(m, s),
        apply_all(apply_all(m, s), s).dom().len() == apply_all(m, s).dom().len(),
{
    let f = apply_all(Map::empty(), s);
    lemma_apply_all_union(m, s);
    lemma_apply_all_union(apply_all(m, s), s);
    assert(m.union_prefer_right(f).union_prefer_right(f) =~= m.union_prefer_right(f));
}

proof fn lemma_apply_all_keys(s: Seq<RecordView>, k: u64)
    ensures
        apply_all(Map::empty(), s).dom().contains(k) <==> exists|i: int|
            0 <= i < s.len() && #[trigger] s[i].alt_id == k,
        apply_all(Map::empty(), s).dom().finite(),
    decreases s.len(),
{
    if s.len() > 0 {
        lemma_apply_all_keys(s.drop_last(), k);
        if apply_all(Map::empty(), s).dom().contains(k) && k != s.last().alt_id {
            let i = choose|i: int| 0 <= i < s.len() - 1 && #[trigger] s.drop_last()[i].alt_id == k;
            assert(s[i].alt_id == k);
        }
        if exists|i: int| 0 <= i < s.len() && #[trigger] s[i].alt_id == k {
            let i = choose|i: int| 0 <= i < s.len() && #[trigger] s[i].alt_id == k;
            if i < s.len() - 1 {
                assert(s.drop_last()[i].alt_id == k);
            }
        }
    }
}

/// With no identifier twice, the table holds one row per record.
pub proof fn lemma_apply_all_len(s: Seq<RecordView>)
    requires
        unique_ids(s),
    ensures
        apply_all(Map::empty(), s).dom().len() == s.len(),
    decreases s.len(),
{
    if s.len() > 0 {
        let p = s.drop_last();
        assert(unique_ids(p));
        lemma_apply_all_len(p);
        lemma_apply_all_keys(p, s.last().alt_id);
        if apply_all(Map::empty(), p).dom().contains(s.last().alt_id) {
            let i = choose|i: int| 0 <= i < p.len() && #[trigger] p[i].alt_id == s.last().alt_id;
            assert(s[i].alt_id == s[s.len() - 1].alt_id);
        }
    }
}

proof fn lemma_apply_all_replace(s: Seq<RecordView>, i: int, r: RecordView)
    requires
        unique_ids(s),
        0 <= i < s.len(),
        s[i].alt_id == r.alt_id,
    ensures
        apply_all(Map::empty(), s.update(i, r)) == apply_all(Map::empty(), s).insert(r.alt_id, r),
    decreases s.len(),
{
    let t = s.update(i, r);
    if i == s.len() - 1 {
        assert(t.drop_last() =~= s.drop_last());
        assert(apply_all(Map::empty(), t) =~= apply_all(Map::empty(), s).insert(r.alt_id, r));
    } else {
        let p = s.drop_last();
        assert(unique_ids(p));
        assert(t.drop_last() =~= p.update(i, r));
        lemma_apply_all_replace(p, i, r);
        assert(s[i].alt_id != s[s.len() - 1].alt_id);
        assert(apply_all(Map::empty(), t) =~= apply_all(Map::empty(), s).insert(r.alt_id, r));
    }
}

/// The name table, held in memory in the order rows were first written.
pub struct NameStore {
    rows: Vec<NameRecord>,
}

impl NameStore {
    /// The stored rows, in storage order.
    pub closed spec fn rows_view(&self) -> Seq<RecordView> {
        self.rows@.map_values(|r: NameRecord| r@)
    }

    /// The table as a map from identifier to row.
    pub open spec fn table(&self) -> Map<u64, RecordView> {
        apply_all(Map::empty(), self.rows_view())
    }

    /// No identifier is stored twice.
    pub closed spec fn wf(&self) -> bool {
        unique_ids(self.rows_view())
    }

    /// An empty table.
    pub fn new() -> (r: NameStore)
        ensures
            r.wf(),
            r.table() == Map::<u64, RecordView>::empty(),
    {
        let r = NameStore { rows: Vec::new() };
        assert(r.rows_view() =~= Seq::<RecordView>::empty());
        r
    }

    /// The number of stored rows.
    pub fn row_count(&self) -> (r: usize)
        requires
            self.wf(),
        ensures
            r == self.table().dom().len(),
    {
        proof {
            lemma_apply_all_len(self.rows_view());
        }
        self.rows.len()
    }

    /// The stored rows, in storage order; together they make up the table.
    pub fn rows(&self) -> (r: &Vec<NameRecord>)
        requires
            self.wf(),
        ensures
            r@.map_values(|x: NameRecord| x@) == self.rows_view(),
            unique_ids(self.rows_view()),
    {
        &self.rows
    }

    /// Writes one record, replacing any row with its identifier.
    pub fn upsert(&mut self, rec: NameRecord)
        requires
            old(self).wf(),
        ensures
            final(self).wf(),
            final(self).table() == old(self).table().insert(rec.alt_id, rec@),
    {
        let ghost s = self.rows_view();
        let n = self.rows.len();
        let mut i: usize = 0;
        while i < n
            invariant
                n == self.rows@.len(),
                i <= n,
                s == self.rows_view(),
                s == old(self).rows_view(),
                unique_ids(s),
                forall|j: int| 0 <= j < i ==> #[trigger] s[j].alt_id != rec.alt_id,
            decreases n - i,
        {
            if self.rows[i].alt_id == rec.alt_id {
                let ghost r = rec@;
                self.rows.set(i, rec);
                proof {
                    assert(self.rows_view() =~= s.update(i as int, r));
                    assert(forall|j: int|
                        0 <= j < n ==> #[trigger] s.update(i as int, r)[j].alt_id == s[j].alt_id);
                    lemma_apply_all_replace(s, i as int, r);
                }
                return;
            }
            i = i + 1;
        }
        let ghost r = rec@;
        self.rows.push(rec);
        proof {
            assert(self.rows_view() =~= s.push(r));
            assert(self.rows_view().drop_last() =~= s);
        }
    }

    /// Writes the records of a batch in order, each replacing any row with
    /// its identifier.
    pub fn upsert_batch(&mut self, batch: &Vec<NameRecord>)
        requires
            old(self).wf(),
        ensures
            final(self).wf(),
            final(self).table() == apply_all(
                old(self).table(),
                batch@.map_values(|x: NameRecord| x@),
            ),
    {
        let ghost b = batch@.map_values(|x: NameRecord| x@);
        let ghost t0 = self.table();
        let n = batch.len();
        let mut k: usize = 0;
        while k < n
            invariant
                n == b.len(),
                b == batch@.map_values(|x: NameRecord| x@),
                k <= n,
                self.wf(),
                self.table() == apply_all(t0, b.subrange(0, k as int)),
            decreases n - k,
        {
            let rec = batch[k].duplicate();
            proof {
                assert(b.subrange(0, k + 1).drop_last() =~= b.subrange(0, k as int));
            }
            self.upsert(rec);
            k = k + 1;
        }
        assert(b.subrange(0, n as int) =~= b);
    }
}

} // verus!
