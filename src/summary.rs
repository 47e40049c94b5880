//! The summary table: one row per source file, replaced when the same source
//! is summarised again.

use vstd::prelude::*;
use crate::import::ImportSummary;

verus! {

/// The mathematical value of a summary row.
pub struct SummaryView {
    pub source_file: Seq<char>,
    pub read: u64,
    pub accepted: u64,
    pub rejected: u64,
    pub skipped: u64,
}

impl View for ImportSummary {
    type V = SummaryView;

    open spec fn view(&self) -> SummaryView {
        SummaryView {
            source_file: self.source_file@,
            read: self.read,
            accepted: self.accepted,
            rejected: self.rejected,
            skipped: self.skipped,
        }
    }
}

impl ImportSummary {
    /// A copy of the summary.
    pub fn duplicate(&self) -> (r: ImportSummary)
        ensures
            r@ == self@,
    {
        ImportSummary {
            source_file: self.source_file.clone(),
            read: self.read,
            accepted: self.accepted,
            rejected: self.rejected,
            skipped: self.skipped,
        }
    }
}

/// Whether no two rows of `s` are for the same source file.
pub open spec fn unique_sources(s: Seq<SummaryView>) -> bool {
    forall|i: int, j: int|
        0 <= i < s.len() && 0 <= j < s.len() && i != j ==> #[trigger] s[i].source_file
            != #[trigger] s[j].source_file
}

/// The rows after recording `x`: it replaces the row for its source file,
/// or is added after the others where there is none.
pub open spec fn recorded(s: Seq<SummaryView>, x: SummaryView) -> Seq<SummaryView> {
    if exists|i: int| 0 <= i < s.len() && #[trigger] s[i].source_file == x.source_file {
        let i = choose|i: int| 0 <= i < s.len() && #[trigger] s[i].source_file == x.source_file;
        s.update(i, x)
    } else {
        s.push(x)
    }
}

/// Recording the same summary twice leaves the rows as recording it once.
pub proof fn lemma_record_twice(s: Seq<SummaryView>, x: SummaryView)
    requires
        unique_sources(s),
    ensures
        recorded(recorded(s, x), x) == recorded(s, x),
        unique_sources(recorded(s, x)),
{
    let t = recorded(s, x);
    if exists|i: int| 0 <= i < s.len() && #[trigger] s[i].source_file == x.source_file {
        let i = choose|i: int| 0 <= i < s.len() && #[trigger] s[i].source_file == x.source_file;
        assert(t[i].source_file == x.source_file);
        let j = choose|j: int| 0 <= j < t.len() && #[trigger] t[j].source_file == x.source_file;
        if j != i {
            assert(s[j].source_file == x.source_file);
        }
        assert(t.update(j, x) =~= t);
        assert forall|a: int, b: int|
            0 <= a < t.len() && 0 <= b < t.len() && a != b implies #[trigger] t[a].source_file
            != #[trigger] t[b].source_file by {
            if a != i && b != i {
                assert(s[a].source_file != s[b].source_file);
            } else if a == i {
                assert(s[b].source_file != s[i].source_file);
            } else {
                assert(s[a].source_file != s[i].source_file);
            }
        }
    } else {
        assert(t[s.len() as int].source_file == x.source_file);
        let j = choose|j: int| 0 <= j < t.len() && #[trigger] t[j].source_file == x.source_file;
        if j < s.len() {
            assert(s[j].source_file == x.source_file);
        }
        assert(t.update(j, x) =~= t);
        assert forall|a: int, b: int|
            0 <= a < t.len() && 0 <= b < t.len() && a != b implies #[trigger] t[a].source_file
            != #[trigger] t[b].source_file by {
            if a < s.len() && b < s.len() {
                assert(s[a].source_file != s[b].source_file);
            } else if a < s.len() {
                assert(t[a] == s[a]);
            } else {
                assert(t[b] == s[b]);
            }
        }
    }
}

/// The summaries of past imports.
pub struct SummaryTable {
    rows: Vec<ImportSummary>,
}

impl SummaryTable {
    /// The rows, in the order their sources were first summarised.
    pub closed spec fn rows_view(&self) -> Seq<SummaryView> {
        self.rows@.map_values(|r: ImportSummary| r@)
    }

    /// No source file has two rows.
    pub closed spec fn wf(&self) -> bool {
        unique_sources(self.rows_view())
    }

    /// An empty table.
    pub fn new() -> (r: SummaryTable)
        ensures
            r.wf(),
            r.rows_view() == Seq::<SummaryView>::empty(),
    {
        let r = SummaryTable { rows: Vec::new() };
        assert(r.rows_view() =~= Seq::<SummaryView>::empty());
        r
    }

    /// The rows, in table order.
    pub fn rows(&self) -> (r: &Vec<ImportSummary>)
        ensures
            r@.map_values(|x: ImportSummary| x@) == self.rows_view(),
    {
        &self.rows
    }

    /// Records the summary of a run, replacing any row for the same source.
    pub fn summarise(&mut self, summary: ImportSummary)
        requires
            old(self).wf(),
        ensures
            final(self).wf(),
            final(self).rows_view() == recorded(old(self).rows_view(), summary@),
    {
        let ghost s = self.rows_view();
        let ghost x = summary@;
        proof {
            lemma_record_twice(s, x);
        }
        let n = self.rows.len();
        let mut i: usize = 0;
        while i < n
            invariant
                n == self.rows@.len(),
                i <= n,
                s == self.rows_view(),
                s == old(self).rows_view(),
                x == summary@,
                unique_sources(s),
                unique_sources(recorded(s, x)),
                forall|j: int| 0 <= j < i ==> #[trigger] s[j].source_file != x.source_file,
            decreases n - i,
        {
            if self.rows[i].source_file == summary.source_file {
                self.rows.set(i, summary);
                proof {
                    assert(s[i as int].source_file == x.source_file);
                    let k = choose|k: int|
                        0 <= k < s.len() && #[trigger] s[k].source_file == x.source_file;
                    if k != i {
                        assert(s[k].source_file != s[i as int].source_file);
                    }
                    assert(self.rows_view() =~= s.update(i as int, x));
                }
                return;
            }
            i = i + 1;
        }
        self.rows.push(summary);
        assert(self.rows_view() =~= s.push(x));
    }

    /// The row for a source file, if it has been summarised.
    pub fn find(&self, source_file: &str) -> (r: Option<&ImportSummary>)
        requires
            self.wf(),
        ensures
            match r {
                Some(x) => exists|i: int|
                    0 <= i < self.rows_view().len() && #[trigger] self.rows_view()[i] == x@
                        && x@.source_file == source_file@,
                None => forall|i: int|
                    0 <= i < self.rows_view().len() ==> #[trigger] self.rows_view()[i].source_file
                        != source_file@,
            },
    {
        let n = self.rows.len();
        let mut i: usize = 0;
        while i < n
            invariant
                n == self.rows@.len(),
                i <= n,
                forall|j: int| 0 <= j < i ==> #[trigger] self.rows_view()[j].source_file
                    != source_file@,
            decreases n - i,
        {
            if crate::text::same_text(self.rows[i].source_file.as_str(), source_file) {
                assert(self.rows_view()[i as int] == self.rows@[i as int]@);
                return Some(&self.rows[i]);
            }
            i = i + 1;
        }
        None
    }
}

} // verus!
