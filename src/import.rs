//! The import pass: lines are read one at a time, counted, and the accepted
//! records are grouped into batches of a fixed size, in source order, for the
//! store to write.

use vstd::prelude::*;
use crate::record::{
    LineClass, LineOutcome, NameRecord, RecordView, is_non_latin, line_outcome, parse_line,
};
use crate::store::{NameStore, apply_all, lemma_apply_all_append};

verus! {

/// The records accepted from `lines`, in source order.
pub open spec fn accepted_of(lines: Seq<Seq<char>>, include_nonlatin: bool) -> Seq<RecordView>
    decreases lines.len(),
{
    if lines.len() == 0 {
        Seq::empty()
    } else {
        let p = accepted_of(lines.drop_last(), include_nonlatin);
        match line_outcome(lines.last(), include_nonlatin) {
            LineClass::Accepted(r) => p.push(r),
            _ => p,
        }
    }
}

/// The number of lines of `lines` that were refused.
pub open spec fn rejected_of(lines: Seq<Seq<char>>, include_nonlatin: bool) -> nat
    decreases lines.len(),
{
    if lines.len() == 0 {
        0
    } else {
        rejected_of(lines.drop_last(), include_nonlatin) + match line_outcome(
            lines.last(),
            include_nonlatin,
        ) {
            LineClass::Rejected(_) => 1nat,
            _ => 0nat,
        }
    }
}

/// The number of lines of `lines` whose non-Latin name kept them out.
pub open spec fn skipped_of(lines: Seq<Seq<char>>, include_nonlatin: bool) -> nat
    decreases lines.len(),
{
    if lines.len() == 0 {
        0
    } else {
        skipped_of(lines.drop_last(), include_nonlatin) + match line_outcome(
            lines.last(),
            include_nonlatin,
        ) {
            LineClass::Skipped => 1nat,
            _ => 0nat,
        }
    }
}

/// Every line read is accepted, refused or skipped, and only one of these.
pub proof fn lemma_counts_add_up(lines: Seq<Seq<char>>, include_nonlatin: bool)
    ensures
        lines.len() == accepted_of(lines, include_nonlatin).len() + rejected_of(
            lines,
            include_nonlatin,
        ) + skipped_of(lines, include_nonlatin),
    decreases lines.len(),
{
    if lines.len() > 0 {
        lemma_counts_add_up(lines.drop_last(), include_nonlatin);
    }
}

/// Records are cut into batches of `b`, in order; only the last batch may be
/// shorter.
pub open spec fn chunks(s: Seq<RecordView>, b: nat) -> Seq<Seq<RecordView>>
    recommends
        b > 0,
    decreases s.len(),
{
    if s.len() == 0 || b == 0 {
        Seq::empty()
    } else if s.len() <= b {
        seq![s]
    } else {
        seq![s.take(b as int)] + chunks(s.skip(b as int), b)
    }
}

/// Full batches followed by a shorter remainder are exactly the batches that
/// cutting their concatenation gives.
pub proof fn lemma_chunks_of_full_batches(bs: Seq<Seq<RecordView>>, p: Seq<RecordView>, b: nat)
    requires
        b > 0,
        p.len() < b,
        forall|i: int| 0 <= i < bs.len() ==> (#[trigger] bs[i]).len() == b,
    ensures
        chunks(bs.flatten() + p, b) == if p.len() == 0 {
            bs
        } else {
            bs.push(p)
        },
    decreases bs.len(),
{
    if bs.len() == 0 {
        assert(bs.flatten() + p =~= p);
        if p.len() == 0 {
        } else {
            assert(bs.push(p) =~= seq![p]);
        }
    } else {
        let rest = bs.drop_first();
        assert forall|i: int| 0 <= i < rest.len() implies (#[trigger] rest[i]).len() == b by {
            assert(rest[i] == bs[i + 1]);
        }
        lemma_chunks_of_full_batches(rest, p, b);
        let s = bs.flatten() + p;
        assert(s =~= bs[0] + (rest.flatten() + p));
        let tail = rest.flatten() + p;
        if tail.len() == 0 {
            assert(s =~= bs[0]);
            assert(rest.len() == 0) by {
                if rest.len() > 0 {
                    rest.lemma_flatten_length_ge_single_element_length(0);
                }
            }
            assert(bs =~= seq![bs[0]]);
        } else {
            assert(s.take(b as int) =~= bs[0]);
            assert(s.skip(b as int) =~= tail);
            if p.len() == 0 {
                assert(bs =~= seq![bs[0]] + rest);
            } else {
                assert(bs.push(p) =~= seq![bs[0]] + rest.push(p));
            }
        }
    }
}

/// Exactly `b` records make one batch, and `b + 1` records make a batch of
/// `b` followed by a batch of one.
pub proof fn lemma_batch_boundary(s: Seq<RecordView>, b: nat)
    requires
        b > 0,
    ensures
        s.len() == b ==> chunks(s, b) == seq![s],
        s.len() == b + 1 ==> chunks(s, b).len() == 2 && chunks(s, b)[0].len() == b && chunks(
            s,
            b,
        )[1].len() == 1,
{
    if s.len() == b + 1 {
        assert(chunks(s.skip(b as int), b) == seq![s.skip(b as int)]);
    }
}

/// Cutting records into batches loses and reorders nothing.
pub proof fn lemma_chunks_flatten(s: Seq<RecordView>, b: nat)
    requires
        b > 0,
    ensures
        chunks(s, b).flatten() == s,
    decreases s.len(),
{
    if s.len() == 0 {
    } else if s.len() <= b {
        seq![s].lemma_flatten_one_element();
    } else {
        lemma_chunks_flatten(s.skip(b as int), b);
        let c = seq![s.take(b as int)] + chunks(s.skip(b as int), b);
        assert(c.drop_first() =~= chunks(s.skip(b as int), b));
        assert(s.take(b as int) + s.skip(b as int) =~= s);
    }
}

proof fn lemma_accepted_latin(lines: Seq<Seq<char>>)
    ensures
        forall|i: int|
            0 <= i < accepted_of(lines, false).len() ==> !is_non_latin(
                (#[trigger] accepted_of(lines, false)[i]).name,
            ),
    decreases lines.len(),
{
    if lines.len() > 0 {
        lemma_accepted_latin(lines.drop_last());
        let p = accepted_of(lines.drop_last(), false);
        let a = accepted_of(lines, false);
        if line_outcome(lines.last(), false) is Accepted {
            assert forall|i: int| 0 <= i < a.len() implies !is_non_latin(
                (#[trigger] a[i]).name,
            ) by {
                if i < p.len() {
                    assert(a[i] == p[i]);
                }
            }
        }
    }
}

proof fn lemma_apply_all_values(m: Map<u64, RecordView>, s: Seq<RecordView>, k: u64)
    requires
        apply_all(m, s).dom().contains(k),
    ensures
        (m.dom().contains(k) && apply_all(m, s)[k] == m[k]) || exists|i: int|
            0 <= i < s.len() && #[trigger] s[i] == apply_all(m, s)[k],
    decreases s.len(),
{
    if s.len() > 0 && k != s.last().alt_id {
        lemma_apply_all_values(m, s.drop_last(), k);
        if exists|i: int| 0 <= i < s.len() - 1 && #[trigger] s.drop_last()[i] == apply_all(m, s)[k] {
            let i = choose|i: int| 0 <= i < s.len() - 1 && #[trigger] s.drop_last()[i] == apply_all(m, s)[k];
            assert(s[i] == apply_all(m, s)[k]);
        }
    } else if s.len() > 0 {
        assert(s[s.len() - 1] == apply_all(m, s)[k]);
    }
}

proof fn lemma_apply_all_keeps_keys(m: Map<u64, RecordView>, s: Seq<RecordView>, i: int)
    requires
        0 <= i < s.len(),
    ensures
        apply_all(m, s).dom().contains(s[i].alt_id),
    decreases s.len(),
{
    if i < s.len() - 1 {
        lemma_apply_all_keeps_keys(m, s.drop_last(), i);
        assert(s.drop_last()[i] == s[i]);
    }
}

proof fn lemma_accepted_has_line(lines: Seq<Seq<char>>, j: int)
    requires
        0 <= j < lines.len(),
        line_outcome(lines[j], true) is Accepted,
    ensures
        exists|i: int|
            0 <= i < accepted_of(lines, true).len() && #[trigger] accepted_of(lines, true)[i]
                == line_outcome(lines[j], true)->Accepted_0,
    decreases lines.len(),
{
    let a = accepted_of(lines, true);
    if j == lines.len() - 1 {
        assert(a[a.len() - 1] == line_outcome(lines[j], true)->Accepted_0);
    } else {
        lemma_accepted_has_line(lines.drop_last(), j);
        assert(lines.drop_last()[j] == lines[j]);
        let p = accepted_of(lines.drop_last(), true);
        let i = choose|i: int| 0 <= i < p.len() && #[trigger] p[i] == line_outcome(lines[j], true)->Accepted_0;
        assert(a[i] == p[i]);
    }
}

/// With non-Latin names left out, loading keeps a table free of non-Latin
/// names; with them kept, every well-formed line's identifier is stored, the
/// lines that would have been skipped included.
pub proof fn lemma_script_filter(m: Map<u64, RecordView>, lines: Seq<Seq<char>>)
    ensures
        (forall|k: u64| #[trigger] m.dom().contains(k) ==> !is_non_latin(m[k].name)) ==> forall|
            k: u64,
        |
            #[trigger] apply_all(m, accepted_of(lines, false)).dom().contains(k) ==> !is_non_latin(
                apply_all(m, accepted_of(lines, false))[k].name,
            ),
        forall|j: int|
            0 <= j < lines.len() && line_outcome(#[trigger] lines[j], true) is Accepted ==> apply_all(
                m,
                accepted_of(lines, true),
            ).dom().contains(line_outcome(lines[j], true)->Accepted_0.alt_id),
        forall|j: int|
            0 <= j < lines.len() && line_outcome(#[trigger] lines[j], false) is Skipped
                ==> line_outcome(lines[j], true) is Accepted,
{
    let s = accepted_of(lines, false);
    lemma_accepted_latin(lines);
    if forall|k: u64| #[trigger] m.dom().contains(k) ==> !is_non_latin(m[k].name) {
        assert forall|k: u64| #[trigger] apply_all(m, s).dom().contains(k) implies !is_non_latin(
            apply_all(m, s)[k].name,
        ) by {
            lemma_apply_all_values(m, s, k);
        }
    }
    assert forall|j: int|
        0 <= j < lines.len() && line_outcome(#[trigger] lines[j], true) is Accepted implies apply_all(
            m,
            accepted_of(lines, true),
        ).dom().contains(line_outcome(lines[j], true)->Accepted_0.alt_id) by {
        lemma_accepted_has_line(lines, j);
        let a = accepted_of(lines, true);
        let i = choose|i: int| 0 <= i < a.len() && #[trigger] a[i] == line_outcome(lines[j], true)->Accepted_0;
        lemma_apply_all_keeps_keys(m, a, i);
    }
}

/// Loading the same lines a second time leaves the table as the first load
/// left it: the same rows, and so the same row count.
pub proof fn lemma_reimport_unchanged(
    m: Map<u64, RecordView>,
    lines: Seq<Seq<char>>,
    include_nonlatin: bool,
)
    ensures
        apply_all(apply_all(m, accepted_of(lines, include_nonlatin)), accepted_of(lines, include_nonlatin))
            == apply_all(m, accepted_of(lines, include_nonlatin)),
        apply_all(
            apply_all(m, accepted_of(lines, include_nonlatin)),
            accepted_of(lines, include_nonlatin),
        ).dom().len() == apply_all(m, accepted_of(lines, include_nonlatin)).dom().len(),
{
    crate::store::lemma_reload_unchanged(m, accepted_of(lines, include_nonlatin));
}

/// Run-level counts of one import.
pub struct ImportSummary {
    pub source_file: String,
    pub read: u64,
    pub accepted: u64,
    pub rejected: u64,
    pub skipped: u64,
}

impl ImportSummary {
    /// Counts the records of a batch whose write failed for good as refused
    /// rather than accepted.
    pub fn reject_batch(&mut self, n: u64)
        requires
            old(self).read == old(self).accepted + old(self).rejected + old(self).skipped,
            n <= old(self).accepted,
        ensures
            final(self).source_file == old(self).source_file,
            final(self).read == old(self).read,
            final(self).accepted == old(self).accepted - n,
            final(self).rejected == old(self).rejected + n,
            final(self).skipped == old(self).skipped,
            final(self).read == final(self).accepted + final(self).rejected + final(self).skipped,
    {
        self.accepted = self.accepted - n;
        self.rejected = self.rejected + n;
    }
}

/// How many times a batch whose write failed is tried again.
pub const MAX_BATCH_RETRIES: u32 = 3;

/// The wait before the first retry, in milliseconds.
pub const FIRST_BACKOFF_MS: u64 = 500;

/// The wait before retry number `k + 1`: it doubles with each retry.
pub open spec fn backoff_ms(k: nat) -> nat
    decreases k,
{
    if k == 0 {
        FIRST_BACKOFF_MS as nat
    } else {
        2 * backoff_ms((k - 1) as nat)
    }
}

/// What follows the `failures`-th failed write of a batch: the wait in
/// milliseconds before trying again, or `None` once the retries are used up.
pub fn retry_delay(failures: u32) -> (r: Option<u64>)
    requires
        failures >= 1,
    ensures
        failures <= MAX_BATCH_RETRIES ==> r == Some(backoff_ms((failures - 1) as nat) as u64),
        failures > MAX_BATCH_RETRIES ==> r is None,
{
    if failures > MAX_BATCH_RETRIES {
        return None;
    }
    let mut delay: u64 = FIRST_BACKOFF_MS;
    let mut k: u32 = 1;
    while k < failures
        invariant
            1 <= k <= failures <= MAX_BATCH_RETRIES,
            delay == backoff_ms((k - 1) as nat),
            k == 1 ==> delay == 500,
            k == 2 ==> delay == 1000,
        decreases failures - k,
    {
        delay = delay * 2;
        k = k + 1;
    }
    Some(delay)
}

/// Reads lines one at a time and hands out full batches of accepted records.
pub struct Importer {
    include_nonlatin: bool,
    batch_size: usize,
    pending: Vec<NameRecord>,
    read: u64,
    accepted: u64,
    rejected: u64,
    skipped: u64,
    lines: Ghost<Seq<Seq<char>>>,
    sent: Ghost<Seq<Seq<RecordView>>>,
}

impl Importer {
    /// The lines read so far.
    pub closed spec fn lines(&self) -> Seq<Seq<char>> {
        self.lines@
    }

    /// The batches handed out so far.
    pub closed spec fn batches(&self) -> Seq<Seq<RecordView>> {
        self.sent@
    }

    /// Whether non-Latin names are kept.
    pub closed spec fn keeps_nonlatin(&self) -> bool {
        self.include_nonlatin
    }

    /// The size of a full batch.
    pub closed spec fn size(&self) -> nat {
        self.batch_size as nat
    }

    /// The accepted records not yet handed out.
    pub closed spec fn pending_view(&self) -> Seq<RecordView> {
        self.pending@.map_values(|r: NameRecord| r@)
    }

    /// The counters match the lines read, every batch handed out is full, and
    /// the batches followed by the pending records are the accepted records.
    pub closed spec fn wf(&self) -> bool {
        &&& self.batch_size > 0
        &&& self.pending@.len() < self.batch_size
        &&& self.read == self.lines@.len()
        &&& self.accepted == accepted_of(self.lines@, self.include_nonlatin).len()
        &&& self.rejected == rejected_of(self.lines@, self.include_nonlatin)
        &&& self.skipped == skipped_of(self.lines@, self.include_nonlatin)
        &&& self.sent@.flatten() + self.pending_view() == accepted_of(
            self.lines@,
            self.include_nonlatin,
        )
        &&& forall|i: int| 0 <= i < self.sent@.len() ==> (#[trigger] self.sent@[i]).len()
            == self.batch_size
    }

    /// An importer that has read nothing.
    pub fn new(include_nonlatin: bool, batch_size: usize) -> (r: Importer)
        requires
            batch_size > 0,
        ensures
            r.wf(),
            r.lines() == Seq::<Seq<char>>::empty(),
            r.batches() == Seq::<Seq<RecordView>>::empty(),
            r.keeps_nonlatin() == include_nonlatin,
            r.size() == batch_size,
    {
        let r = Importer {
            include_nonlatin,
            batch_size,
            pending: Vec::new(),
            read: 0,
            accepted: 0,
            rejected: 0,
            skipped: 0,
            lines: Ghost(Seq::empty()),
            sent: Ghost(Seq::empty()),
        };
        assert(r.pending_view() =~= Seq::<RecordView>::empty());
        assert(Seq::<Seq<RecordView>>::empty().flatten() =~= Seq::<RecordView>::empty());
        r
    }

    /// Reads one line. Where its record fills the pending batch, that batch
    /// is handed out, to be written before the next line is read.
    pub fn feed_line(&mut self, line: &str) -> (r: Option<Vec<NameRecord>>)
        requires
            old(self).wf(),
            old(self).lines().len() < u64::MAX,
        ensures
            final(self).wf(),
            final(self).lines() == old(self).lines().push(line@),
            final(self).keeps_nonlatin() == old(self).keeps_nonlatin(),
            final(self).size() == old(self).size(),
            match r {
                Some(b) => b@.len() == old(self).size() && final(self).batches() == old(
                    self,
                ).batches().push(b@.map_values(|x: NameRecord| x@)),
                None => final(self).batches() == old(self).batches(),
            },
    {
        let ghost old_lines = self.lines@;
        let ghost old_pending = self.pending_view();
        let ghost new_lines = old_lines.push(line@);
        proof {
            lemma_counts_add_up(old_lines, self.include_nonlatin);
            assert(new_lines.drop_last() =~= old_lines);
        }
        let outcome = parse_line(line, self.include_nonlatin);
        self.read = self.read + 1;
        self.lines = Ghost(new_lines);
        match outcome {
            LineOutcome::Accepted(rec) => {
                let ghost rv = rec@;
                self.accepted = self.accepted + 1;
                self.pending.push(rec);
                assert(self.pending_view() =~= old_pending.push(rv));
                if self.pending.len() == self.batch_size {
                    let mut batch: Vec<NameRecord> = Vec::new();
                    std::mem::swap(&mut batch, &mut self.pending);
                    let ghost bv = batch@.map_values(|x: NameRecord| x@);
                    proof {
                        let old_sent = self.sent@;
                        old_sent.lemma_flatten_push(bv);
                        self.sent = Ghost(old_sent.push(bv));
                        assert(self.pending_view() =~= Seq::<RecordView>::empty());
                        assert(self.sent@.flatten() + self.pending_view() =~= old_sent.flatten()
                            + bv);
                        assert(bv =~= old_pending.push(rv));
                    }
                    return Some(batch);
                }
                None
            },
            LineOutcome::Rejected(_) => {
                self.rejected = self.rejected + 1;
                None
            },
            LineOutcome::Skipped => {
                self.skipped = self.skipped + 1;
                None
            },
        }
    }

    /// Ends the pass: hands out the last, shorter batch if records are
    /// pending, and gives the run's counts. All batches handed out are the
    /// accepted records cut into batches of the importer's size.
    pub fn finish(self, source_file: String) -> (r: (Option<Vec<NameRecord>>, ImportSummary))
        requires
            self.wf(),
        ensures
            r.1.source_file@ == source_file@,
            r.1.read == self.lines().len(),
            r.1.accepted == accepted_of(self.lines(), self.keeps_nonlatin()).len(),
            r.1.rejected == rejected_of(self.lines(), self.keeps_nonlatin()),
            r.1.skipped == skipped_of(self.lines(), self.keeps_nonlatin()),
            r.1.read == r.1.accepted + r.1.rejected + r.1.skipped,
            chunks(accepted_of(self.lines(), self.keeps_nonlatin()), self.size()) == match r.0 {
                Some(b) => self.batches().push(b@.map_values(|x: NameRecord| x@)),
                None => self.batches(),
            },
            r.0 matches Some(b) ==> 0 < b@.len() < self.size(),
    {
        proof {
            lemma_counts_add_up(self.lines@, self.include_nonlatin);
            lemma_chunks_of_full_batches(self.sent@, self.pending_view(), self.batch_size as nat);
        }
        let summary = ImportSummary {
            source_file,
            read: self.read,
            accepted: self.accepted,
            rejected: self.rejected,
            skipped: self.skipped,
        };
        if self.pending.len() == 0 {
            (None, summary)
        } else {
            (Some(self.pending), summary)
        }
    }
}

/// The lines of a source file as character sequences.
pub open spec fn lines_view(lines: Seq<String>) -> Seq<Seq<char>> {
    lines.map_values(|l: String| l@)
}

/// Imports the lines of a source file into `store`: each full batch is
/// written as soon as it is handed out, then the last, shorter one. The table
/// ends as the accepted records written over it in source order, and the
/// summary counts the lines.
pub fn import_lines(
    lines: &Vec<String>,
    source_file: String,
    include_nonlatin: bool,
    batch_size: usize,
    store: &mut NameStore,
) -> (r: ImportSummary)
    requires
        old(store).wf(),
        batch_size > 0,
        lines@.len() < u64::MAX,
    ensures
        final(store).wf(),
        final(store).table() == apply_all(
            old(store).table(),
            accepted_of(lines_view(lines@), include_nonlatin),
        ),
        r.source_file@ == source_file@,
        r.read == lines@.len(),
        r.accepted == accepted_of(lines_view(lines@), include_nonlatin).len(),
        r.rejected == rejected_of(lines_view(lines@), include_nonlatin),
        r.skipped == skipped_of(lines_view(lines@), include_nonlatin),
        r.read == r.accepted + r.rejected + r.skipped,
{
    let ghost t0 = store.table();
    let ghost lv = lines_view(lines@);
    let mut importer = Importer::new(include_nonlatin, batch_size);
    let n = lines.len();
    let mut i: usize = 0;
    while i < n
        invariant
            n == lines@.len(),
            n < u64::MAX,
            lv == lines_view(lines@),
            i <= n,
            importer.wf(),
            importer.keeps_nonlatin() == include_nonlatin,
            importer.size() == batch_size,
            importer.lines() == lv.subrange(0, i as int),
            store.wf(),
            store.table() == apply_all(t0, importer.batches().flatten()),
        decreases n - i,
    {
        let ghost before = importer.batches();
        let batch = importer.feed_line(lines[i].as_str());
        assert(lv.subrange(0, i + 1) =~= lv.subrange(0, i as int).push(lines@[i as int]@));
        match batch {
            Some(b) => {
                proof {
                    let bv = b@.map_values(|x: NameRecord| x@);
                    before.lemma_flatten_push(bv);
                    lemma_apply_all_append(t0, before.flatten(), bv);
                }
                store.upsert_batch(&b);
            },
            None => {},
        }
        i = i + 1;
    }
    assert(lv.subrange(0, n as int) =~= lv);
    let ghost sent = importer.batches();
    let ghost acc = accepted_of(lv, include_nonlatin);
    let (last, summary) = importer.finish(source_file);
    proof {
        lemma_chunks_flatten(acc, batch_size as nat);
    }
    match last {
        Some(b) => {
            proof {
                let bv = b@.map_values(|x: NameRecord| x@);
                sent.lemma_flatten_push(bv);
                lemma_apply_all_append(t0, sent.flatten(), bv);
            }
            store.upsert_batch(&b);
        },
        None => {},
    }
    summary
}

} // verus!
