//! CSV snapshots of the stored names and of the summary of one source file.
//! Fields are separated by commas and lines end with a newline; a field that
//! holds a comma, a quote or a line break is quoted, its quotes doubled.

use vstd::prelude::*;
use crate::import::ImportSummary;
use crate::record::{NameRecord, RecordView};
use crate::store::NameStore;
use crate::summary::{SummaryTable, SummaryView};
use crate::text::{decimal_text, u64_text};

verus! {

/// Whether a field must be quoted.
pub open spec fn needs_quotes(s: Seq<char>) -> bool {
    exists|i: int|
        0 <= i < s.len() && (#[trigger] s[i] == ',' || s[i] == '"' || s[i] == '\n' || s[i]
            == '\r')
}

/// `s` with each quote doubled.
pub open spec fn doubled_quotes(s: Seq<char>) -> Seq<char>
    decreases s.len(),
{
    if s.len() == 0 {
        Seq::empty()
    } else if s.last() == '"' {
        doubled_quotes(s.drop_last()) + seq!['"', '"']
    } else {
        doubled_quotes(s.drop_last()).push(s.last())
    }
}

proof fn lemma_no_quotes(s: Seq<char>)
    requires
        forall|i: int| 0 <= i < s.len() ==> #[trigger] s[i] != '"',
    ensures
        doubled_quotes(s) == s,
    decreases s.len(),
{
    if s.len() > 0 {
        lemma_no_quotes(s.drop_last());
        assert(doubled_quotes(s.drop_last()).push(s.last()) =~= s);
    }
}

/// A field as written in the file.
pub open spec fn csv_field(s: Seq<char>) -> Seq<char> {
    if needs_quotes(s) {
        seq!['"'] + doubled_quotes(s) + seq!['"']
    } else {
        s
    }
}

/// Writes one field, quoting it where needed.
pub fn escape_field(s: &str) -> (r: String)
    ensures
        r@ == csv_field(s@),
{
    let n = s.unicode_len();
    let mut body = String::new();
    let mut quote = false;
    let mut i: usize = 0;
    proof {
        reveal_strlit("\"\"");
    }
    while i < n
        invariant
            n == s@.len(),
            i <= n,
            body@ == doubled_quotes(s@.subrange(0, i as int)),
            quote == exists|j: int|
                0 <= j < i && (#[trigger] s@[j] == ',' || s@[j] == '"' || s@[j] == '\n' || s@[j]
                    == '\r'),
        decreases n - i,
    {
        let c = s.get_char(i);
        assert(s@.subrange(0, i + 1).drop_last() =~= s@.subrange(0, i as int));
        if c == '"' {
            body.append("\"\"");
            proof {
                reveal_strlit("\"\"");
            }
            assert("\"\""@ =~= seq!['"', '"']);
        } else {
            body.append(s.substring_char(i, i + 1));
            assert(s@.subrange(i as int, i + 1) =~= seq![c]);
        }
        if c == ',' || c == '"' || c == '\n' || c == '\r' {
            quote = true;
        }
        i = i + 1;
    }
    assert(s@.subrange(0, n as int) =~= s@);
    assert(quote == needs_quotes(s@));
    if quote {
        let mut r = String::from_str("\"");
        r.append(body.as_str());
        r.append("\"");
        proof {
            reveal_strlit("\"");
            assert("\""@ =~= seq!['"']);
        }
        assert(r@ =~= seq!['"'] + doubled_quotes(s@) + seq!['"']);
        r
    } else {
        proof {
            lemma_no_quotes(s@);
        }
        body
    }
}

/// `true` or `false`.
pub open spec fn bool_text(b: bool) -> Seq<char> {
    if b {
        "true"@
    } else {
        "false"@
    }
}

fn bool_field(b: bool) -> (r: &'static str)
    ensures
        r@ == bool_text(b),
{
    if b {
        "true"
    } else {
        "false"
    }
}

/// The header of the names file.
pub open spec fn names_header() -> Seq<char> {
    "alt_id,geo_id,lang,name,preferred,short,colloquial,historic\n"@
}

/// One line of the names file.
pub open spec fn name_line(r: RecordView) -> Seq<char> {
    decimal_text(r.alt_id as nat) + ","@ + decimal_text(r.geo_id as nat) + ","@ + csv_field(
        r.lang,
    ) + ","@ + csv_field(r.name) + ","@ + bool_text(r.preferred) + ","@ + bool_text(r.short)
        + ","@ + bool_text(r.colloquial) + ","@ + bool_text(r.historic) + "\n"@
}

/// The lines for `rows`, in order.
pub open spec fn name_lines(rows: Seq<RecordView>) -> Seq<char>
    decreases rows.len(),
{
    if rows.len() == 0 {
        Seq::empty()
    } else {
        name_lines(rows.drop_last()) + name_line(rows.last())
    }
}

/// Writes one stored row as a line.
pub fn write_name_line(r: &NameRecord) -> (s: String)
    ensures
        s@ == name_line(r@),
{
    let mut s = u64_text(r.alt_id);
    s.append(",");
    s.append(u64_text(r.geo_id).as_str());
    s.append(",");
    s.append(escape_field(r.lang.as_str()).as_str());
    s.append(",");
    s.append(escape_field(r.name.as_str()).as_str());
    s.append(",");
    s.append(bool_field(r.preferred));
    s.append(",");
    s.append(bool_field(r.short));
    s.append(",");
    s.append(bool_field(r.colloquial));
    s.append(",");
    s.append(bool_field(r.historic));
    s.append("\n");
    s
}

/// The names file: its header, then one line per stored row in storage order
/// (each row of the table once); with no rows stored it is the header alone.
pub fn export_names(store: &NameStore) -> (r: String)
    requires
        store.wf(),
    ensures
        r@ == names_header() + name_lines(store.rows_view()),
        store.table().dom().len() == 0 ==> r@ == names_header(),
{
    let rows = store.rows();
    let ghost rv = rows@.map_values(|x: NameRecord| x@);
    let mut out = String::from_str("alt_id,geo_id,lang,name,preferred,short,colloquial,historic\n");
    let n = rows.len();
    let mut i: usize = 0;
    while i < n
        invariant
            n == rows@.len(),
            rv == rows@.map_values(|x: NameRecord| x@),
            i <= n,
            out@ == names_header() + name_lines(rv.subrange(0, i as int)),
        decreases n - i,
    {
        let line = write_name_line(&rows[i]);
        assert(rv.subrange(0, i + 1).drop_last() =~= rv.subrange(0, i as int));
        out.append(line.as_str());
        assert(out@ =~= names_header() + name_lines(rv.subrange(0, i + 1)));
        i = i + 1;
    }
    assert(rv.subrange(0, n as int) =~= rv);
    proof {
        if store.table().dom().len() == 0 {
            crate::store::lemma_apply_all_len(rv);
            assert(rv.len() == 0);
            assert(out@ =~= names_header());
        }
    }
    out
}

/// The header of the summary file.
pub open spec fn summary_header() -> Seq<char> {
    "source_file,read,accepted,rejected,skipped\n"@
}

/// One line of the summary file.
pub open spec fn summary_line(s: SummaryView) -> Seq<char> {
    csv_field(s.source_file) + ","@ + decimal_text(s.read as nat) + ","@ + decimal_text(
        s.accepted as nat,
    ) + ","@ + decimal_text(s.rejected as nat) + ","@ + decimal_text(s.skipped as nat) + "\n"@
}

/// Writes one summary row as a line.
pub fn write_summary_line(s: &ImportSummary) -> (r: String)
    ensures
        r@ == summary_line(s@),
{
    let mut r = escape_field(s.source_file.as_str());
    r.append(",");
    r.append(u64_text(s.read).as_str());
    r.append(",");
    r.append(u64_text(s.accepted).as_str());
    r.append(",");
    r.append(u64_text(s.rejected).as_str());
    r.append(",");
    r.append(u64_text(s.skipped).as_str());
    r.append("\n");
    r
}

/// The summary file for one source: the header, then that source's row if it
/// has been summarised. Without a row it is the header alone, never an error.
pub fn export_summary(table: &SummaryTable, source_file: &str) -> (r: String)
    requires
        table.wf(),
    ensures
        (forall|i: int|
            0 <= i < table.rows_view().len() ==> #[trigger] table.rows_view()[i].source_file
                != source_file@) ==> r@ == summary_header(),
        (exists|i: int|
            0 <= i < table.rows_view().len() && #[trigger] table.rows_view()[i].source_file
                == source_file@) ==> exists|i: int|
            0 <= i < table.rows_view().len() && #[trigger] table.rows_view()[i].source_file
                == source_file@ && r@ == summary_header() + summary_line(table.rows_view()[i]),
{
    let mut out = String::from_str("source_file,read,accepted,rejected,skipped\n");
    match table.find(source_file) {
        Some(s) => {
            out.append(write_summary_line(s).as_str());
        },
        None => {},
    }
    out
}

} // verus!
