//! One line of the source file: its fields, its checks, and whether its name
//! is written in Latin script.
//!
//! A line holds tab-separated fields: the alternate-name identifier, the
//! identifier of the place it names, a language tag, the name itself, and
//! four optional flags (preferred, short, colloquial, historic) written `1`
//! when set. Further fields are ignored.

use vstd::prelude::*;
use crate::text::{blank, is_blank, parse_u64, u64_value};

verus! {

/// A record read from one accepted line.
pub struct NameRecord {
    pub alt_id: u64,
    pub geo_id: u64,
    pub lang: String,
    pub name: String,
    pub preferred: bool,
    pub short: bool,
    pub colloquial: bool,
    pub historic: bool,
}

/// The mathematical value of a record.
pub struct RecordView {
    pub alt_id: u64,
    pub geo_id: u64,
    pub lang: Seq<char>,
    pub name: Seq<char>,
    pub preferred: bool,
    pub short: bool,
    pub colloquial: bool,
    pub historic: bool,
}

impl View for NameRecord {
    type V = RecordView;

    open spec fn view(&self) -> RecordView {
        RecordView {
            alt_id: self.alt_id,
            geo_id: self.geo_id,
            lang: self.lang@,
            name: self.name@,
            preferred: self.preferred,
            short: self.short,
            colloquial: self.colloquial,
            historic: self.historic,
        }
    }
}

impl NameRecord {
    /// A copy of the record.
    pub fn duplicate(&self) -> (r: NameRecord)
        ensures
            r@ == self@,
    {
        NameRecord {
            alt_id: self.alt_id,
            geo_id: self.geo_id,
            lang: self.lang.clone(),
            name: self.name.clone(),
            preferred: self.preferred,
            short: self.short,
            colloquial: self.colloquial,
            historic: self.historic,
        }
    }
}

/// Why a line was refused.
#[derive(Debug, Clone, Copy, PartialEq, Eq)]
pub enum RejectReason {
    TooFewFields,
    BadIdentifier,
    BadPlaceIdentifier,
    EmptyName,
}

/// What became of one line.
pub enum LineOutcome {
    Accepted(NameRecord),
    Rejected(RejectReason),
    Skipped,
}

/// The mathematical value of a line's outcome.
pub enum LineClass {
    Accepted(RecordView),
    Rejected(RejectReason),
    Skipped,
}

impl View for LineOutcome {
    type V = LineClass;

    open spec fn view(&self) -> LineClass {
        match self {
            LineOutcome::Accepted(r) => LineClass::Accepted(r@),
            LineOutcome::Rejected(e) => LineClass::Rejected(*e),
            LineOutcome::Skipped => LineClass::Skipped,
        }
    }
}

/// The fields of a line: the text between tabs, from first to last.
pub open spec fn split_tabs(s: Seq<char>) -> Seq<Seq<char>>
    decreases s.len(),
{
    if s.len() == 0 {
        seq![Seq::<char>::empty()]
    } else {
        let rest = split_tabs(s.drop_last());
        if s.last() == '\t' {
            rest.push(Seq::<char>::empty())
        } else {
            rest.update(rest.len() - 1, rest.last().push(s.last()))
        }
    }
}

/// Whether a character belongs to the Latin blocks (Basic Latin, Latin-1,
/// Latin Extended-A and -B, the IPA and spacing-modifier blocks, combining
/// marks, Latin Extended Additional) or to general punctuation.
pub open spec fn is_latin_char(c: char) -> bool {
    let u = c as u32;
    u < 0x0370 || (0x1E00 <= u && u < 0x1F00) || (0x2000 <= u && u < 0x2070)
}

/// The number of characters of `s` outside the Latin blocks.
pub open spec fn non_latin_count(s: Seq<char>) -> nat
    decreases s.len(),
{
    if s.len() == 0 {
        0
    } else {
        non_latin_count(s.drop_last()) + if is_latin_char(s.last()) { 0nat } else { 1nat }
    }
}

/// A name is non-Latin when most of its characters are outside the Latin
/// blocks.
pub open spec fn is_non_latin(s: Seq<char>) -> bool {
    2 * non_latin_count(s) > s.len()
}

/// Whether the flag field at `i` is set.
pub open spec fn flag_at(f: Seq<Seq<char>>, i: int) -> bool {
    i < f.len() && f[i] == seq!['1']
}

/// What a line gives: refused where it has fewer than four fields, where its
/// identifier or its place identifier is not a number, or where its name is
/// blank; otherwise a record, which is skipped where non-Latin names are not
/// wanted and its name is non-Latin.
pub open spec fn line_outcome(s: Seq<char>, include_nonlatin: bool) -> LineClass {
    let f = split_tabs(s);
    if f.len() < 4 {
        LineClass::Rejected(RejectReason::TooFewFields)
    } else if u64_value(f[0]) is None {
        LineClass::Rejected(RejectReason::BadIdentifier)
    } else if u64_value(f[1]) is None {
        LineClass::Rejected(RejectReason::BadPlaceIdentifier)
    } else if is_blank(f[3]) {
        LineClass::Rejected(RejectReason::EmptyName)
    } else if !include_nonlatin && is_non_latin(f[3]) {
        LineClass::Skipped
    } else {
        LineClass::Accepted(
            RecordView {
                alt_id: u64_value(f[0])->Some_0,
                geo_id: u64_value(f[1])->Some_0,
                lang: f[2],
                name: f[3],
                preferred: flag_at(f, 4),
                short: flag_at(f, 5),
                colloquial: flag_at(f, 6),
                historic: flag_at(f, 7),
            },
        )
    }
}

/// Splits a line at its tabs.
pub fn split_fields(line: &str) -> (r: Vec<String>)
    ensures
        r@.map_values(|f: String| f@) == split_tabs(line@),
{
    let n = line.unicode_len();
    let mut fields: Vec<String> = Vec::new();
    let mut start: usize = 0;
    let mut i: usize = 0;
    assert(line@.subrange(0, 0) =~= Seq::<char>::empty());
    assert(fields@.map_values(|f: String| f@).push(line@.subrange(0, 0)) =~= seq![
        Seq::<char>::empty(),
    ]);
    while i < n
        invariant
            n == line@.len(),
            start <= i <= n,
            split_tabs(line@.subrange(0, i as int)) == fields@.map_values(|f: String| f@).push(
                line@.subrange(start as int, i as int),
            ),
        decreases n - i,
    {
        let c = line.get_char(i);
        let ghost prev = fields@.map_values(|f: String| f@);
        assert(line@.subrange(0, i + 1).drop_last() =~= line@.subrange(0, i as int));
        if c == '\t' {
            let piece = String::from_str(line.substring_char(start, i));
            fields.push(piece);
            assert(fields@.map_values(|f: String| f@) =~= prev.push(
                line@.subrange(start as int, i as int),
            ));
            start = i + 1;
        } else {
            assert(line@.subrange(start as int, i + 1) =~= line@.subrange(start as int, i as int).push(c));
        }
        i = i + 1;
        proof {
            if c == '\t' {
                assert(line@.subrange(start as int, i as int) =~= Seq::<char>::empty());
            }
        }
    }
    let last = String::from_str(line.substring_char(start, n));
    fields.push(last);
    assert(line@.subrange(0, n as int) =~= line@);
    assert(fields@.map_values(|f: String| f@) =~= split_tabs(line@));
    fields
}

/// Tests whether most characters of `name` lie outside the Latin blocks.
pub fn non_latin(name: &str) -> (r: bool)
    ensures
        r == is_non_latin(name@),
{
    let n = name.unicode_len();
    let mut count: usize = 0;
    let mut i: usize = 0;
    while i < n
        invariant
            n == name@.len(),
            i <= n,
            count <= i,
            count == non_latin_count(name@.subrange(0, i as int)),
        decreases n - i,
    {
        let c = name.get_char(i);
        let u = c as u32;
        assert(name@.subrange(0, i + 1).drop_last() =~= name@.subrange(0, i as int));
        if !(u < 0x0370 || (0x1E00 <= u && u < 0x1F00) || (0x2000 <= u && u < 0x2070)) {
            count = count + 1;
        }
        i = i + 1;
    }
    assert(name@.subrange(0, n as int) =~= name@);
    count > n - count
}

/// Tests whether the flag field at `i` is set.
fn flag_set(fields: &Vec<String>, i: usize) -> (r: bool)
    ensures
        r == flag_at(fields@.map_values(|f: String| f@), i as int),
{
    let ghost fv = fields@.map_values(|f: String| f@);
    if i >= fields.len() {
        return false;
    }
    let f = fields[i].as_str();
    let r = f.unicode_len() == 1 && f.get_char(0) == '1';
    proof {
        assert(fv[i as int] == f@);
        if r {
            assert(f@ =~= seq!['1']);
        }
        if fv[i as int] == seq!['1'] {
            assert(f@.len() == 1);
        }
    }
    r
}

/// Reads one line of the source file.
pub fn parse_line(line: &str, include_nonlatin: bool) -> (r: LineOutcome)
    ensures
        r@ == line_outcome(line@, include_nonlatin),
{
    let fields = split_fields(line);
    let ghost f = fields@.map_values(|x: String| x@);
    if fields.len() < 4 {
        return LineOutcome::Rejected(RejectReason::TooFewFields);
    }
    assert(f[0] == fields@[0]@ && f[1] == fields@[1]@ && f[2] == fields@[2]@ && f[3]
        == fields@[3]@);
    let alt_id = match parse_u64(fields[0].as_str()) {
        Some(v) => v,
        None => return LineOutcome::Rejected(RejectReason::BadIdentifier),
    };
    let geo_id = match parse_u64(fields[1].as_str()) {
        Some(v) => v,
        None => return LineOutcome::Rejected(RejectReason::BadPlaceIdentifier),
    };
    if blank(fields[3].as_str()) {
        return LineOutcome::Rejected(RejectReason::EmptyName);
    }
    if !include_nonlatin && non_latin(fields[3].as_str()) {
        return LineOutcome::Skipped;
    }
    let preferred = flag_set(&fields, 4);
    let short = flag_set(&fields, 5);
    let colloquial = flag_set(&fields, 6);
    let historic = flag_set(&fields, 7);
    let lang = fields[2].clone();
    let name = fields[3].clone();
    LineOutcome::Accepted(
        NameRecord { alt_id, geo_id, lang, name, preferred, short, colloquial, historic },
    )
}

} // verus!
