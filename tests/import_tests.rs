use alt_names::export::{escape_field, export_names, export_summary};
use alt_names::import::{import_lines, retry_delay, ImportSummary, Importer};
use alt_names::record::{non_latin, parse_line, split_fields, LineOutcome, RejectReason};
use alt_names::schema::{Catalog, Structure};
use alt_names::store::NameStore;
use alt_names::summary::SummaryTable;

fn lines(v: &[&str]) -> Vec<String> {
    v.iter().map(|s| s.to_string()).collect()
}

fn well_formed(n: usize) -> Vec<String> {
    (1..=n).map(|i| format!("{}\t{}\ten\tPlace {}", i, 1000 + i, i)).collect()
}

#[test]
fn split_keeps_empty_fields() {
    let f = split_fields("1\t\tx\t");
    assert_eq!(f, vec!["1", "", "x", ""]);
    assert_eq!(split_fields(""), vec![""]);
}

#[test]
fn parse_reads_all_fields() {
    match parse_line("7\t42\tfr\tParis\t1\t\t1\t\t\t", false) {
        LineOutcome::Accepted(r) => {
            assert_eq!(r.alt_id, 7);
            assert_eq!(r.geo_id, 42);
            assert_eq!(r.lang, "fr");
            assert_eq!(r.name, "Paris");
            assert!(r.preferred && !r.short && r.colloquial && !r.historic);
        }
        _ => panic!("expected a record"),
    }
}

#[test]
fn parse_rejects_each_malformed_kind() {
    assert!(matches!(parse_line("1\t2\ten", false), LineOutcome::Rejected(RejectReason::TooFewFields)));
    assert!(matches!(parse_line("x1\t2\ten\tA", false), LineOutcome::Rejected(RejectReason::BadIdentifier)));
    assert!(matches!(parse_line("1\t-2\ten\tA", false), LineOutcome::Rejected(RejectReason::BadPlaceIdentifier)));
    assert!(matches!(parse_line("1\t2\ten\t  ", false), LineOutcome::Rejected(RejectReason::EmptyName)));
    assert!(matches!(
        parse_line("18446744073709551616\t2\ten\tA", false),
        LineOutcome::Rejected(RejectReason::BadIdentifier)
    ));
}

#[test]
fn non_latin_names_are_skipped_only_when_excluded() {
    assert!(matches!(parse_line("1\t2\tru\tМосква", false), LineOutcome::Skipped));
    assert!(matches!(parse_line("1\t2\tru\tМосква", true), LineOutcome::Accepted(_)));
    assert!(matches!(parse_line("1\t2\tde\tMünchen", false), LineOutcome::Accepted(_)));
    assert!(non_latin("東京"));
    assert!(!non_latin("Zürich"));
    assert!(!non_latin("Ab東"));
}

#[test]
fn counts_add_up_for_mixed_input() {
    let input = lines(&["1\t1\ten\tA", "bad", "2\t1\tru\tМосква", "3\t1\ten\t", "4\t1\ten\tB"]);
    let mut store = NameStore::new();
    let s = import_lines(&input, "f.txt".to_string(), false, 2, &mut store);
    assert_eq!(s.read, 5);
    assert_eq!((s.accepted, s.rejected, s.skipped), (2, 2, 1));
    assert_eq!(s.read, s.accepted + s.rejected + s.skipped);
    assert_eq!(s.source_file, "f.txt");
}

#[test]
fn reimport_keeps_row_count() {
    let input = well_formed(5);
    let mut store = NameStore::new();
    import_lines(&input, "f".to_string(), false, 2, &mut store);
    let first = store.row_count();
    import_lines(&input, "f".to_string(), false, 2, &mut store);
    assert_eq!(store.row_count(), first);
    assert_eq!(first, 5);
}

#[test]
fn excluded_non_latin_never_stored_included_all_stored() {
    let input = lines(&["1\t1\ten\tA", "2\t1\tru\tМосква", "3\t1\tja\t東京"]);
    let mut store = NameStore::new();
    import_lines(&input, "f".to_string(), false, 10, &mut store);
    assert_eq!(store.row_count(), 1);
    assert!(store.rows().iter().all(|r| !non_latin(&r.name)));
    let mut store = NameStore::new();
    import_lines(&input, "f".to_string(), true, 10, &mut store);
    assert_eq!(store.row_count(), 3);
}

fn batch_sizes(input: &[String], b: usize) -> Vec<usize> {
    let mut imp = Importer::new(false, b);
    let mut sizes = Vec::new();
    for l in input {
        if let Some(batch) = imp.feed_line(l) {
            sizes.push(batch.len());
        }
    }
    let (last, _) = imp.finish("f".to_string());
    if let Some(batch) = last {
        sizes.push(batch.len());
    }
    sizes
}

#[test]
fn exactly_one_batch_for_batch_size_records() {
    assert_eq!(batch_sizes(&well_formed(4), 4), vec![4]);
}

#[test]
fn batch_size_plus_one_gives_two_batches() {
    assert_eq!(batch_sizes(&well_formed(5), 4), vec![4, 1]);
    assert_eq!(batch_sizes(&well_formed(0), 4), Vec::<usize>::new());
}

#[test]
fn seven_records_one_malformed_one_non_latin() {
    let input = lines(&[
        "1\t100\ten\tLondon",
        "2\t101\tfr\tParis\t1",
        "3\t102\tde\tMünchen",
        "4\t103\ten\tRome",
        "5\t104\tes\tSevilla",
        "6\t105\ten",
        "7\t106\tru\tМосква",
    ]);
    let mut store = NameStore::new();
    let s = import_lines(&input, "seven.txt".to_string(), false, 3, &mut store);
    assert_eq!(s.read, 7);
    assert_eq!(s.rejected, 1);
    assert_eq!(s.skipped, 1);
    assert_eq!(s.accepted, 5);
    assert_eq!(store.row_count(), 5);
}

#[test]
fn two_imports_of_three_records_leave_three_rows() {
    let input = well_formed(3);
    let mut store = NameStore::new();
    let a = import_lines(&input, "three.txt".to_string(), false, 2, &mut store);
    let b = import_lines(&input, "three.txt".to_string(), false, 2, &mut store);
    assert_eq!(store.row_count(), 3);
    assert_eq!((a.accepted, b.accepted), (3, 3));
    assert_eq!(b.rejected, 0);
}

#[test]
fn upsert_replaces_row_with_same_id() {
    let mut store = NameStore::new();
    import_lines(&lines(&["1\t1\ten\tOld"]), "f".to_string(), false, 1, &mut store);
    import_lines(&lines(&["1\t1\ten\tNew"]), "f".to_string(), false, 1, &mut store);
    assert_eq!(store.row_count(), 1);
    assert_eq!(store.rows()[0].name, "New");
}

#[test]
fn empty_exports_are_header_only() {
    let store = NameStore::new();
    assert_eq!(export_names(&store), "alt_id,geo_id,lang,name,preferred,short,colloquial,historic\n");
    let table = SummaryTable::new();
    assert_eq!(export_summary(&table, "x.txt"), "source_file,read,accepted,rejected,skipped\n");
}

#[test]
fn exports_write_rows() {
    let mut store = NameStore::new();
    import_lines(&lines(&["12\t34\ten\tA, \"B\"\t1"]), "f".to_string(), false, 5, &mut store);
    assert_eq!(
        export_names(&store),
        "alt_id,geo_id,lang,name,preferred,short,colloquial,historic\n12,34,en,\"A, \"\"B\"\"\",true,false,false,false\n"
    );
    let mut table = SummaryTable::new();
    table.summarise(ImportSummary { source_file: "a.txt".to_string(), read: 10, accepted: 7, rejected: 2, skipped: 1 });
    table.summarise(ImportSummary { source_file: "b.txt".to_string(), read: 1, accepted: 1, rejected: 0, skipped: 0 });
    assert_eq!(
        export_summary(&table, "a.txt"),
        "source_file,read,accepted,rejected,skipped\na.txt,10,7,2,1\n"
    );
}

#[test]
fn escaping_only_where_needed() {
    assert_eq!(escape_field("plain"), "plain");
    assert_eq!(escape_field("a\"b"), "\"a\"\"b\"");
    assert_eq!(escape_field("line\nbreak"), "\"line\nbreak\"");
}

#[test]
fn summarising_again_replaces_row() {
    let mut table = SummaryTable::new();
    table.summarise(ImportSummary { source_file: "a".to_string(), read: 1, accepted: 1, rejected: 0, skipped: 0 });
    table.summarise(ImportSummary { source_file: "a".to_string(), read: 2, accepted: 1, rejected: 1, skipped: 0 });
    assert_eq!(table.rows().len(), 1);
    assert_eq!(table.rows()[0].read, 2);
    assert!(table.find("b").is_none());
}

#[test]
fn schema_created_twice_has_no_duplicates() {
    let mut c = Catalog::new();
    c.create_schema();
    c.create_schema();
    assert!(c.has(Structure::NamesTable));
    assert!(c.has(Structure::SummaryTable));
    assert!(c.has(Structure::NameLanguageIndex));
}

#[test]
fn retries_back_off_then_give_up() {
    assert_eq!(retry_delay(1), Some(500));
    assert_eq!(retry_delay(2), Some(1000));
    assert_eq!(retry_delay(3), Some(2000));
    assert_eq!(retry_delay(4), None);
}

#[test]
fn failed_batch_counts_as_rejected() {
    let mut s = ImportSummary { source_file: "f".to_string(), read: 10, accepted: 8, rejected: 1, skipped: 1 };
    s.reject_batch(3);
    assert_eq!((s.read, s.accepted, s.rejected, s.skipped), (10, 5, 4, 1));
}
