//! Tests for aggregation, the report builder, the diff engine and the
//! persisted baseline.

use crate_report::baseline::parse_baseline;
use crate_report::report::{build_report, Diff, FileEntry, Report};
use crate_report::stats::CodeStats;

fn rec(
    static_mut_items: u64,
    total_fns: u64,
    total_lines: u64,
    total_statements: u64,
    unsafe_fns: u64,
    unsafe_statements: u64,
    unwraps: u64,
) -> CodeStats {
    CodeStats {
        static_mut_items,
        total_fns,
        total_lines,
        total_statements,
        unsafe_fns,
        unsafe_statements,
        unwraps,
    }
}

fn report_of(entries: Vec<(&str, CodeStats)>) -> Report {
    build_report(
        entries
            .into_iter()
            .map(|(name, stats)| FileEntry { filename: name.to_string(), stats })
            .collect(),
    )
}

#[test]
fn sum_is_order_independent() {
    let a = rec(1, 2, 3, 4, 5, 6, 7);
    let b = rec(7, 6, 5, 4, 3, 2, 1);
    let c = rec(10, 0, 0, 0, 0, 0, 9);
    let one = CodeStats::sum(&vec![a, b, c]);
    let two = CodeStats::sum(&vec![c, a, b]);
    let three = CodeStats::sum(&vec![b, c, a]);
    assert_eq!(one, two);
    assert_eq!(two, three);
}

#[test]
fn sum_adds_every_field_exactly_once() {
    // Each counter, static_mut_items included, contributes exactly once
    // to the total: aggregation is plain field-wise addition.
    let a = rec(1, 10, 100, 1000, 2, 20, 200);
    let b = rec(2, 1, 1, 1, 1, 1, 1);
    let total = CodeStats::sum(&vec![a, b]);
    assert_eq!(total.static_mut_items, 3);
    assert_eq!(total.total_fns, 11);
    assert_eq!(total.total_lines, 101);
    assert_eq!(total.total_statements, 1001);
    assert_eq!(total.unsafe_fns, 3);
    assert_eq!(total.unsafe_statements, 21);
    assert_eq!(total.unwraps, 201);
}

#[test]
fn sum_of_empty_is_zero() {
    let total = CodeStats::sum(&Vec::new());
    assert_eq!(total, rec(0, 0, 0, 0, 0, 0, 0));
}

#[test]
fn sum_saturates_instead_of_wrapping() {
    let a = rec(u64::MAX, 0, 0, 0, 0, 0, 0);
    let b = rec(1, 0, 0, 0, 0, 0, 0);
    let total = CodeStats::sum(&vec![a, b]);
    assert_eq!(total.static_mut_items, u64::MAX);
}

#[test]
fn build_report_sorts_and_totals() {
    let r = report_of(vec![
        ("b.rs", rec(0, 1, 10, 5, 0, 0, 1)),
        ("a.rs", rec(1, 2, 20, 6, 1, 3, 0)),
    ]);
    assert_eq!(r.files.len(), 2);
    assert_eq!(r.files[0].filename, "a.rs");
    assert_eq!(r.files[1].filename, "b.rs");
    assert_eq!(r.total, rec(1, 3, 30, 11, 1, 3, 1));
}

#[test]
fn build_report_is_order_independent() {
    let x = rec(0, 1, 10, 5, 0, 0, 1);
    let y = rec(1, 2, 20, 6, 1, 3, 0);
    let one = report_of(vec![("b.rs", x), ("a.rs", y)]);
    let two = report_of(vec![("a.rs", y), ("b.rs", x)]);
    assert_eq!(one.files.len(), two.files.len());
    assert_eq!(one.files[0].filename, two.files[0].filename);
    assert_eq!(one.files[0].stats, two.files[0].stats);
    assert_eq!(one.files[1].filename, two.files[1].filename);
    assert_eq!(one.files[1].stats, two.files[1].stats);
    assert_eq!(one.total, two.total);
}

#[test]
fn build_report_later_duplicate_wins() {
    let r = report_of(vec![
        ("a.rs", rec(0, 1, 1, 1, 0, 0, 0)),
        ("a.rs", rec(0, 2, 2, 2, 0, 0, 0)),
    ]);
    assert_eq!(r.files.len(), 1);
    assert_eq!(r.files[0].stats, rec(0, 2, 2, 2, 0, 0, 0));
    assert_eq!(r.total, rec(0, 2, 2, 2, 0, 0, 0));
}

#[test]
fn diff_of_report_with_itself_is_empty() {
    let r = report_of(vec![
        ("a.rs", rec(1, 2, 3, 4, 1, 6, 7)),
        ("b.rs", rec(0, 1, 1, 1, 0, 0, 0)),
    ]);
    let d = r.diff(&r);
    assert_eq!(d.changes.len(), 0);
    assert_eq!(d.before_total, d.after_total);
}

#[test]
fn cosmetic_changes_are_dropped_from_the_diff() {
    // The two records differ only in total_lines, total_fns and
    // total_statements: the file must not appear in the diff.
    let current = report_of(vec![("a.rs", rec(1, 9, 900, 90, 2, 3, 4))]);
    let baseline = report_of(vec![("a.rs", rec(1, 2, 100, 10, 2, 3, 4))]);
    let d = current.diff(&baseline);
    assert_eq!(d.changes.len(), 0);
    // the totals still differ, and both are always reported
    assert_ne!(d.before_total, d.after_total);
}

#[test]
fn unwrap_change_alone_is_reported() {
    let current = report_of(vec![("a.rs", rec(1, 2, 100, 10, 2, 3, 9))]);
    let baseline = report_of(vec![("a.rs", rec(1, 2, 100, 10, 2, 3, 4))]);
    let d = current.diff(&baseline);
    assert_eq!(d.changes.len(), 1);
    assert_eq!(d.changes[0].0, "a.rs");
    match &d.changes[0].1 {
        Diff::Changed(change) => {
            assert_eq!(change.before.unwraps, 4);
            assert_eq!(change.after.unwraps, 9);
        }
        _ => panic!("expected a changed entry"),
    }
}

#[test]
fn added_and_removed_files_are_classified() {
    let only_current = rec(0, 1, 10, 5, 1, 2, 3);
    let only_baseline = rec(4, 5, 6, 7, 0, 1, 2);
    let shared = rec(0, 0, 0, 0, 0, 0, 0);
    let current = report_of(vec![("new.rs", only_current), ("same.rs", shared)]);
    let baseline = report_of(vec![("old.rs", only_baseline), ("same.rs", shared)]);
    let d = current.diff(&baseline);
    assert_eq!(d.changes.len(), 2);
    assert_eq!(d.changes[0].0, "new.rs");
    match &d.changes[0].1 {
        Diff::Added(stats) => assert_eq!(*stats, only_current),
        _ => panic!("expected an added entry"),
    }
    assert_eq!(d.changes[1].0, "old.rs");
    match &d.changes[1].1 {
        Diff::Removed(stats) => assert_eq!(*stats, only_baseline),
        _ => panic!("expected a removed entry"),
    }
}

#[test]
fn diff_changes_are_sorted_by_filename() {
    let current = report_of(vec![
        ("c.rs", rec(0, 0, 0, 0, 1, 0, 0)),
        ("a.rs", rec(0, 0, 0, 0, 1, 0, 0)),
    ]);
    let baseline = report_of(vec![("b.rs", rec(0, 0, 0, 0, 1, 0, 0))]);
    let d = current.diff(&baseline);
    assert_eq!(d.changes.len(), 3);
    assert_eq!(d.changes[0].0, "a.rs");
    assert_eq!(d.changes[1].0, "b.rs");
    assert_eq!(d.changes[2].0, "c.rs");
}

fn baseline_headers() -> Vec<String> {
    CodeStats::csv_headers().into_iter().collect()
}

fn baseline_row(filename: &str, fields: [&str; 7]) -> Vec<String> {
    let mut row = vec![filename.to_string()];
    for f in fields.iter() {
        row.push(f.to_string());
    }
    row
}

#[test]
fn parse_baseline_reads_rows() {
    let rows = vec![
        baseline_row("b.rs", ["1", "2", "3", "4", "1", "6", "7"]),
        baseline_row("a.rs", ["0", "1", "10", "5", "0", "0", "2"]),
    ];
    let report = parse_baseline(&baseline_headers(), &rows).expect("valid baseline");
    assert_eq!(report.files.len(), 2);
    assert_eq!(report.files[0].filename, "a.rs");
    assert_eq!(report.files[0].stats, rec(0, 1, 10, 5, 0, 0, 2));
    assert_eq!(report.files[1].filename, "b.rs");
    assert_eq!(report.files[1].stats, rec(1, 2, 3, 4, 1, 6, 7));
    assert_eq!(report.total, rec(1, 3, 13, 9, 1, 6, 9));
}

#[test]
fn parse_baseline_rejects_wrong_headers() {
    let mut headers = baseline_headers();
    headers[1] = "statics".to_string();
    let rows = vec![baseline_row("a.rs", ["0", "0", "0", "0", "0", "0", "0"])];
    assert!(parse_baseline(&headers, &rows).is_none());
    let short: Vec<String> = baseline_headers().into_iter().take(7).collect();
    assert!(parse_baseline(&short, &rows).is_none());
}

#[test]
fn parse_baseline_skips_unreadable_rows() {
    let rows = vec![
        baseline_row("good.rs", ["0", "1", "2", "3", "0", "0", "0"]),
        baseline_row("bad.rs", ["zero", "1", "2", "3", "0", "0", "0"]),
        vec!["short.rs".to_string(), "1".to_string()],
    ];
    let report = parse_baseline(&baseline_headers(), &rows).expect("valid baseline");
    assert_eq!(report.files.len(), 1);
    assert_eq!(report.files[0].filename, "good.rs");
}

#[test]
fn parse_baseline_later_duplicate_wins() {
    let rows = vec![
        baseline_row("a.rs", ["0", "1", "1", "1", "0", "0", "0"]),
        baseline_row("a.rs", ["0", "2", "2", "2", "0", "0", "0"]),
    ];
    let report = parse_baseline(&baseline_headers(), &rows).expect("valid baseline");
    assert_eq!(report.files.len(), 1);
    assert_eq!(report.files[0].stats, rec(0, 2, 2, 2, 0, 0, 0));
}

#[test]
fn csv_row_round_trip() {
    let stats = rec(1, 22, 333, 4444, 5, 66, 777);
    let row = stats.to_csv_row("src/lib.rs".to_string());
    assert_eq!(row[0], "src/lib.rs");
    assert_eq!(row[1], "1");
    assert_eq!(row[2], "22");
    assert_eq!(row[3], "333");
    assert_eq!(row[4], "4444");
    assert_eq!(row[5], "5");
    assert_eq!(row[6], "66");
    assert_eq!(row[7], "777");
    let borrowed: [&str; 8] = [
        &row[0], &row[1], &row[2], &row[3], &row[4], &row[5], &row[6], &row[7],
    ];
    let (name, parsed) = CodeStats::from_csv_row(&borrowed).expect("readable row");
    assert_eq!(name, "src/lib.rs");
    assert_eq!(parsed, stats);
}

#[test]
fn from_csv_row_rejects_bad_numbers() {
    let row: [&str; 8] = ["f.rs", "1", "2", "x", "4", "5", "6", "7"];
    assert!(CodeStats::from_csv_row(&row).is_none());
}

#[test]
fn csv_headers_match_the_persisted_format() {
    let headers = CodeStats::csv_headers();
    assert_eq!(
        headers,
        [
            "filename".to_string(),
            "static_mut_items".to_string(),
            "total_fns".to_string(),
            "total_lines".to_string(),
            "total_statements".to_string(),
            "unsafe_fns".to_string(),
            "unsafe_statements".to_string(),
            "unwraps".to_string(),
        ]
    );
}
