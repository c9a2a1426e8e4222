use solast::render::report_to_text;
use solast::report::{sort_by_line, Entry, Report};

fn entry(line: Option<usize>, text: &str) -> Entry {
    Entry { line, text: text.to_string() }
}

fn lines_of(report: &Report, i: usize) -> Vec<(Option<usize>, String)> {
    report.file_entries(i).iter().map(|e| (e.line, e.text.clone())).collect()
}

#[test]
fn new_report_is_empty() {
    let report = Report::new();
    assert_eq!(report.file_count(), 0);
    assert_eq!(report_to_text(&report), "");
}

#[test]
fn add_entry_groups_by_file_in_first_reported_order() {
    let mut report = Report::new();
    report.add_entry("b.sol".to_string(), Some(3), "first".to_string());
    report.add_entry("a.sol".to_string(), None, "second".to_string());
    report.add_entry("b.sol".to_string(), Some(1), "third".to_string());
    assert_eq!(report.file_count(), 2);
    assert_eq!(report.file_path(0), "b.sol");
    assert_eq!(report.file_path(1), "a.sol");
    assert_eq!(lines_of(&report, 0), vec![(Some(3), "first".to_string()), (Some(1), "third".to_string())]);
    assert_eq!(lines_of(&report, 1), vec![(None, "second".to_string())]);
}

#[test]
fn add_entry_leaves_other_files_alone() {
    let mut report = Report::new();
    report.add_entry("x.sol".to_string(), Some(1), "one".to_string());
    report.add_entry("y.sol".to_string(), Some(2), "two".to_string());
    report.add_entry("y.sol".to_string(), Some(3), "three".to_string());
    assert_eq!(lines_of(&report, 0), vec![(Some(1), "one".to_string())]);
    assert_eq!(lines_of(&report, 1).len(), 2);
}

#[test]
fn sort_entries_orders_by_line_and_keeps_ties_in_order() {
    let mut report = Report::new();
    report.add_entry("c.sol".to_string(), Some(9), "nine".to_string());
    report.add_entry("c.sol".to_string(), None, "none-a".to_string());
    report.add_entry("c.sol".to_string(), Some(2), "two-a".to_string());
    report.add_entry("c.sol".to_string(), Some(0), "zero".to_string());
    report.add_entry("c.sol".to_string(), Some(2), "two-b".to_string());
    report.sort_entries();
    assert_eq!(
        lines_of(&report, 0),
        vec![
            (None, "none-a".to_string()),
            (Some(0), "zero".to_string()),
            (Some(2), "two-a".to_string()),
            (Some(2), "two-b".to_string()),
            (Some(9), "nine".to_string()),
        ]
    );
}

#[test]
fn sort_entries_twice_is_sorting_once() {
    let mut report = Report::new();
    for (line, text) in [(Some(5), "e"), (Some(1), "a"), (None, "n"), (Some(1), "b")] {
        report.add_entry("d.sol".to_string(), line, text.to_string());
    }
    report.sort_entries();
    let once = lines_of(&report, 0);
    report.sort_entries();
    assert_eq!(lines_of(&report, 0), once);
}

#[test]
fn sort_by_line_is_stable() {
    let entries = vec![entry(Some(4), "p"), entry(Some(1), "q"), entry(Some(4), "r"), entry(None, "s")];
    let sorted: Vec<(Option<usize>, String)> = sort_by_line(&entries).iter().map(|e| (e.line, e.text.clone())).collect();
    assert_eq!(
        sorted,
        vec![
            (None, "s".to_string()),
            (Some(1), "q".to_string()),
            (Some(4), "p".to_string()),
            (Some(4), "r".to_string()),
        ]
    );
}

#[test]
fn report_text_lists_files_with_tabbed_entries() {
    let mut report = Report::new();
    report.add_entry("a.sol".to_string(), Some(12), "found".to_string());
    report.add_entry("a.sol".to_string(), None, "no line".to_string());
    report.add_entry("b.sol".to_string(), Some(1), "other".to_string());
    assert_eq!(report_to_text(&report), "a.sol:\n\tL12: found\n\tno line\n\nb.sol:\n\tL1: other\n");
}

#[test]
fn entry_copy_keeps_fields() {
    let e = entry(Some(7), "seven");
    let c = e.copy();
    assert_eq!(c.line, Some(7));
    assert_eq!(c.text, "seven");
}
