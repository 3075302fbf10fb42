use notedoctor::models::{DiagnosticReport, NoteIssue};

#[test]
fn new_report_is_empty() {
    let report = DiagnosticReport::new();
    assert_eq!(report.total_notes, 0);
    assert_eq!(report.total_assets, 0);
    assert!(report.broken_links.is_empty());
    assert!(report.orphan_notes.is_empty());
    assert!(report.dead_assets.is_empty());
    assert_eq!(report.total_issues(), 0);
}

#[test]
fn total_issues_adds_all_three_kinds() {
    let mut report = DiagnosticReport::new();
    report.broken_links.push(NoteIssue::BrokenLink { file: "a.md".to_string(), link: "x".to_string() });
    report.broken_links.push(NoteIssue::BrokenLink { file: "a.md".to_string(), link: "y".to_string() });
    report.orphan_notes.push(NoteIssue::OrphanNote { file: "b.md".to_string() });
    report.dead_assets.push(NoteIssue::DeadAsset { file: "c.png".to_string() });
    assert_eq!(report.total_issues(), 4);
}
