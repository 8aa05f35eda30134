use jira_report::date::Date;
use jira_report::jira::Worklog;
use jira_report::report::{generate_workbook, Cell, IssueNode, Workbook};

// ---------------------------------------------------------------------------
// Helpers
// ---------------------------------------------------------------------------

fn wl(issue_key: &str, issue_summary: &str, author: &str, hours: f64) -> Worklog {
    Worklog {
        issue_key: issue_key.to_string(),
        issue_summary: issue_summary.to_string(),
        author: author.to_string(),
        date: Date { year: 2024, month: 1, day: 15 },
        seconds: (hours * 3600.0).round() as u64,
        comment: String::new(),
    }
}

fn node(
    key: &str,
    summary: &str,
    issue_type: &str,
    parent_key: Option<&str>,
    epic_key: Option<&str>,
) -> IssueNode {
    IssueNode {
        key: key.to_string(),
        summary: summary.to_string(),
        issue_type: issue_type.to_string(),
        parent_key: parent_key.map(String::from),
        epic_key: epic_key.map(String::from),
    }
}

fn sheet<'a>(wb: &'a Workbook, name: &str) -> &'a Vec<Vec<Cell>> {
    &wb.sheets.iter().find(|s| s.name == name).expect("sheet not found").rows
}

fn hours(seconds: u128) -> f64 {
    seconds as f64 / 3600.0
}

fn cell_str(wb: &Workbook, name: &str, row: usize, col: usize) -> String {
    match sheet(wb, name).get(row).and_then(|r| r.get(col)) {
        Some(Cell::Text(s)) | Some(Cell::Heading(s)) => s.clone(),
        Some(Cell::Hours(s)) | Some(Cell::HoursTotal(_, s)) => hours(*s).to_string(),
        Some(Cell::Day(d)) => format!("{:04}-{:02}-{:02}", d.year, d.month, d.day),
        Some(Cell::Blank) | None => String::new(),
    }
}

fn cell_float(wb: &Workbook, name: &str, row: usize, col: usize) -> f64 {
    match sheet(wb, name).get(row).and_then(|r| r.get(col)) {
        Some(Cell::Hours(s)) | Some(Cell::HoursTotal(_, s)) => hours(*s),
        _ => panic!("expected hours at ({row},{col})"),
    }
}

fn row_count(wb: &Workbook, name: &str) -> usize {
    sheet(wb, name).len()
}

// ---------------------------------------------------------------------------
// Tests
// ---------------------------------------------------------------------------

#[test]
fn workbook_has_four_sheets() {
    let wb = generate_workbook(&[], &[]);
    let names: Vec<String> = wb.sheets.iter().map(|s| s.name.clone()).collect();
    assert_eq!(names, ["Worklogs", "Summary by Person", "Summary by Issue", "Hierarchy"]);
}

#[test]
fn worklogs_tab_row_count() {
    let worklogs = vec![
        wl("PROJ-1", "Fix bug", "Alice", 2.0),
        wl("PROJ-2", "Add feature", "Bob", 3.0),
    ];
    let wb = generate_workbook(&worklogs, &[]);
    // 1 header row + 2 data rows
    assert_eq!(row_count(&wb, "Worklogs"), 3);
}

#[test]
fn worklogs_tab_cell_values() {
    let worklogs = vec![wl("PROJ-1", "Fix bug", "Alice", 2.5)];
    let wb = generate_workbook(&worklogs, &[]);
    assert_eq!(cell_str(&wb, "Worklogs", 1, 0), "PROJ-1");
    assert_eq!(cell_str(&wb, "Worklogs", 1, 1), "Fix bug");
    assert_eq!(cell_str(&wb, "Worklogs", 1, 2), "Alice");
    assert_eq!(cell_float(&wb, "Worklogs", 1, 4), 2.5);
}

#[test]
fn summary_by_person_aggregates_hours() {
    let worklogs = vec![
        wl("PROJ-1", "Fix bug", "Alice", 2.0),
        wl("PROJ-2", "Add feature", "Alice", 1.5),
        wl("PROJ-3", "Review", "Bob", 3.0),
    ];
    let wb = generate_workbook(&worklogs, &[]);
    // Rows are sorted alphabetically by author: Alice (row 1), Bob (row 2)
    assert_eq!(cell_str(&wb, "Summary by Person", 1, 0), "Alice");
    assert_eq!(cell_float(&wb, "Summary by Person", 1, 1), 3.5);
    assert_eq!(cell_str(&wb, "Summary by Person", 2, 0), "Bob");
    assert_eq!(cell_float(&wb, "Summary by Person", 2, 1), 3.0);
}

#[test]
fn summary_by_issue_aggregates_hours() {
    let worklogs = vec![
        wl("PROJ-1", "Fix bug", "Alice", 2.0),
        wl("PROJ-1", "Fix bug", "Bob", 1.0),
        wl("PROJ-2", "Add feature", "Alice", 4.0),
    ];
    let wb = generate_workbook(&worklogs, &[]);
    // Sorted by issue key: PROJ-1 (row 1), PROJ-2 (row 2)
    assert_eq!(cell_str(&wb, "Summary by Issue", 1, 0), "PROJ-1");
    assert_eq!(cell_float(&wb, "Summary by Issue", 1, 2), 3.0);
    assert_eq!(cell_str(&wb, "Summary by Issue", 2, 0), "PROJ-2");
    assert_eq!(cell_float(&wb, "Summary by Issue", 2, 2), 4.0);
}

#[test]
fn hierarchy_epic_rolls_up_hours() {
    let worklogs = vec![
        wl("PROJ-2", "Story 1", "Alice", 3.0),
        wl("PROJ-3", "Sub-task 1", "Bob", 2.0),
    ];
    let issues = vec![
        node("EPIC-1", "Big feature", "Epic", None, None),
        node("PROJ-2", "Story 1", "Story", None, Some("EPIC-1")),
        node("PROJ-3", "Sub-task 1", "Sub-task", Some("PROJ-2"), Some("EPIC-1")),
    ];
    let wb = generate_workbook(&worklogs, &issues);
    // Row 1: epic row — total is sum of direct hours on immediate children only (not sub-tasks)
    // PROJ-2 has 3.0 direct hours; PROJ-3's 2.0 hours are not rolled up to the epic
    assert_eq!(cell_str(&wb, "Hierarchy", 1, 0), "EPIC-1");
    assert_eq!(cell_float(&wb, "Hierarchy", 1, 3), 3.0);
}

#[test]
fn hierarchy_orphan_issues_appear_under_no_epic() {
    let worklogs = vec![wl("PROJ-1", "Orphan task", "Alice", 4.0)];
    let issues = vec![node("PROJ-1", "Orphan task", "Story", None, None)];
    let wb = generate_workbook(&worklogs, &issues);
    assert_eq!(cell_str(&wb, "Hierarchy", 1, 0), "(No Epic)");
}
