use jira_report::date::{default_date_range, last_day_of_month, Date};
use jira_report::hierarchy::write_hierarchy_tab;
use jira_report::jira::{
    extract_adf_text, issues_done, next_project_start, next_step, next_worklog_start, worklog_from_day, worklog_from_raw,
    worklogs_in_range, Issue, IssueFields, IssueType, JiraClient, JiraError, Json, ParentRef, RawWorklog,
    ResponseStep, Worklog,
};
use jira_report::job::{
    check_dates, content_disposition, issue_node, validate_dates, JobRun, JobState, JobStatus, RunAction, RunEvent, RunPhase,
};
use jira_report::report::{
    generate_workbook, group_worklogs, report_fits, total_worklog_seconds, write_summary_by_issue,
    write_summary_by_person, write_worklogs_tab, Cell, GroupBy, IssueNode,
};
use jira_report::text::{parse_u64, push_decimal, str_lt, trim};

fn d(year: i32, month: u32, day: u32) -> Date {
    Date { year, month, day }
}

fn wl(key: &str, summary: &str, author: &str, seconds: u64) -> Worklog {
    Worklog {
        issue_key: key.to_string(),
        issue_summary: summary.to_string(),
        author: author.to_string(),
        date: d(2024, 1, 15),
        seconds,
        comment: String::new(),
    }
}

fn node(key: &str, issue_type: &str, parent: Option<&str>, epic: Option<&str>) -> IssueNode {
    IssueNode {
        key: key.to_string(),
        summary: format!("{key} summary"),
        issue_type: issue_type.to_string(),
        parent_key: parent.map(String::from),
        epic_key: epic.map(String::from),
    }
}

fn text(c: &Cell) -> String {
    match c {
        Cell::Text(s) | Cell::Heading(s) => s.clone(),
        _ => panic!("not text"),
    }
}

fn secs(c: &Cell) -> u128 {
    match c {
        Cell::Hours(s) | Cell::HoursTotal(_, s) => *s,
        _ => panic!("not hours"),
    }
}

fn obj(members: Vec<(&str, Json)>) -> Json {
    Json::Object(members.into_iter().map(|(k, v)| (k.to_string(), v)).collect())
}

fn s(t: &str) -> Json {
    Json::Str(t.to_string())
}

// --- summaries -------------------------------------------------------------

#[test]
fn summaries_count_every_second_once() {
    let ws = vec![
        wl("B-2", "two", "Zoe", 100),
        wl("A-1", "one", "Adam", 200),
        wl("B-2", "two again", "Adam", 300),
        wl("C-3", "three", "Mia", 400),
    ];
    let total = total_worklog_seconds(&ws);
    assert_eq!(total, 1000);
    let by_person = group_worklogs(&ws, GroupBy::Author);
    let by_issue = group_worklogs(&ws, GroupBy::IssueKey);
    assert_eq!(by_person.iter().map(|g| g.seconds).sum::<u128>(), total);
    assert_eq!(by_issue.iter().map(|g| g.seconds).sum::<u128>(), total);
    let people: Vec<&str> = by_person.iter().map(|g| g.key.as_str()).collect();
    assert_eq!(people, ["Adam", "Mia", "Zoe"]);
    assert_eq!(by_person[0].seconds, 500);
}

#[test]
fn summary_by_issue_keeps_first_summary_and_total_row() {
    let ws = vec![wl("B-2", "two", "Zoe", 100), wl("A-1", "one", "Adam", 200), wl("B-2", "two again", "Adam", 300)];
    let sheet = write_summary_by_issue(&ws);
    assert_eq!(sheet.rows.len(), 4);
    assert_eq!(text(&sheet.rows[1][0]), "A-1");
    assert_eq!(text(&sheet.rows[2][0]), "B-2");
    assert_eq!(text(&sheet.rows[2][1]), "two");
    assert_eq!(secs(&sheet.rows[2][2]), 400);
    assert_eq!(text(&sheet.rows[3][0]), "Total");
    assert!(matches!(sheet.rows[3][1], Cell::Blank));
    match &sheet.rows[3][2] {
        Cell::HoursTotal(f, t) => {
            assert_eq!(f, "=SUM(C2:C3)");
            assert_eq!(*t, 600);
        },
        _ => panic!("expected total"),
    }
}

fn show(c: &Cell) -> String {
    match c {
        Cell::Blank => "_".to_string(),
        Cell::Text(t) => format!("T:{t}"),
        Cell::Heading(t) => format!("H:{t}"),
        Cell::Day(x) => format!("D:{}-{}-{}", x.year, x.month, x.day),
        Cell::Hours(h) => format!("S:{h}"),
        Cell::HoursTotal(f, h) => format!("F:{f}:{h}"),
    }
}

fn shown(rows: &[Vec<Cell>]) -> Vec<Vec<String>> {
    rows.iter().map(|r| r.iter().map(show).collect()).collect()
}

#[test]
fn summary_by_person_ignores_worklog_order() {
    let a = vec![wl("P-1", "a", "Bob", 60), wl("P-2", "b", "Ann", 30), wl("P-1", "a", "Bob", 15), wl("P-3", "c", "Cy", 1)];
    let b = vec![wl("P-3", "c", "Cy", 1), wl("P-1", "a", "Bob", 15), wl("P-2", "b", "Ann", 30), wl("P-1", "a", "Bob", 60)];
    let sa = write_summary_by_person(&a);
    let sb = write_summary_by_person(&b);
    assert_eq!(shown(&sa.rows), shown(&sb.rows));
    assert_eq!(shown(&sa.rows)[1], vec!["T:Ann".to_string(), "S:30".to_string()]);
    assert_eq!(shown(&sa.rows)[4], vec!["H:Total".to_string(), "F:=SUM(B2:B4):106".to_string()]);
}

#[test]
fn summary_by_person_total_row() {
    let ws = vec![wl("A-1", "one", "b", 7), wl("A-1", "one", "a", 3)];
    let sheet = write_summary_by_person(&ws);
    assert_eq!(text(&sheet.rows[0][1]), "Total Hours");
    assert_eq!(text(&sheet.rows[1][0]), "a");
    match &sheet.rows[3][1] {
        Cell::HoursTotal(f, t) => {
            assert_eq!(f, "=SUM(B2:B3)");
            assert_eq!(*t, 10);
        },
        _ => panic!("expected total"),
    }
}

#[test]
fn summaries_of_nothing_have_header_and_zero_total() {
    let sheet = write_summary_by_person(&[]);
    assert_eq!(sheet.rows.len(), 2);
    match &sheet.rows[1][1] {
        Cell::HoursTotal(f, t) => {
            assert_eq!(f, "=SUM(B2:B1)");
            assert_eq!(*t, 0);
        },
        _ => panic!("expected total"),
    }
}

#[test]
fn worklogs_tab_rows_follow_input() {
    let mut w = wl("X-9", "nine", "Ann", 5400);
    w.comment = "note".to_string();
    let sheet = write_worklogs_tab(&[w]);
    assert_eq!(text(&sheet.rows[0][3]), "Date");
    assert!(matches!(sheet.rows[1][3], Cell::Day(Date { year: 2024, month: 1, day: 15 })));
    assert_eq!(secs(&sheet.rows[1][4]), 5400);
    assert_eq!(text(&sheet.rows[1][5]), "note");
}

// --- hierarchy -------------------------------------------------------------

#[test]
fn hierarchy_layout_with_subtasks_and_orphans() {
    let ws = vec![wl("S-1", "", "a", 60), wl("T-1", "", "a", 30), wl("O-1", "", "a", 10), wl("E-1", "", "a", 5)];
    let ns = vec![
        node("E-1", "Epic", None, None),
        node("S-1", "Story", None, Some("E-1")),
        node("T-1", "Sub-task", Some("S-1"), Some("E-1")),
        node("O-1", "Task", None, Some("E-404")),
    ];
    let sheet = write_hierarchy_tab(&ws, &ns);
    let keys: Vec<String> = sheet.rows.iter().map(|r| match &r[0] {
        Cell::Text(s) | Cell::Heading(s) => s.clone(),
        _ => String::new(),
    }).collect();
    assert_eq!(keys, ["Key", "E-1", "  S-1", "    T-1", "(No Epic)", "  O-1"]);
    assert_eq!(secs(&sheet.rows[1][3]), 60);
    assert_eq!(secs(&sheet.rows[2][3]), 60);
    assert_eq!(secs(&sheet.rows[3][3]), 30);
    assert_eq!(secs(&sheet.rows[4][3]), 10);
    assert!(matches!(sheet.rows[4][1], Cell::Blank));
}

#[test]
fn hierarchy_without_orphans_has_no_no_epic_row() {
    let ns = vec![node("E-1", "Epic", None, None), node("S-1", "Story", None, Some("E-1"))];
    let sheet = write_hierarchy_tab(&[], &ns);
    assert_eq!(sheet.rows.len(), 3);
    assert_eq!(secs(&sheet.rows[1][3]), 0);
}

#[test]
fn report_fits_small_reports() {
    assert!(report_fits(&[wl("A-1", "", "a", u64::MAX)], &[node("A-1", "Task", None, None)]));
    let wb = generate_workbook(&[], &[]);
    assert_eq!(wb.sheets.len(), 4);
}

// --- text -------------------------------------------------------------------

#[test]
fn parse_u64_follows_std() {
    for t in ["0", "7", "+5", "007", "18446744073709551615", "", "+", "-1", " 5", "5s", "18446744073709551616"] {
        assert_eq!(parse_u64(t), t.parse::<u64>().ok(), "{t:?}");
    }
}

#[test]
fn trim_follows_std() {
    for t in ["  a b  ", "\u{3000}x\t\n", "", "   ", "\u{200B}y"] {
        assert_eq!(trim(t), t.trim(), "{t:?}");
    }
}

#[test]
fn str_order_follows_std() {
    let words = ["", "a", "ab", "b", "B", "é", "z"];
    for a in words {
        for b in words {
            assert_eq!(str_lt(a, b), a < b, "{a:?} {b:?}");
        }
    }
}

#[test]
fn push_decimal_writes_digits() {
    let mut s = String::from("n=");
    push_decimal(&mut s, 1234567890123456789012345);
    assert_eq!(s, "n=1234567890123456789012345");
}

// --- dates ------------------------------------------------------------------

#[test]
fn last_day_of_month_handles_leap_years_and_december() {
    assert_eq!(last_day_of_month(d(2024, 2, 10)), d(2024, 2, 29));
    assert_eq!(last_day_of_month(d(2023, 2, 1)), d(2023, 2, 28));
    assert_eq!(last_day_of_month(d(1900, 2, 1)), d(1900, 2, 28));
    assert_eq!(last_day_of_month(d(2000, 2, 1)), d(2000, 2, 29));
    assert_eq!(last_day_of_month(d(2026, 12, 31)), d(2026, 12, 31));
    assert_eq!(last_day_of_month(d(2026, 4, 3)), d(2026, 4, 30));
}

#[test]
fn default_range_is_the_current_month() {
    let (a, b) = default_date_range(d(2026, 3, 17));
    assert_eq!(a, "2026-03-01");
    assert_eq!(b, "2026-03-31");
}

// --- report requests and jobs ------------------------------------------------

#[test]
fn validate_dates_cases() {
    assert_eq!(validate_dates("2026-03-01", "2026-03-31"), Ok((d(2026, 3, 1), d(2026, 3, 31))));
    assert_eq!(validate_dates("2026-03-01", "2026-03-01"), Ok((d(2026, 3, 1), d(2026, 3, 1))));
    assert_eq!(validate_dates("03/01/2026", "2026-03-31"), Err("Invalid start_date format (expected YYYY-MM-DD)".to_string()));
    assert_eq!(validate_dates("2026-03-01", "2026-02-30"), Err("Invalid end_date format (expected YYYY-MM-DD)".to_string()));
    assert_eq!(validate_dates("2026-03-02", "2026-03-01"), Err("end_date must be after start_date".to_string()));
    assert_eq!(check_dates(None, None), Err("Invalid start_date format (expected YYYY-MM-DD)".to_string()));
    assert_eq!(check_dates(Some(d(2026, 3, 1)), None), Err("Invalid end_date format (expected YYYY-MM-DD)".to_string()));
    assert_eq!(check_dates(Some(d(2026, 3, 1)), Some(d(2025, 12, 31))), Err("end_date must be after start_date".to_string()));
    assert_eq!(check_dates(Some(d(2025, 12, 31)), Some(d(2026, 1, 1))), Ok((d(2025, 12, 31), d(2026, 1, 1))));
}

#[test]
fn job_status_and_download() {
    let mut job = JobState::new_pending("PROJ".to_string(), d(2026, 3, 1), d(2026, 3, 31), 1000);
    assert_eq!(job.status_view(), ("pending", None));
    assert!(job.download().is_none());
    job.set_status(JobStatus::Running, Some("Fetching issues…".to_string()));
    assert_eq!(job.status_view(), ("running", Some("Fetching issues…".to_string())));
    job.complete(vec![1, 2, 3]);
    assert_eq!(job.status_view(), ("done", None));
    let dl = job.download().expect("download");
    assert_eq!(dl.bytes, vec![1, 2, 3]);
    assert_eq!(dl.filename, "PROJ_2026-03-01_2026-03-31");
    assert_eq!(content_disposition(&dl.filename), "attachment; filename=\"PROJ_2026-03-01_2026-03-31.xlsx\"");
    job.set_status(JobStatus::Error, Some("boom".to_string()));
    assert_eq!(job.status_view(), ("error", Some("boom".to_string())));
    assert!(job.download().is_none());
}

#[test]
fn jobs_expire_after_an_hour() {
    let job = JobState::new_pending("P".to_string(), d(2026, 1, 1), d(2026, 1, 2), 10_000);
    assert!(job.keep(10_000));
    assert!(job.keep(3_609_999));
    assert!(!job.keep(3_610_000));
    assert!(job.keep(5));
}

fn issue(key: &str, kind: &str, parent: Option<&str>, epic: Option<&str>) -> Issue {
    Issue {
        key: key.to_string(),
        fields: IssueFields {
            summary: format!("{key} summary"),
            issuetype: IssueType { name: kind.to_string(), subtask: kind == "Sub-task" },
            parent: parent.map(|p| ParentRef { key: p.to_string() }),
            epic_link: epic.map(String::from),
        },
    }
}

#[test]
fn issue_node_takes_epic_from_link_or_itself() {
    let e = issue_node(&issue("E-1", "Epic", None, None));
    assert_eq!(e.epic_key.as_deref(), Some("E-1"));
    let s = issue_node(&issue("S-1", "Story", None, Some("E-1")));
    assert_eq!(s.epic_key.as_deref(), Some("E-1"));
    let t = issue_node(&issue("T-1", "Sub-task", Some("S-1"), None));
    assert_eq!(t.epic_key, None);
    assert_eq!(t.parent_key.as_deref(), Some("S-1"));
}

#[test]
fn job_run_goes_through_all_issues() {
    let (mut run, first) = JobRun::start();
    assert!(matches!(first, RunAction::SearchIssues { ref message } if message == "Fetching issues…"));
    let a = run.step(RunEvent::IssuesFetched(vec![issue("E-1", "Epic", None, None), issue("S-1", "Story", None, Some("E-1"))]));
    match a {
        RunAction::FetchWorklogs { message, issue_key } => {
            assert_eq!(message, "Fetching worklogs for issue 1/2…");
            assert_eq!(issue_key, "E-1");
        },
        _ => panic!("expected a worklog fetch"),
    }
    let a = run.step(RunEvent::WorklogsFetched(vec![]));
    match a {
        RunAction::FetchWorklogs { message, issue_key } => {
            assert_eq!(message, "Fetching worklogs for issue 2/2…");
            assert_eq!(issue_key, "S-1");
        },
        _ => panic!("expected a worklog fetch"),
    }
    let a = run.step(RunEvent::WorklogsFetched(vec![wl("", "", "Ann", 3600)]));
    match a {
        RunAction::Render { message, workbook } => {
            assert_eq!(message, "Generating Excel workbook…");
            assert_eq!(workbook.sheets.len(), 4);
        },
        _ => panic!("expected rendering"),
    }
    assert_eq!(run.worklogs[0].issue_key, "S-1");
    assert_eq!(run.worklogs[0].issue_summary, "S-1 summary");
    assert_eq!(run.nodes.len(), 2);
    let a = run.step(RunEvent::Rendered(vec![9]));
    assert!(matches!(a, RunAction::Complete { ref bytes } if bytes == &vec![9]));
    assert_eq!(run.phase, RunPhase::Finished);
    assert!(matches!(run.step(RunEvent::WorklogsFailed("late".to_string())), RunAction::Idle));
}

#[test]
fn job_run_fails_when_a_worklog_fetch_fails() {
    let (mut run, _) = JobRun::start();
    run.step(RunEvent::IssuesFetched(vec![issue("S-1", "Story", None, None), issue("S-2", "Story", None, None)]));
    let a = run.step(RunEvent::WorklogsFailed("Jira API returned 403 Forbidden".to_string()));
    assert!(matches!(a, RunAction::Fail { ref message } if message == "Jira API returned 403 Forbidden"));
    assert_eq!(run.phase, RunPhase::Finished);
    assert!(matches!(run.step(RunEvent::WorklogsFetched(vec![])), RunAction::Idle));
}

#[test]
fn job_status_follows_the_run() {
    let mut job = JobState::new_pending("PROJ".to_string(), d(2026, 3, 1), d(2026, 3, 31), 0);
    let mut seen: Vec<(JobStatus, Option<String>)> = Vec::new();
    let (mut run, mut action) = JobRun::start();
    let mut events = vec![
        RunEvent::IssuesFetched(vec![issue("S-1", "Story", None, None), issue("S-2", "Story", None, None)]),
        RunEvent::WorklogsFetched(vec![]),
        RunEvent::WorklogsFetched(vec![]),
        RunEvent::Rendered(vec![7]),
    ]
    .into_iter();
    loop {
        job.apply(&action);
        seen.push((job.status, job.message.clone()));
        match events.next() {
            Some(e) => action = run.step(e),
            None => break,
        }
    }
    let running = |m: &str| (JobStatus::Running, Some(m.to_string()));
    assert_eq!(
        seen,
        vec![
            running("Fetching issues…"),
            running("Fetching worklogs for issue 1/2…"),
            running("Fetching worklogs for issue 2/2…"),
            running("Generating Excel workbook…"),
            (JobStatus::Done, None),
        ]
    );
}

#[test]
fn job_records_the_actions_of_its_run() {
    let mut job = JobState::new_pending("PROJ".to_string(), d(2026, 3, 1), d(2026, 3, 31), 5);
    let (_, first) = JobRun::start();
    job.apply(&first);
    assert_eq!(job.status, JobStatus::Running);
    assert_eq!(job.message.as_deref(), Some("Fetching issues…"));
    job.apply(&RunAction::Fail { message: "Jira API returned 403 Forbidden".to_string() });
    assert_eq!(job.status, JobStatus::Error);
    assert_eq!(job.message.as_deref(), Some("Jira API returned 403 Forbidden"));
    assert!(job.bytes.is_none());
    job.apply(&RunAction::Complete { bytes: vec![1, 2] });
    assert_eq!(job.status, JobStatus::Done);
    assert_eq!(job.message, None);
    assert_eq!(job.bytes, Some(vec![1, 2]));
    job.apply(&RunAction::Idle);
    assert_eq!(job.status, JobStatus::Done);
    assert_eq!(job.project_key, "PROJ");
}

#[test]
fn job_run_fails_when_search_fails() {
    let (mut run, _) = JobRun::start();
    let a = run.step(RunEvent::IssuesFailed("Jira API returned 403 Forbidden".to_string()));
    assert!(matches!(a, RunAction::Fail { ref message } if message == "Jira API returned 403 Forbidden"));
    let (mut run, _) = JobRun::start();
    assert!(matches!(run.step(RunEvent::IssuesFetched(vec![])), RunAction::Render { .. }));
    assert!(matches!(run.step(RunEvent::RenderFailed("x".to_string())), RunAction::Fail { .. }));
}

// --- Jira ---------------------------------------------------------------------

#[test]
fn adf_text_is_collected_in_order_and_trimmed() {
    let doc = obj(vec![
        ("type", s("doc")),
        ("content", Json::Array(vec![
            obj(vec![("type", s("paragraph")), ("content", Json::Array(vec![
                obj(vec![("type", s("text")), ("text", s("  Fixed "))]),
                obj(vec![("text", s("the bug  ")), ("type", s("text"))]),
                obj(vec![("type", s("emoji")), ("text", s("!"))]),
            ]))]),
            Json::Other,
        ])),
    ]);
    assert_eq!(extract_adf_text(Some(&doc)), "Fixed the bug");
    assert_eq!(extract_adf_text(None), "");
    assert_eq!(extract_adf_text(Some(&Json::Array(vec![]))), "");
}

fn raw(started: &str) -> RawWorklog {
    RawWorklog {
        author: "Ann".to_string(),
        started: started.to_string(),
        time_spent_seconds: 5400,
        comment: Some(obj(vec![("type", s("text")), ("text", s(" hi "))])),
    }
}

#[test]
fn raw_worklogs_outside_the_range_are_dropped() {
    let w = worklog_from_raw(&raw("2026-03-15T09:00:00.000+0000"), d(2026, 3, 1), d(2026, 3, 31)).expect("kept");
    assert_eq!(w.date, d(2026, 3, 15));
    assert_eq!(w.seconds, 5400);
    assert_eq!(w.author, "Ann");
    assert_eq!(w.comment, "hi");
    assert_eq!(w.issue_key, "");
    assert!(worklog_from_raw(&raw("2026-04-01T00:00:00.000+0000"), d(2026, 3, 1), d(2026, 3, 31)).is_none());
    assert!(worklog_from_raw(&raw("2026-02-28T23:59:59.000+0000"), d(2026, 3, 1), d(2026, 3, 31)).is_none());
    assert!(worklog_from_raw(&raw("not a date at all"), d(2026, 3, 1), d(2026, 3, 31)).is_none());
    let r = raw("whatever");
    assert!(worklog_from_day(&r, None, d(2026, 3, 1), d(2026, 3, 31)).is_none());
    assert!(worklog_from_day(&r, Some(d(2026, 4, 1)), d(2026, 3, 1), d(2026, 3, 31)).is_none());
    let w = worklog_from_day(&r, Some(d(2026, 3, 31)), d(2026, 3, 1), d(2026, 3, 31)).expect("kept");
    assert_eq!(w.date, d(2026, 3, 31));
    assert_eq!(w.issue_key, "");
    let kept = worklogs_in_range(
        &[raw("2026-03-01T00:00:00.000+0000"), raw("2026-05-01T00:00:00.000+0000"), raw("2026-03-31T10:00:00.000+0000")],
        d(2026, 3, 1),
        d(2026, 3, 31),
    );
    let days: Vec<Date> = kept.iter().map(|w| w.date).collect();
    assert_eq!(days, [d(2026, 3, 1), d(2026, 3, 31)]);
}

#[test]
fn request_urls() {
    let c = JiraClient::new("https://x.atlassian.net".to_string(), "me@x".to_string(), "api-token".to_string());
    assert_eq!(c.project_search_url(50), "https://x.atlassian.net/rest/api/3/project/search?startAt=50&maxResults=50");
    assert_eq!(
        c.issue_search_url("PROJ", d(2024, 1, 1), d(2024, 1, 31), None),
        "https://x.atlassian.net/rest/api/3/search/jql?jql=project%20%3D%20%22PROJ%22%20AND%20worklogDate%20%3E%3D%20%222024-01-01%22%20AND%20worklogDate%20%3C%3D%20%222024-01-31%22%20ORDER%20BY%20key%20ASC&maxResults=100&fields=summary,issuetype,parent,customfield_10014"
    );
    let token = "abc".to_string();
    assert!(c.issue_search_url("P", d(2024, 1, 1), d(2024, 1, 2), Some(&token)).ends_with("customfield_10014&nextPageToken=abc"));
    assert_eq!(
        c.worklog_url("PROJ-7", d(2024, 1, 15), d(2024, 1, 15), 0),
        "https://x.atlassian.net/rest/api/3/issue/PROJ-7/worklog?startedAfter=1705276800000&startedBefore=1705363199000&startAt=0&maxResults=1000"
    );
    assert!(c.worklog_url("K", d(1969, 12, 31), d(1969, 12, 31), 1000).contains("startedAfter=-86400000&startedBefore=-1000&startAt=1000"));
}

#[test]
fn paging_decisions() {
    assert_eq!(next_project_start(0, false), Some(50));
    assert_eq!(next_project_start(50, true), None);
    let t = "t".to_string();
    assert!(issues_done(0, Some(&t)));
    assert!(issues_done(5, None));
    assert!(!issues_done(5, Some(&t)));
    assert_eq!(next_worklog_start(0, 1000, 2500), Some(1000));
    assert_eq!(next_worklog_start(2000, 500, 2500), None);
    assert_eq!(next_worklog_start(0, 0, 10), None);
}

#[test]
fn response_decisions() {
    assert!(matches!(next_step(0, 429, Some("7")), ResponseStep::Retry { wait_secs: 7 }));
    assert!(matches!(next_step(2, 429, Some("soon")), ResponseStep::Retry { wait_secs: 5 }));
    assert!(matches!(next_step(1, 429, None), ResponseStep::Retry { wait_secs: 5 }));
    assert!(matches!(next_step(3, 429, Some("9")), ResponseStep::Fail(JiraError::RateLimited { retry_after_secs: 9 })));
    assert!(matches!(next_step(0, 500, None), ResponseStep::ReadError { status: 500 }));
    assert!(matches!(next_step(0, 302, None), ResponseStep::ReadError { status: 302 }));
    assert!(matches!(next_step(0, 204, None), ResponseStep::ReadBody));
}

#[test]
fn error_messages() {
    assert_eq!(JiraError::ApiError { status: 403, body: "{\"errorMessages\":[]}".to_string() }.message(), "Jira API returned 403 Forbidden");
    assert_eq!(JiraError::ApiError { status: 500, body: "oops".to_string() }.message(), "Jira returned 500: oops");
    assert_eq!(JiraError::RateLimited { retry_after_secs: 30 }.message(), "Rate limited; retry after 30s");
    assert_eq!(JiraError::Parse("eof".to_string()).message(), "Failed to parse Jira response: eof");
    assert_eq!(JiraError::Network("timeout".to_string()).message(), "HTTP request failed: timeout");
}
