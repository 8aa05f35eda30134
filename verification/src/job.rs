//! Report jobs: their states, what the status and download endpoints answer
//! for them, the checks on a report request, and the steps of a running job.

use vstd::prelude::*;
use crate::date::{Date, iso_text, parse_iso_date, parsed_date, date_to_text};
use crate::hierarchy::{IssueNode, hierarchy_fits};
use crate::jira::{Issue, Worklog};
use crate::report::{Workbook, generate_workbook, is_report, report_fits};
use crate::text::{decimal, owned, push_decimal, push_str};

verus! {

/// Where a job stands.
#[derive(Clone, Copy, Debug, PartialEq, Eq, Structural)]
pub enum JobStatus {
    Pending,
    Running,
    Done,
    Error,
}

/// The name of a status in the answers of the status endpoint.
pub open spec fn status_text(s: JobStatus) -> Seq<char> {
    match s {
        JobStatus::Pending => "pending"@,
        JobStatus::Running => "running"@,
        JobStatus::Done => "done"@,
        JobStatus::Error => "error"@,
    }
}

impl JobStatus {
    /// The name of the status in the answers of the status endpoint.
    pub fn label(&self) -> (s: &'static str)
        ensures
            s@ == status_text(*self),
    {
        match self {
            JobStatus::Pending => "pending",
            JobStatus::Running => "running",
            JobStatus::Done => "done",
            JobStatus::Error => "error",
        }
    }
}

/// A report job.
pub struct JobState {
    pub status: JobStatus,
    /// Progress or error text.
    pub message: Option<String>,
    /// The finished workbook.
    pub bytes: Option<Vec<u8>>,
    pub project_key: String,
    pub start_date: Date,
    pub end_date: Date,
    /// When the job was created, in milliseconds of a monotonic clock.
    pub created_at_ms: u64,
}

/// Jobs are kept for an hour.
pub const JOB_TTL_MS: u64 = 3_600_000;

/// The file name (without extension) of a job's workbook: project, start and end.
pub open spec fn download_name(j: JobState) -> Seq<char> {
    j.project_key@ + seq!['_'] + iso_text(j.start_date) + seq!['_'] + iso_text(j.end_date)
}

/// The `Content-Disposition` value that offers a workbook under `name`.
pub open spec fn disposition_text(name: Seq<char>) -> Seq<char> {
    "attachment; filename=\""@ + name + ".xlsx\""@
}

/// A workbook ready for download.
pub struct Download {
    pub bytes: Vec<u8>,
    /// The file name, without extension.
    pub filename: String,
}

impl JobState {
    /// A job that waits to run.
    pub fn new_pending(project_key: String, start_date: Date, end_date: Date, created_at_ms: u64) -> (j: JobState)
        ensures
            j.status == JobStatus::Pending,
            j.message is None,
            j.bytes is None,
            j.project_key@ == project_key@,
            j.start_date == start_date,
            j.end_date == end_date,
            j.created_at_ms == created_at_ms,
    {
        JobState { status: JobStatus::Pending, message: None, bytes: None, project_key, start_date, end_date, created_at_ms }
    }

    /// Sets status and message; nothing else changes.
    pub fn set_status(&mut self, status: JobStatus, message: Option<String>)
        ensures
            final(self).status == status,
            final(self).message == message,
            final(self).bytes == old(self).bytes,
            final(self).project_key == old(self).project_key,
            final(self).start_date == old(self).start_date,
            final(self).end_date == old(self).end_date,
            final(self).created_at_ms == old(self).created_at_ms,
    {
        self.status = status;
        self.message = message;
    }

    /// Marks the job done with its workbook; the message is cleared.
    pub fn complete(&mut self, bytes: Vec<u8>)
        ensures
            final(self).status == JobStatus::Done,
            final(self).message is None,
            final(self).bytes == Some(bytes),
            final(self).project_key == old(self).project_key,
            final(self).start_date == old(self).start_date,
            final(self).end_date == old(self).end_date,
            final(self).created_at_ms == old(self).created_at_ms,
    {
        self.status = JobStatus::Done;
        self.bytes = Some(bytes);
        self.message = None;
    }

    /// What the status endpoint answers: the status name, and the message
    /// unless the job is done.
    pub fn status_view(&self) -> (r: (&'static str, Option<String>))
        ensures
            r.0@ == status_text(self.status),
            self.status == JobStatus::Done ==> r.1 is None,
            self.status != JobStatus::Done ==> r.1 == self.message,
    {
        let message = match self.status {
            JobStatus::Done => None,
            _ => match &self.message {
                Some(m) => Some(m.clone()),
                None => None,
            },
        };
        (self.status.label(), message)
    }

    /// What the download endpoint hands out: the workbook and its file name,
    /// only for a job that is done and holds a workbook.
    pub fn download(&self) -> (r: Option<Download>)
        requires
            self.start_date.valid(),
            self.end_date.valid(),
        ensures
            (self.status == JobStatus::Done && self.bytes is Some) <==> r is Some,
            r matches Some(d) ==> d.bytes@ == self.bytes->0@ && d.filename@ == download_name(*self),
    {
        if self.status != JobStatus::Done {
            return None;
        }
        let bytes = match &self.bytes {
            Some(b) => b.clone(),
            None => return None,
        };
        let mut filename = String::new();
        push_str(&mut filename, self.project_key.as_str());
        push_str(&mut filename, "_");
        let s = date_to_text(self.start_date);
        push_str(&mut filename, s.as_str());
        push_str(&mut filename, "_");
        let e = date_to_text(self.end_date);
        push_str(&mut filename, e.as_str());
        proof {
            reveal_strlit("_");
        }
        assert(filename@ =~= download_name(*self));
        Some(Download { bytes, filename })
    }

    /// Whether the job is still kept at `now_ms` (same clock as `created_at_ms`):
    /// jobs older than an hour are dropped.
    pub fn keep(&self, now_ms: u64) -> (r: bool)
        ensures
            r == (if now_ms >= self.created_at_ms {
                now_ms - self.created_at_ms < 3_600_000
            } else {
                true
            }),
    {
        now_ms.saturating_sub(self.created_at_ms) < JOB_TTL_MS
    }
}

/// `after` is `before` with the status and message that action `a` gives:
/// the search, the fetches and the writing of the workbook set Running with
/// their message; completion sets Done with the workbook and no message; a
/// failure sets Error with its message; `Idle` changes nothing. Project,
/// dates and creation time never change.
pub open spec fn applied(before: JobState, a: RunAction, after: JobState) -> bool {
    &&& after.project_key == before.project_key
    &&& after.start_date == before.start_date
    &&& after.end_date == before.end_date
    &&& after.created_at_ms == before.created_at_ms
    &&& match a {
        RunAction::SearchIssues { message } => running_with(before, message@, after),
        RunAction::FetchWorklogs { message, issue_key: _ } => running_with(before, message@, after),
        RunAction::Render { message, workbook: _ } => running_with(before, message@, after),
        RunAction::Complete { bytes } => {
            &&& after.status == JobStatus::Done
            &&& after.message is None
            &&& after.bytes matches Some(b) && b@ == bytes@
        },
        RunAction::Fail { message } => {
            &&& after.status == JobStatus::Error
            &&& after.message matches Some(m) && m@ == message@
            &&& after.bytes == before.bytes
        },
        RunAction::Idle => after == before,
    }
}

/// `after` is `before` running with progress text `message`.
pub open spec fn running_with(before: JobState, message: Seq<char>, after: JobState) -> bool {
    &&& after.status == JobStatus::Running
    &&& after.message matches Some(m) && m@ == message
    &&& after.bytes == before.bytes
}

impl JobState {
    /// Records in the job what an action of its run says of it.
    pub fn apply(&mut self, a: &RunAction)
        ensures
            applied(*old(self), *a, *final(self)),
    {
        match a {
            RunAction::SearchIssues { message } => self.set_status(JobStatus::Running, Some(message.clone())),
            RunAction::FetchWorklogs { message, issue_key: _ } => self.set_status(JobStatus::Running, Some(message.clone())),
            RunAction::Render { message, workbook: _ } => self.set_status(JobStatus::Running, Some(message.clone())),
            RunAction::Complete { bytes } => {
                let b = bytes.clone();
                assert(b@ =~= bytes@);
                self.complete(b);
            },
            RunAction::Fail { message } => self.set_status(JobStatus::Error, Some(message.clone())),
            RunAction::Idle => {},
        }
    }
}

/// The `Content-Disposition` header that offers a workbook under `filename`.
pub fn content_disposition(filename: &str) -> (s: String)
    ensures
        s@ == disposition_text(filename@),
{
    let mut s = String::new();
    push_str(&mut s, "attachment; filename=\"");
    push_str(&mut s, filename);
    push_str(&mut s, ".xlsx\"");
    assert(s@ =~= disposition_text(filename@));
    s
}

// ---------------------------------------------------------------------------
// Report requests
// ---------------------------------------------------------------------------

/// Why a report request with the dates `start` and `end`, as read (`None`
/// where a text could not be read), is refused.
pub open spec fn dates_error(start: Option<Date>, end: Option<Date>) -> Option<Seq<char>> {
    match (start, end) {
        (None, _) => Some("Invalid start_date format (expected YYYY-MM-DD)"@),
        (Some(_), None) => Some("Invalid end_date format (expected YYYY-MM-DD)"@),
        (Some(s), Some(e)) => if e.spec_before_or_same(s) && e != s {
            Some("end_date must be after start_date"@)
        } else {
            None
        },
    }
}

/// Why a report request with the date texts `start` and `end` is refused.
pub open spec fn form_error(start: Seq<char>, end: Seq<char>) -> Option<Seq<char>> {
    dates_error(parsed_date(start), parsed_date(end))
}

/// Checks the dates of a report request as read (`None` where a text could
/// not be read as `YYYY-MM-DD`): both must be there, and the end may not lie
/// before the start. Gives the two dates, or the message of the refusal.
pub fn check_dates(start: Option<Date>, end: Option<Date>) -> (r: Result<(Date, Date), String>)
    ensures
        match r {
            Ok((s, e)) => dates_error(start, end) is None && start == Some(s) && end == Some(e),
            Err(m) => dates_error(start, end) == Some(m@),
        },
{
    let start = match start {
        Some(d) => d,
        None => return Err(owned("Invalid start_date format (expected YYYY-MM-DD)")),
    };
    let end = match end {
        Some(d) => d,
        None => return Err(owned("Invalid end_date format (expected YYYY-MM-DD)")),
    };
    if end.before_or_same(&start) && end != start {
        return Err(owned("end_date must be after start_date"));
    }
    Ok((start, end))
}

/// Checks the dates of a report request: both must read as `YYYY-MM-DD`, and
/// the end may not lie before the start. Gives the two dates, or the message
/// of the refusal.
pub fn validate_dates(start_text: &str, end_text: &str) -> (r: Result<(Date, Date), String>)
    ensures
        match r {
            Ok((s, e)) => form_error(start_text@, end_text@) is None && parsed_date(start_text@) == Some(s)
                && parsed_date(end_text@) == Some(e) && s.valid() && e.valid(),
            Err(m) => form_error(start_text@, end_text@) == Some(m@),
        },
{
    let start = parse_iso_date(start_text);
    let end = parse_iso_date(end_text);
    check_dates(start, end)
}

// ---------------------------------------------------------------------------
// Running a job
// ---------------------------------------------------------------------------

/// A fetched worklog with the key and summary of its issue filled in.
pub open spec fn attached(w: Worklog, issue: Issue) -> Worklog {
    Worklog { issue_key: issue.key, issue_summary: issue.fields.summary, ..w }
}

/// The hierarchy entry of an issue: its epic is its epic link, or the issue
/// itself when it is an epic without one.
pub open spec fn node_of(issue: Issue) -> IssueNode {
    IssueNode {
        key: issue.key,
        summary: issue.fields.summary,
        issue_type: issue.fields.issuetype.name,
        parent_key: match issue.fields.parent {
            Some(p) => Some(p.key),
            None => None,
        },
        epic_key: match issue.fields.epic_link {
            Some(e) => Some(e),
            None => if issue.fields.issuetype.name@ == "Epic"@ {
                Some(issue.key)
            } else {
                None
            },
        },
    }
}

/// Builds the hierarchy entry of an issue.
pub fn issue_node(issue: &Issue) -> (n: IssueNode)
    ensures
        n == node_of(*issue),
{
    let parent_key = match &issue.fields.parent {
        Some(p) => Some(p.key.clone()),
        None => None,
    };
    let epic = owned("Epic");
    let epic_key = match &issue.fields.epic_link {
        Some(e) => Some(e.clone()),
        None => if issue.fields.issuetype.name == epic {
            Some(issue.key.clone())
        } else {
            None
        },
    };
    IssueNode {
        key: issue.key.clone(),
        summary: issue.fields.summary.clone(),
        issue_type: issue.fields.issuetype.name.clone(),
        parent_key,
        epic_key,
    }
}

/// The progress text while the worklogs of issue `i` (from 0) of `total` are fetched.
pub open spec fn worklog_progress_text(i: nat, total: nat) -> Seq<char> {
    "Fetching worklogs for issue "@ + decimal(i + 1) + seq!['/'] + decimal(total) + seq!['…']
}

fn worklog_progress(i: usize, total: usize) -> (s: String)
    requires
        i < total,
    ensures
        s@ == worklog_progress_text(i as nat, total as nat),
{
    let mut s = String::new();
    push_str(&mut s, "Fetching worklogs for issue ");
    push_decimal(&mut s, (i + 1) as u128);
    push_str(&mut s, "/");
    push_decimal(&mut s, total as u128);
    push_str(&mut s, "…");
    proof {
        reveal_strlit("/");
        reveal_strlit("…");
    }
    assert(s@ =~= worklog_progress_text(i as nat, total as nat));
    s
}

/// The stage a running job is in.
#[derive(Clone, Copy, Debug, PartialEq, Eq, Structural)]
pub enum RunPhase {
    /// Waiting for the issues of the project.
    Searching,
    /// Waiting for the worklogs of issue `next`.
    Fetching,
    /// Waiting for the workbook to be written.
    Rendering,
    /// Nothing more to do.
    Finished,
}

/// What the job runner reports back.
pub enum RunEvent {
    IssuesFetched(Vec<Issue>),
    IssuesFailed(String),
    WorklogsFetched(Vec<Worklog>),
    /// The worklogs of the current issue could not be fetched; the text of the error.
    WorklogsFailed(String),
    Rendered(Vec<u8>),
    RenderFailed(String),
}

/// What the job runner is to do next; each action but `Idle` also sets the
/// status of the job.
pub enum RunAction {
    /// Set status Running with `message`, then search the issues of the job.
    SearchIssues { message: String },
    /// Set status Running with `message`, then fetch the worklogs of `issue_key`.
    FetchWorklogs { message: String, issue_key: String },
    /// Set status Running with `message`, then write `workbook` out.
    Render { message: String, workbook: Workbook },
    /// Set status Done with the workbook `bytes`.
    Complete { bytes: Vec<u8> },
    /// Set status Error with `message`.
    Fail { message: String },
    /// Nothing to do.
    Idle,
}

/// The decisions of one report job.
pub struct JobRun {
    pub phase: RunPhase,
    pub issues: Vec<Issue>,
    /// The issue whose worklogs are awaited.
    pub next: usize,
    pub worklogs: Vec<Worklog>,
    pub nodes: Vec<IssueNode>,
}

/// The worklogs gathered so far, plus `fetched` attached to `issue`.
pub open spec fn with_attached(ws: Seq<Worklog>, fetched: Seq<Worklog>, issue: Issue) -> Seq<Worklog> {
    ws + fetched.map_values(|w: Worklog| attached(w, issue))
}

/// The action that follows once `next` issues are done: fetch the worklogs
/// of the next issue, or, when none is left, write the workbook out.
pub open spec fn advance_ok(run: JobRun, a: RunAction) -> bool {
    if run.next < run.issues@.len() {
        &&& run.phase == RunPhase::Fetching
        &&& a matches RunAction::FetchWorklogs { message, issue_key }
        &&& message@ == worklog_progress_text(run.next as nat, run.issues@.len())
        &&& issue_key == run.issues@[run.next as int].key
    } else if hierarchy_fits(run.nodes@, run.worklogs@) {
        &&& run.phase == RunPhase::Rendering
        &&& a matches RunAction::Render { message, workbook }
        &&& message@ == "Generating Excel workbook…"@
        &&& is_report(workbook, run.worklogs@, run.nodes@)
    } else {
        &&& run.phase == RunPhase::Finished
        &&& a matches RunAction::Fail { message }
        &&& message@ == "Report totals exceed the supported range"@
    }
}

/// What one step of a run does: `after` and the action `a` follow from
/// `before` and the event. A failure ends the run with its message; a
/// fetched page of issues or worklogs moves on to the next issue, or to the
/// workbook; a written workbook completes the run; an event that does not
/// fit the phase changes nothing and asks for nothing.
pub open spec fn step_ok(before: JobRun, event: RunEvent, after: JobRun, a: RunAction) -> bool {
    match (before.phase, event) {
        (RunPhase::Searching, RunEvent::IssuesFetched(issues)) => {
            &&& after.issues == issues
            &&& after.next == 0
            &&& after.worklogs == before.worklogs
            &&& after.nodes == before.nodes
            &&& advance_ok(after, a)
        },
        (RunPhase::Searching, RunEvent::IssuesFailed(m)) => {
            &&& after == (JobRun { phase: RunPhase::Finished, ..before })
            &&& a matches RunAction::Fail { message } && message == m
        },
        (RunPhase::Fetching, RunEvent::WorklogsFetched(fetched)) => {
            &&& after.issues == before.issues
            &&& after.next == before.next + 1
            &&& after.worklogs@ == with_attached(before.worklogs@, fetched@, before.issues@[before.next as int])
            &&& after.nodes@ == before.nodes@.push(node_of(before.issues@[before.next as int]))
            &&& advance_ok(after, a)
        },
        (RunPhase::Fetching, RunEvent::WorklogsFailed(m)) => {
            &&& after == (JobRun { phase: RunPhase::Finished, ..before })
            &&& a matches RunAction::Fail { message } && message == m
        },
        (RunPhase::Rendering, RunEvent::Rendered(bytes)) => {
            &&& after == (JobRun { phase: RunPhase::Finished, ..before })
            &&& a matches RunAction::Complete { bytes: b } && b == bytes
        },
        (RunPhase::Rendering, RunEvent::RenderFailed(m)) => {
            &&& after == (JobRun { phase: RunPhase::Finished, ..before })
            &&& a matches RunAction::Fail { message } && message == m
        },
        _ => after == before && a is Idle,
    }
}

/// Whether `event` is one that a run in `phase` waits for.
pub open spec fn event_fits(phase: RunPhase, event: RunEvent) -> bool {
    match phase {
        RunPhase::Searching => event is IssuesFetched || event is IssuesFailed,
        RunPhase::Fetching => event is WorklogsFetched || event is WorklogsFailed,
        RunPhase::Rendering => event is Rendered || event is RenderFailed,
        RunPhase::Finished => false,
    }
}

/// How a run starts: searching, with nothing gathered, asking to search the
/// issues.
pub open spec fn start_ok(run: JobRun, a: RunAction) -> bool {
    &&& run.wf()
    &&& run.phase == RunPhase::Searching
    &&& run.issues@.len() == 0
    &&& run.worklogs@.len() == 0
    &&& run.nodes@.len() == 0
    &&& a matches RunAction::SearchIssues { message } && message@ == "Fetching issues…"@
}

impl JobRun {
    /// The invariant of a run: the issues before `next` are done, each with
    /// its hierarchy entry in `nodes`, in order; while searching, nothing is done.
    pub open spec fn wf(&self) -> bool {
        &&& self.next <= self.issues@.len()
        &&& self.nodes@.len() == self.next
        &&& forall|k: int| 0 <= k < self.next ==> #[trigger] self.nodes@[k] == node_of(self.issues@[k])
        &&& self.phase == RunPhase::Fetching ==> self.next < self.issues@.len()
        &&& self.phase == RunPhase::Searching ==> self.next == 0
        &&& self.phase == RunPhase::Rendering ==> self.next == self.issues@.len()
    }

    /// A job that starts by searching the issues of its project.
    pub fn start() -> (r: (JobRun, RunAction))
        ensures
            start_ok(r.0, r.1),
    {
        (
            JobRun { phase: RunPhase::Searching, issues: Vec::new(), next: 0, worklogs: Vec::new(), nodes: Vec::new() },
            RunAction::SearchIssues { message: owned("Fetching issues…") },
        )
    }

    fn advance(&mut self) -> (a: RunAction)
        requires
            old(self).next <= old(self).issues@.len(),
        ensures
            final(self).issues == old(self).issues,
            final(self).next == old(self).next,
            final(self).worklogs == old(self).worklogs,
            final(self).nodes == old(self).nodes,
            advance_ok(*final(self), a),
            (old(self).nodes@.len() == old(self).next && forall|k: int| 0 <= k < old(self).next ==> #[trigger] old(self).nodes@[k] == node_of(old(self).issues@[k]))
                ==> final(self).wf(),
    {
        if self.next < self.issues.len() {
            self.phase = RunPhase::Fetching;
            let message = worklog_progress(self.next, self.issues.len());
            RunAction::FetchWorklogs { message, issue_key: self.issues[self.next].key.clone() }
        } else if report_fits(self.worklogs.as_slice(), self.nodes.as_slice()) {
            self.phase = RunPhase::Rendering;
            let workbook = generate_workbook(self.worklogs.as_slice(), self.nodes.as_slice());
            RunAction::Render { message: owned("Generating Excel workbook…"), workbook }
        } else {
            self.phase = RunPhase::Finished;
            RunAction::Fail { message: owned("Report totals exceed the supported range") }
        }
    }

    /// Adds the worklogs of the current issue, with its key and summary, and
    /// its hierarchy entry; then moves on to the next issue.
    fn take_issue(&mut self, fetched: Vec<Worklog>) -> (a: RunAction)
        requires
            old(self).next < old(self).issues@.len(),
            old(self).nodes@.len() == old(self).next,
            forall|k: int| 0 <= k < old(self).next ==> #[trigger] old(self).nodes@[k] == node_of(old(self).issues@[k]),
        ensures
            final(self).issues == old(self).issues,
            final(self).next == old(self).next + 1,
            final(self).worklogs@ == with_attached(old(self).worklogs@, fetched@, old(self).issues@[old(self).next as int]),
            final(self).nodes@ == old(self).nodes@.push(node_of(old(self).issues@[old(self).next as int])),
            advance_ok(*final(self), a),
            final(self).wf(),
    {
        let ghost start = self.worklogs@;
        let ghost issue = self.issues@[self.next as int];
        let mut i: usize = 0;
        while i < fetched.len()
            invariant
                i <= fetched.len(),
                self.issues == old(self).issues,
                self.next == old(self).next,
                self.nodes == old(self).nodes,
                self.next < self.issues@.len(),
                issue == self.issues@[self.next as int],
                self.worklogs@ == with_attached(start, fetched@.take(i as int), issue),
            decreases fetched.len() - i,
        {
            let w = &fetched[i];
            let issue_ref = &self.issues[self.next];
            let a = Worklog {
                issue_key: issue_ref.key.clone(),
                issue_summary: issue_ref.fields.summary.clone(),
                author: w.author.clone(),
                date: w.date,
                seconds: w.seconds,
                comment: w.comment.clone(),
            };
            assert(a == attached(fetched@[i as int], issue));
            self.worklogs.push(a);
            assert(with_attached(start, fetched@.take(i + 1), issue) =~= with_attached(start, fetched@.take(i as int), issue).push(a));
            i = i + 1;
        }
        assert(fetched@.take(fetched.len() as int) =~= fetched@);
        let node = issue_node(&self.issues[self.next]);
        self.nodes.push(node);
        let len = self.issues.len();
        assert(self.next < len);
        self.next = self.next + 1;
        self.advance()
    }

    /// The next action after `event`. An event that does not fit the phase
    /// changes nothing and asks for nothing.
    pub fn step(&mut self, event: RunEvent) -> (a: RunAction)
        requires
            old(self).wf(),
        ensures
            final(self).wf(),
            step_ok(*old(self), event, *final(self), a),
    {
        match (self.phase, event) {
            (RunPhase::Searching, RunEvent::IssuesFetched(issues)) => {
                self.issues = issues;
                self.next = 0;
                self.advance()
            },
            (RunPhase::Searching, RunEvent::IssuesFailed(m)) => {
                self.phase = RunPhase::Finished;
                RunAction::Fail { message: m }
            },
            (RunPhase::Fetching, RunEvent::WorklogsFetched(fetched)) => self.take_issue(fetched),
            (RunPhase::Fetching, RunEvent::WorklogsFailed(m)) => {
                self.phase = RunPhase::Finished;
                RunAction::Fail { message: m }
            },
            (RunPhase::Rendering, RunEvent::Rendered(bytes)) => {
                self.phase = RunPhase::Finished;
                RunAction::Complete { bytes }
            },
            (RunPhase::Rendering, RunEvent::RenderFailed(m)) => {
                self.phase = RunPhase::Finished;
                RunAction::Fail { message: m }
            },
            _ => RunAction::Idle,
        }
    }
}

/// Every issue of a job is in its hierarchy: once a run writes its
/// workbook, it holds the hierarchy entry of each fetched issue, in order.
pub proof fn law_rendered_run_has_every_issue(run: JobRun)
    requires
        run.wf(),
        run.phase == RunPhase::Rendering,
    ensures
        run.nodes@.len() == run.issues@.len(),
        forall|k: int| 0 <= k < run.issues@.len() ==> #[trigger] run.nodes@[k] == node_of(run.issues@[k]),
{
}

/// `runs`, `actions` and `events` record a run: `runs[0]` and `actions[0]`
/// are what `JobRun::start` gives, and each `runs[i + 1]`, `actions[i + 1]`
/// what `step` gives on `runs[i]` and `events[i]`.
pub open spec fn is_run_trace(runs: Seq<JobRun>, actions: Seq<RunAction>, events: Seq<RunEvent>) -> bool {
    &&& runs.len() >= 1
    &&& actions.len() == runs.len()
    &&& events.len() + 1 == runs.len()
    &&& start_ok(runs[0], actions[0])
    &&& forall|i: int| 0 <= i < events.len() ==> step_ok(runs[i], #[trigger] events[i], runs[i + 1], actions[i + 1])
}

proof fn lemma_trace_prefix(runs: Seq<JobRun>, actions: Seq<RunAction>, events: Seq<RunEvent>, i: int)
    requires
        is_run_trace(runs, actions, events),
        forall|j: int| 0 <= j < events.len() ==> event_fits(runs[j].phase, #[trigger] events[j]),
        1 <= i < runs.len(),
    ensures
        runs[i].issues == runs[1].issues,
        runs[i].phase != RunPhase::Finished ==> runs[i].next == i - 1 && advance_ok(runs[i], actions[i]),
        runs[i].phase == RunPhase::Finished ==> (actions[i] is Complete || actions[i] is Fail),
    decreases i,
{
    let e = events[i - 1];
    assert(step_ok(runs[i - 1], e, runs[i], actions[i]));
    assert(event_fits(runs[i - 1].phase, e));
    if i > 1 {
        lemma_trace_prefix(runs, actions, events, i - 1);
    }
}

/// The course of a job: when each event is one the run waits for, the run
/// asks first to search the issues ("Fetching issues…"); after that, while it
/// is not finished, its `k`-th action (from 1) is the one that follows `k - 1`
/// issues done: fetching the worklogs of issue `k` of `n` ("Fetching worklogs
/// for issue k/n…"), then writing the workbook ("Generating Excel
/// workbook…"); the issues stay those that the search returned. Every action
/// of an unfinished run sets the job Running (see `applied`); the run ends
/// with one completion (Done) or one failure (Error), after which no event
/// fits and nothing follows.
pub proof fn law_run_follows_its_course(runs: Seq<JobRun>, actions: Seq<RunAction>, events: Seq<RunEvent>)
    requires
        is_run_trace(runs, actions, events),
        forall|j: int| 0 <= j < events.len() ==> event_fits(runs[j].phase, #[trigger] events[j]),
    ensures
        actions[0] matches RunAction::SearchIssues { message } && message@ == "Fetching issues…"@,
        forall|i: int| 1 <= i < runs.len() ==> (#[trigger] runs[i]).issues == runs[1].issues,
        forall|i: int| 1 <= i < runs.len() && (#[trigger] runs[i]).phase != RunPhase::Finished
            ==> runs[i].next == i - 1 && advance_ok(runs[i], actions[i]),
        forall|i: int| 0 <= i < runs.len() && (#[trigger] runs[i]).phase != RunPhase::Finished
            ==> (actions[i] is SearchIssues || actions[i] is FetchWorklogs || actions[i] is Render),
        forall|i: int| 0 <= i < runs.len() && (#[trigger] runs[i]).phase == RunPhase::Finished
            ==> i == runs.len() - 1 && (actions[i] is Complete || actions[i] is Fail),
{
    assert forall|i: int| 1 <= i < runs.len() implies {
        &&& (#[trigger] runs[i]).issues == runs[1].issues
        &&& runs[i].phase != RunPhase::Finished ==> runs[i].next == i - 1 && advance_ok(runs[i], actions[i])
        &&& runs[i].phase == RunPhase::Finished ==> (actions[i] is Complete || actions[i] is Fail)
    } by {
        lemma_trace_prefix(runs, actions, events, i);
    }
    assert forall|i: int| 0 <= i < runs.len() && (#[trigger] runs[i]).phase == RunPhase::Finished
        implies i == runs.len() - 1 && (actions[i] is Complete || actions[i] is Fail) by {
        if i < runs.len() - 1 {
            assert(event_fits(runs[i].phase, events[i]));
        }
    }
}

/// The progress text of the `i`-th action of a run (from 0) that fetches
/// the worklogs of `n` issues: "Fetching issues…", then "Fetching worklogs
/// for issue i/n…" for each issue, then "Generating Excel workbook…".
pub open spec fn course_message(i: int, n: nat) -> Seq<char> {
    if i == 0 {
        "Fetching issues…"@
    } else if i - 1 < n {
        worklog_progress_text((i - 1) as nat, n)
    } else {
        "Generating Excel workbook…"@
    }
}

/// The number of issues that the search of a run returned (0 while it has
/// not answered).
pub open spec fn searched_count(runs: Seq<JobRun>) -> nat {
    if runs.len() > 1 {
        runs[1].issues@.len()
    } else {
        0
    }
}

/// The course of a job's status and message: a Pending job whose run is
/// recorded by `runs`, `actions` and `events` (each event one the run waits
/// for), and to which each action is applied in turn (`jobs[i + 1]` is
/// `jobs[i]` after `actions[i]`), goes through (Running, "Fetching issues…"),
/// (Running, "Fetching worklogs for issue k/n…") for k = 1..n, (Running,
/// "Generating Excel workbook…"), as far as the run gets, where `n` is the
/// number of issues the search returned; it ends with one (Done, no message)
/// or one (Error, a message), after which nothing follows; and it is never
/// Pending again.
pub proof fn law_job_status_course(runs: Seq<JobRun>, actions: Seq<RunAction>, events: Seq<RunEvent>, jobs: Seq<JobState>)
    requires
        is_run_trace(runs, actions, events),
        forall|j: int| 0 <= j < events.len() ==> event_fits(runs[j].phase, #[trigger] events[j]),
        jobs.len() == actions.len() + 1,
        jobs[0].status == JobStatus::Pending,
        forall|i: int| 0 <= i < actions.len() ==> applied(jobs[i], #[trigger] actions[i], jobs[i + 1]),
    ensures
        forall|i: int| 0 <= i < runs.len() && (#[trigger] runs[i]).phase != RunPhase::Finished ==> {
            &&& jobs[i + 1].status == JobStatus::Running
            &&& jobs[i + 1].message matches Some(m) && m@ == course_message(i, searched_count(runs))
        },
        forall|i: int| 0 <= i < runs.len() && (#[trigger] runs[i]).phase == RunPhase::Finished ==> {
            &&& i == runs.len() - 1
            &&& (jobs[i + 1].status == JobStatus::Done && jobs[i + 1].message is None)
                || (jobs[i + 1].status == JobStatus::Error && jobs[i + 1].message is Some)
        },
        forall|k: int| 1 <= k < jobs.len() ==> (#[trigger] jobs[k]).status != JobStatus::Pending,
{
    law_run_follows_its_course(runs, actions, events);
    assert forall|i: int| 0 <= i < runs.len() && (#[trigger] runs[i]).phase != RunPhase::Finished implies {
        &&& jobs[i + 1].status == JobStatus::Running
        &&& jobs[i + 1].message matches Some(m) && m@ == course_message(i, searched_count(runs))
    } by {
        assert(applied(jobs[i], actions[i], jobs[i + 1]));
        if i >= 1 {
            assert(runs[i].issues == runs[1].issues);
            assert(runs[i].next == i - 1 && advance_ok(runs[i], actions[i]));
        }
    }
    assert forall|i: int| 0 <= i < runs.len() && (#[trigger] runs[i]).phase == RunPhase::Finished implies {
        &&& i == runs.len() - 1
        &&& (jobs[i + 1].status == JobStatus::Done && jobs[i + 1].message is None)
            || (jobs[i + 1].status == JobStatus::Error && jobs[i + 1].message is Some)
    } by {
        assert(applied(jobs[i], actions[i], jobs[i + 1]));
    }
    assert forall|k: int| 1 <= k < jobs.len() implies (#[trigger] jobs[k]).status != JobStatus::Pending by {
        let i = k - 1;
        assert(applied(jobs[i], actions[i], jobs[i + 1]));
        if runs[i].phase == RunPhase::Finished {
            assert(actions[i] is Complete || actions[i] is Fail);
        } else {
            assert(actions[i] is SearchIssues || actions[i] is FetchWorklogs || actions[i] is Render);
        }
    }
}

/// A page of fetched worklogs is added whole: after the worklogs of the
/// current issue come in, the gathered worklogs are the earlier ones,
/// unchanged, followed by the fetched ones in the order fetched, each keeping
/// its own author, day, seconds and comment and taking the key and summary of
/// the issue they were fetched for.
pub proof fn law_fetched_worklogs_are_kept_whole(before: JobRun, fetched: Vec<Worklog>, after: JobRun, a: RunAction)
    requires
        before.wf(),
        before.phase == RunPhase::Fetching,
        step_ok(before, RunEvent::WorklogsFetched(fetched), after, a),
    ensures
        after.worklogs@.len() == before.worklogs@.len() + fetched@.len(),
        forall|j: int| 0 <= j < before.worklogs@.len() ==> #[trigger] after.worklogs@[j] == before.worklogs@[j],
        forall|k: int| 0 <= k < fetched@.len() ==> {
            let w = #[trigger] after.worklogs@[before.worklogs@.len() + k];
            let issue = before.issues@[before.next as int];
            &&& w.author == fetched@[k].author
            &&& w.date == fetched@[k].date
            &&& w.seconds == fetched@[k].seconds
            &&& w.comment == fetched@[k].comment
            &&& w.issue_key == issue.key
            &&& w.issue_summary == issue.fields.summary
        },
{
    let n = before.worklogs@.len();
    assert forall|k: int| 0 <= k < fetched@.len() implies {
        let w = #[trigger] after.worklogs@[n + k];
        let issue = before.issues@[before.next as int];
        &&& w.author == fetched@[k].author
        &&& w.date == fetched@[k].date
        &&& w.seconds == fetched@[k].seconds
        &&& w.comment == fetched@[k].comment
        &&& w.issue_key == issue.key
        &&& w.issue_summary == issue.fields.summary
    } by {
        assert(after.worklogs@[n + k] == attached(fetched@[k], before.issues@[before.next as int]));
    }
}

} // verus!
