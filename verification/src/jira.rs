//! The Jira side: the records that the Jira API hands back, the worklog
//! records of the report, and the decisions around requests and paging.

use vstd::prelude::*;
use crate::date::{Date, date_time_millis, date_to_text, days_from_ce, epoch_millis, lemma_days_from_ce_increasing, iso_text, parse_iso_date, parsed_date};
use vstd::utf8::{decode_utf8, encode_utf8, is_char_boundary};
use crate::hierarchy::opt_ref_view;
use crate::text::{
    decimal, lemma_decimal_injective, int_text, parse_u64, parse_u64_spec, percent_encoded, push_decimal, push_int, push_str, str_eq, trim,
    trimmed, url_encode,
};

verus! {

/// One logged piece of work, as the report uses it.
pub struct Worklog {
    pub issue_key: String,
    pub issue_summary: String,
    pub author: String,
    pub date: Date,
    /// The time spent, in seconds; the report shows it in hours.
    pub seconds: u64,
    pub comment: String,
}


/// A Jira project.
pub struct Project {
    pub key: String,
    pub name: String,
}

/// A reference to a parent issue.
pub struct ParentRef {
    pub key: String,
}

/// The type of an issue ("Epic", "Story", "Task", "Sub-task", ...).
pub struct IssueType {
    pub name: String,
    pub subtask: bool,
}

/// The fields of an issue that the report reads.
pub struct IssueFields {
    pub summary: String,
    pub issuetype: IssueType,
    pub parent: Option<ParentRef>,
    /// The epic link (the custom field `customfield_10014`).
    pub epic_link: Option<String>,
}

/// A Jira issue.
pub struct Issue {
    pub key: String,
    pub fields: IssueFields,
}

/// What can go wrong when talking to Jira.
pub enum JiraError {
    /// The request did not get a response; the text describes why.
    Network(String),
    /// Jira answered with a status other than success.
    ApiError { status: u16, body: String },
    /// Jira kept answering 429 after the last retry.
    RateLimited { retry_after_secs: u64 },
    /// The response could not be read as the expected JSON.
    Parse(String),
}

/// The text of an error, as it is shown to the user. A refusal (403) reads
/// "Jira API returned 403 Forbidden"; another failing status gives the status
/// and the body of the answer.
pub open spec fn error_text(e: JiraError) -> Seq<char> {
    match e {
        JiraError::Network(m) => "HTTP request failed: "@ + m@,
        JiraError::ApiError { status, body } => if status == 403 {
            "Jira API returned 403 Forbidden"@
        } else {
            "Jira returned "@ + decimal(status as nat) + ": "@ + body@
        },
        JiraError::RateLimited { retry_after_secs } => "Rate limited; retry after "@ + decimal(retry_after_secs as nat) + "s"@,
        JiraError::Parse(m) => "Failed to parse Jira response: "@ + m@,
    }
}

impl JiraError {
    /// The text of the error, as it is shown to the user.
    pub fn message(&self) -> (s: String)
        ensures
            s@ == error_text(*self),
    {
        let mut s = String::new();
        match self {
            JiraError::Network(m) => {
                push_str(&mut s, "HTTP request failed: ");
                push_str(&mut s, m.as_str());
            },
            JiraError::ApiError { status, body: _ } if *status == 403 => {
                push_str(&mut s, "Jira API returned 403 Forbidden");
            },
            JiraError::ApiError { status, body } => {
                push_str(&mut s, "Jira returned ");
                push_decimal(&mut s, *status as u128);
                push_str(&mut s, ": ");
                push_str(&mut s, body.as_str());
            },
            JiraError::RateLimited { retry_after_secs } => {
                push_str(&mut s, "Rate limited; retry after ");
                push_decimal(&mut s, *retry_after_secs as u128);
                push_str(&mut s, "s");
            },
            JiraError::Parse(m) => {
                push_str(&mut s, "Failed to parse Jira response: ");
                push_str(&mut s, m.as_str());
            },
        }
        assert(s@ =~= error_text(*self));
        s
    }
}

// ---------------------------------------------------------------------------
// Worklog comments (Atlassian Document Format)
// ---------------------------------------------------------------------------

/// A JSON value as the comment reader sees it: strings, arrays and objects
/// (members in document order); numbers, booleans and null are `Other`.
pub enum Json {
    Other,
    Str(String),
    Array(Vec<Json>),
    Object(Vec<(String, Json)>),
}

/// The position of the first member with key `k`, or -1.
pub open spec fn member_index(entries: Seq<(String, Json)>, k: Seq<char>) -> int
    decreases entries.len(),
{
    if entries.len() == 0 {
        -1
    } else if entries[0].0@ == k {
        0
    } else {
        let r = member_index(entries.drop_first(), k);
        if r < 0 {
            -1
        } else {
            r + 1
        }
    }
}

/// The string held by member `k`, when the member exists and is a string.
pub open spec fn member_str(entries: Seq<(String, Json)>, k: Seq<char>) -> Option<Seq<char>> {
    let i = member_index(entries, k);
    if 0 <= i < entries.len() {
        match entries[i].1 {
            Json::Str(s) => Some(s@),
            _ => None,
        }
    } else {
        None
    }
}

/// The text of a node itself: its `text` when its `type` is "text".
pub open spec fn own_text(entries: Seq<(String, Json)>) -> Seq<char> {
    if member_str(entries, "type"@) == Some("text"@) {
        match member_str(entries, "text"@) {
            Some(t) => t,
            None => seq![],
        }
    } else {
        seq![]
    }
}

/// The text of an ADF node, in document order: an object contributes its own
/// text and then the text of its `content`; an array the text of its items.
pub open spec fn adf_text(v: Json) -> Seq<char>
    decreases v, 0int,
{
    match v {
        Json::Object(entries) => {
            let c = member_index(entries@, "content"@);
            own_text(entries@) + if 0 <= c < entries@.len() {
                proof {
                    lemma_member_index_bounds(entries@, "content"@);
                }
                adf_text(entries@[c].1)
            } else {
                seq![]
            }
        },
        Json::Array(items) => items_text(items@, items@.len() as int),
        _ => seq![],
    }
}

/// The text of the first `n` items of an array.
pub open spec fn items_text(items: Seq<Json>, n: int) -> Seq<char>
    decreases items, n,
{
    if n <= 0 || n > items.len() {
        seq![]
    } else {
        items_text(items, n - 1) + adf_text(items[n - 1])
    }
}

/// The first member with a key lies in the object, and no member before it has the key.
pub proof fn lemma_member_index_bounds(entries: Seq<(String, Json)>, k: Seq<char>)
    ensures
        -1 <= member_index(entries, k) < entries.len(),
        0 <= member_index(entries, k) ==> entries[member_index(entries, k)].0@ == k,
        member_index(entries, k) < 0 ==> forall|i: int| 0 <= i < entries.len() ==> (#[trigger] entries[i]).0@ != k,
        forall|i: int| 0 <= i < member_index(entries, k) ==> (#[trigger] entries[i]).0@ != k,
    decreases entries.len(),
{
    if entries.len() > 0 {
        lemma_member_index_bounds(entries.drop_first(), k);
        assert forall|i: int| 0 < i < entries.len() implies #[trigger] entries[i] == entries.drop_first()[i - 1] by {}
    }
}

fn find_member(entries: &Vec<(String, Json)>, k: &str) -> (r: usize)
    ensures
        r < entries.len() ==> r as int == member_index(entries@, k@),
        r >= entries.len() ==> member_index(entries@, k@) < 0,
{
    proof {
        lemma_member_index_bounds(entries@, k@);
    }
    let mut i: usize = 0;
    while i < entries.len()
        invariant
            i <= entries.len(),
            forall|q: int| 0 <= q < i ==> (#[trigger] entries@[q]).0@ != k@,
        decreases entries.len() - i,
    {
        if str_eq(entries[i].0.as_str(), k) {
            proof {
                lemma_member_first(entries@, k@, i as int);
            }
            return i;
        }
        i = i + 1;
    }
    proof {
        if member_index(entries@, k@) >= 0 {
            let m = member_index(entries@, k@);
            assert(entries@[m].0@ == k@);
        }
    }
    entries.len()
}

proof fn lemma_member_first(entries: Seq<(String, Json)>, k: Seq<char>, i: int)
    requires
        0 <= i < entries.len(),
        entries[i].0@ == k,
        forall|q: int| 0 <= q < i ==> (#[trigger] entries[q]).0@ != k,
    ensures
        member_index(entries, k) == i,
    decreases i,
{
    if i > 0 {
        assert forall|q: int| 0 <= q < i - 1 implies (#[trigger] entries.drop_first()[q]).0@ != k by {
            assert(entries.drop_first()[q] == entries[q + 1]);
        }
        lemma_member_first(entries.drop_first(), k, i - 1);
    }
}

fn member_string<'a>(entries: &'a Vec<(String, Json)>, k: &str) -> (r: Option<&'a String>)
    ensures
        opt_ref_view(r) == member_str(entries@, k@),
{
    let i = find_member(entries, k);
    if i < entries.len() {
        match &entries[i].1 {
            Json::Str(s) => Some(s),
            _ => None,
        }
    } else {
        None
    }
}

/// Appends the text of an ADF node to `out`.
pub fn collect_text(v: &Json, out: &mut String)
    ensures
        final(out)@ == old(out)@ + adf_text(*v),
    decreases v,
{
    match v {
        Json::Object(entries) => {
            let t = member_string(entries, "type");
            let is_text = match t {
                Some(s) => str_eq(s.as_str(), "text"),
                None => false,
            };
            if is_text {
                match member_string(entries, "text") {
                    Some(text) => push_str(out, text.as_str()),
                    None => {},
                }
            }
            let ghost mid = out@;
            assert(mid == old(out)@ + own_text(entries@));
            let c = find_member(entries, "content");
            if c < entries.len() {
                proof {
                    lemma_member_index_bounds(entries@, "content"@);
                    assert(decreases_to!(v => entries@[c as int].1));
                }
                collect_text(&entries[c].1, out);
            }
        },
        Json::Array(items) => {
            let ghost start = out@;
            let mut i: usize = 0;
            assert(start =~= start + items_text(items@, 0));
            assert forall|q: int| 0 <= q < items.len() implies decreases_to!(*v => #[trigger] items@[q]) by {
                assert(decreases_to!(v => items@[q]));
            }
            while i < items.len()
                invariant
                    i <= items.len(),
                    out@ == start + items_text(items@, i as int),
                    forall|q: int| 0 <= q < items.len() ==> decreases_to!(*v => #[trigger] items@[q]),
                decreases items.len() - i,
            {
                proof {
                    assert(decreases_to!(*v => items@[i as int]));
                }
                collect_text(&items[i], out);
                assert(out@ =~= start + items_text(items@, i + 1));
                i = i + 1;
            }
        },
        _ => {},
    }
}

/// The plain text of a worklog comment, without leading and trailing white space.
pub open spec fn comment_text(value: Option<Json>) -> Seq<char> {
    match value {
        Some(v) => trimmed(adf_text(v)),
        None => seq![],
    }
}

/// Extracts the plain text of an ADF comment node.
pub fn extract_adf_text(value: Option<&Json>) -> (s: String)
    ensures
        s@ == comment_text(match value {
            Some(v) => Some(*v),
            None => None,
        }),
{
    match value {
        None => String::new(),
        Some(v) => {
            let mut out = String::new();
            collect_text(v, &mut out);
            assert(out@ =~= adf_text(*v));
            trim(out.as_str())
        },
    }
}

// ---------------------------------------------------------------------------
// Worklogs as Jira hands them back
// ---------------------------------------------------------------------------

/// A worklog as the worklog endpoint returns it.
pub struct RawWorklog {
    /// The display name of the author.
    pub author: String,
    /// When the work started, ISO 8601 (`2026-03-15T09:00:00.000+0000`).
    pub started: String,
    pub time_spent_seconds: u64,
    /// The comment, an ADF document.
    pub comment: Option<Json>,
}

/// The first ten bytes of `started` fall on a character boundary.
pub open spec fn started_cuttable(started: Seq<char>) -> bool {
    is_char_boundary(encode_utf8(started), 10)
}

/// The text of the first ten bytes of `started`: the day of the worklog.
pub open spec fn started_day_text(started: Seq<char>) -> Seq<char> {
    decode_utf8(encode_utf8(started).subrange(0, 10))
}

/// A day as read (`None` where it could not be read), when it lies in `[start, end]`.
pub open spec fn day_kept(day: Option<Date>, start: Date, end: Date) -> Option<Date> {
    match day {
        Some(d) => if start.spec_before_or_same(d) && d.spec_before_or_same(end) {
            Some(d)
        } else {
            None
        },
        None => None,
    }
}

/// The day of a raw worklog, when it can be read and lies in `[start, end]`.
pub open spec fn day_in_range(raw: RawWorklog, start: Date, end: Date) -> Option<Date> {
    day_kept(parsed_date(started_day_text(raw.started@)), start, end)
}

/// `w` is the report worklog of `raw` on day `d`; its issue key and summary
/// are left empty for the caller to fill in.
pub open spec fn worklog_of(w: Worklog, raw: RawWorklog, d: Date) -> bool {
    &&& w.issue_key@ == Seq::<char>::empty()
    &&& w.issue_summary@ == Seq::<char>::empty()
    &&& w.author@ == raw.author@
    &&& w.date == d
    &&& w.seconds == raw.time_spent_seconds
    &&& w.comment@ == comment_text(raw.comment)
}

/// Reads one raw worklog: its day is the first ten bytes of `started`; a
/// worklog whose day cannot be read, or lies outside `[start, end]`, is dropped.
pub fn worklog_from_raw(raw: &RawWorklog, start: Date, end: Date) -> (r: Option<Worklog>)
    requires
        started_cuttable(raw.started@),
    ensures
        match day_in_range(*raw, start, end) {
            Some(d) => r matches Some(w) && worklog_of(w, *raw, d),
            None => r is None,
        },
{
    proof {
        broadcast use vstd::utf8::encode_utf8_valid_utf8;
        broadcast use vstd::utf8::encode_utf8_decode_utf8;
    }
    let (day_text, _) = raw.started.as_str().split_at(10);
    proof {
        broadcast use vstd::utf8::encode_utf8_decode_utf8;
        assert(day_text@ == decode_utf8(encode_utf8(day_text@)));
        assert(day_text@ == started_day_text(raw.started@));
    }
    worklog_from_day(raw, parse_iso_date(day_text), start, end)
}

/// Makes the report worklog of `raw` from its day as read (`None` where it
/// could not be read): kept when the day lies in `[start, end]`, else dropped.
pub fn worklog_from_day(raw: &RawWorklog, day: Option<Date>, start: Date, end: Date) -> (r: Option<Worklog>)
    ensures
        match day_kept(day, start, end) {
            Some(d) => r matches Some(w) && worklog_of(w, *raw, d),
            None => r is None,
        },
{
    let date = match day {
        Some(d) => d,
        None => return None,
    };
    if !start.before_or_same(&date) || !date.before_or_same(&end) {
        return None;
    }
    let comment = extract_adf_text(raw.comment.as_ref());
    Some(Worklog {
        issue_key: String::new(),
        issue_summary: String::new(),
        author: raw.author.clone(),
        date,
        seconds: raw.time_spent_seconds,
        comment,
    })
}

/// `w` is what `worklog_from_raw` makes of `raw` when it keeps it.
pub open spec fn read_from(w: Worklog, raw: RawWorklog, start: Date, end: Date) -> bool {
    &&& day_in_range(raw, start, end) is Some
    &&& worklog_of(w, raw, day_in_range(raw, start, end)->0)
}

/// The raw worklogs that `worklogs_in_range` keeps, in order.
pub open spec fn kept(raws: Seq<RawWorklog>, start: Date, end: Date) -> Seq<RawWorklog>
    decreases raws.len(),
{
    if raws.len() == 0 {
        seq![]
    } else {
        kept(raws.drop_last(), start, end) + if day_in_range(raws.last(), start, end) is Some {
            seq![raws.last()]
        } else {
            seq![]
        }
    }
}

/// Reads the raw worklogs of an issue, keeping those whose day can be read
/// and lies in `[start, end]`, in the order given.
pub fn worklogs_in_range(raws: &[RawWorklog], start: Date, end: Date) -> (ws: Vec<Worklog>)
    requires
        forall|i: int| 0 <= i < raws@.len() ==> started_cuttable(#[trigger] raws@[i].started@),
    ensures
        ws@.len() == kept(raws@, start, end).len(),
        forall|k: int| 0 <= k < ws@.len() ==> read_from(#[trigger] ws@[k], kept(raws@, start, end)[k], start, end),
        forall|k: int| 0 <= k < ws@.len() ==> start.spec_before_or_same(#[trigger] ws@[k].date) && ws@[k].date.spec_before_or_same(end),
{
    let mut ws: Vec<Worklog> = Vec::new();
    let mut i: usize = 0;
    while i < raws.len()
        invariant
            i <= raws.len(),
            forall|q: int| 0 <= q < raws@.len() ==> started_cuttable(#[trigger] raws@[q].started@),
            ws@.len() == kept(raws@.take(i as int), start, end).len(),
            forall|k: int| 0 <= k < ws@.len() ==> read_from(#[trigger] ws@[k], kept(raws@.take(i as int), start, end)[k], start, end),
        decreases raws.len() - i,
    {
        let ghost before = kept(raws@.take(i as int), start, end);
        assert(raws@.take(i + 1).drop_last() =~= raws@.take(i as int));
        assert(raws@.take(i + 1).last() == raws@[i as int]);
        let ghost old_ws = ws@;
        let r = worklog_from_raw(&raws[i], start, end);
        match r {
            Some(w) => {
                ws.push(w);
                assert(kept(raws@.take(i + 1), start, end) =~= before.push(raws@[i as int]));
            },
            None => {
                assert(kept(raws@.take(i + 1), start, end) =~= before);
            },
        }
        assert forall|k: int| 0 <= k < ws@.len() implies read_from(#[trigger] ws@[k], kept(raws@.take(i + 1), start, end)[k], start, end) by {
            if k < old_ws.len() {
                assert(ws@[k] == old_ws[k]);
                assert(kept(raws@.take(i + 1), start, end)[k] == before[k]);
            }
        }
        i = i + 1;
    }
    assert(raws@.take(raws.len() as int) =~= raws@);
    ws
}

// ---------------------------------------------------------------------------
// Requests
// ---------------------------------------------------------------------------

/// The JQL query of the issues of a project with worklogs in `[start, end]`.
pub open spec fn jql_text(project_key: Seq<char>, start: Date, end: Date) -> Seq<char> {
    "project = \""@ + project_key + "\" AND worklogDate >= \""@ + iso_text(start)
        + "\" AND worklogDate <= \""@ + iso_text(end) + "\" ORDER BY key ASC"@
}

/// Builds the JQL query of the issues of a project with worklogs in `[start, end]`.
pub fn issue_query(project_key: &str, start: Date, end: Date) -> (q: String)
    requires
        start.valid(),
        end.valid(),
    ensures
        q@ == jql_text(project_key@, start, end),
{
    let mut q = String::new();
    push_str(&mut q, "project = \"");
    push_str(&mut q, project_key);
    push_str(&mut q, "\" AND worklogDate >= \"");
    let s = date_to_text(start);
    push_str(&mut q, s.as_str());
    push_str(&mut q, "\" AND worklogDate <= \"");
    let e = date_to_text(end);
    push_str(&mut q, e.as_str());
    push_str(&mut q, "\" ORDER BY key ASC");
    assert(q@ =~= jql_text(project_key@, start, end));
    q
}

/// Projects are listed fifty to a page.
pub const PROJECT_PAGE_SIZE: u32 = 50;

/// Issues are searched a hundred to a page.
pub const ISSUE_PAGE_SIZE: u32 = 100;

/// Worklogs are fetched a thousand to a page.
pub const WORKLOG_PAGE_SIZE: u32 = 1000;

/// The fields of an issue that the search asks for.
pub open spec fn issue_fields_text() -> Seq<char> {
    "summary,issuetype,parent,customfield_10014"@
}

/// The URL of a page of the project list.
pub open spec fn project_search_url_text(base: Seq<char>, start_at: u32) -> Seq<char> {
    base + "/rest/api/3/project/search?startAt="@ + decimal(start_at as nat) + "&maxResults="@ + decimal(50)
}

/// The URL of a page of the issue search for a project and a range of days.
pub open spec fn issue_search_url_text(
    base: Seq<char>,
    project_key: Seq<char>,
    start: Date,
    end: Date,
    token: Option<Seq<char>>,
) -> Seq<char> {
    base + "/rest/api/3/search/jql?jql="@ + percent_encoded(encode_utf8(jql_text(project_key, start, end)))
        + "&maxResults="@ + decimal(100) + "&fields="@ + issue_fields_text() + match token {
        Some(t) => "&nextPageToken="@ + t,
        None => seq![],
    }
}

/// The URL of a page of the worklogs of an issue started within `[start, end]`.
pub open spec fn worklog_url_text(base: Seq<char>, issue_key: Seq<char>, start: Date, end: Date, start_at: u32) -> Seq<char> {
    base + "/rest/api/3/issue/"@ + issue_key + "/worklog?startedAfter="@ + int_text(epoch_millis(start, 0, 0, 0))
        + "&startedBefore="@ + int_text(epoch_millis(end, 23, 59, 59)) + "&startAt="@ + decimal(start_at as nat)
        + "&maxResults="@ + decimal(1000)
}

/// The path prefix of the Jira REST API (version 3).
pub open spec fn rest_api_prefix() -> Seq<char> {
    "/rest/api/3/"@
}

proof fn lemma_prefix_of_concat(p: Seq<char>, q: Seq<char>)
    ensures
        p.is_prefix_of(p + q),
{
    assert(p =~= (p + q).subrange(0, p.len() as int));
}

/// Every request goes to the REST API of the client's site: the URLs of the
/// project list, the issue search and the worklogs all start with the base
/// URL followed by `/rest/api/3/`.
pub proof fn law_requests_go_to_the_rest_api(
    base: Seq<char>,
    project_key: Seq<char>,
    issue_key: Seq<char>,
    start: Date,
    end: Date,
    token: Option<Seq<char>>,
    start_at: u32,
)
    ensures
        (base + rest_api_prefix()).is_prefix_of(project_search_url_text(base, start_at)),
        (base + rest_api_prefix()).is_prefix_of(issue_search_url_text(base, project_key, start, end, token)),
        (base + rest_api_prefix()).is_prefix_of(worklog_url_text(base, issue_key, start, end, start_at)),
{
    reveal_strlit("/rest/api/3/");
    reveal_strlit("/rest/api/3/project/search?startAt=");
    reveal_strlit("/rest/api/3/search/jql?jql=");
    reveal_strlit("/rest/api/3/issue/");
    let p = base + rest_api_prefix();
    let u1 = project_search_url_text(base, start_at);
    assert(u1 =~= p + ("project/search?startAt="@ + decimal(start_at as nat) + "&maxResults="@ + decimal(50))) by {
        reveal_strlit("project/search?startAt=");
    }
    lemma_prefix_of_concat(p, "project/search?startAt="@ + decimal(start_at as nat) + "&maxResults="@ + decimal(50));
    let u2 = issue_search_url_text(base, project_key, start, end, token);
    let r2 = u2.subrange(p.len() as int, u2.len() as int);
    assert(u2 =~= p + r2) by {
        assert(u2.subrange(0, p.len() as int) =~= p);
    }
    lemma_prefix_of_concat(p, r2);
    let u3 = worklog_url_text(base, issue_key, start, end, start_at);
    let r3 = u3.subrange(p.len() as int, u3.len() as int);
    assert(u3 =~= p + r3) by {
        assert(u3.subrange(0, p.len() as int) =~= p);
    }
    lemma_prefix_of_concat(p, r3);
}

/// Each page of the project list asks for its own start: the URL for
/// `start_at` is the base URL, the project-search path, `startAt=` with
/// `start_at` in decimal and fifty projects to a page; so two different
/// pages never share a URL.
pub proof fn law_project_pages_ask_for_their_start(base: Seq<char>, s1: u32, s2: u32)
    ensures
        project_search_url_text(base, s1) == base + "/rest/api/3/project/search?startAt="@ + decimal(s1 as nat)
            + "&maxResults=50"@,
        s1 != s2 ==> project_search_url_text(base, s1) != project_search_url_text(base, s2),
{
    reveal_strlit("&maxResults=");
    reveal_strlit("&maxResults=50");
    assert(decimal(5) == seq!['5']);
    assert(decimal(50) =~= seq!['5', '0']);
    let p = base + "/rest/api/3/project/search?startAt="@;
    let t = "&maxResults=50"@;
    assert(project_search_url_text(base, s1) =~= p + decimal(s1 as nat) + t);
    assert(project_search_url_text(base, s2) =~= p + decimal(s2 as nat) + t);
    if s1 != s2 && project_search_url_text(base, s1) == project_search_url_text(base, s2) {
        let u = project_search_url_text(base, s1);
        let d1 = decimal(s1 as nat);
        let d2 = decimal(s2 as nat);
        assert(d1.len() == d2.len());
        assert(d1 =~= u.subrange(p.len() as int, (p.len() + d1.len()) as int));
        assert(d2 =~= u.subrange(p.len() as int, (p.len() + d2.len()) as int));
        lemma_decimal_injective(s1 as nat, s2 as nat);
    }
}

/// The milliseconds since the Unix epoch of 00:00:00 UTC on day `d`.
pub open spec fn midnight_millis(d: Date) -> int {
    (days_from_ce(d) - 719163) * 86_400_000
}

/// The worklog request of an issue covers the range of days whole: the URL
/// is the base URL, the issue's worklog path, `startedAfter=` the epoch
/// milliseconds of 00:00:00 UTC on the first day `start`, `startedBefore=`
/// those of 23:59:59 UTC on the last day `end`, then the page. For valid
/// days, each day of the range starts within that window, and when the range
/// holds more than one day the window opens at least a day before the last
/// day begins.
pub proof fn law_worklog_window_follows_the_range(base: Seq<char>, issue_key: Seq<char>, start: Date, end: Date, start_at: u32)
    ensures
        worklog_url_text(base, issue_key, start, end, start_at) == base + "/rest/api/3/issue/"@ + issue_key
            + "/worklog?startedAfter="@ + int_text(midnight_millis(start)) + "&startedBefore="@
            + int_text(midnight_millis(end) + 86_399_000) + "&startAt="@ + decimal(start_at as nat)
            + "&maxResults=1000"@,
        start.valid() && end.valid() && start.spec_before_or_same(end) && start != end
            ==> midnight_millis(start) + 86_400_000 <= midnight_millis(end),
        forall|d: Date| start.valid() && end.valid() && d.valid() && start.spec_before_or_same(d)
            && d.spec_before_or_same(end) ==> midnight_millis(start) <= #[trigger] midnight_millis(d)
            && midnight_millis(d) <= midnight_millis(end),
{
    if start.valid() && end.valid() && start.spec_before_or_same(end) && start != end {
        lemma_days_from_ce_increasing(start, end);
    }
    assert forall|d: Date| start.valid() && end.valid() && d.valid() && start.spec_before_or_same(d)
        && d.spec_before_or_same(end) implies midnight_millis(start) <= #[trigger] midnight_millis(d)
        && midnight_millis(d) <= midnight_millis(end) by {
        if start != d {
            lemma_days_from_ce_increasing(start, d);
        }
        if d != end {
            lemma_days_from_ce_increasing(d, end);
        }
    }
    reveal_strlit("&maxResults=");
    reveal_strlit("&maxResults=1000");
    assert(decimal(1) == seq!['1']);
    assert(decimal(10) =~= seq!['1', '0']);
    assert(decimal(100) =~= seq!['1', '0', '0']);
    assert(decimal(1000) =~= seq!['1', '0', '0', '0']);
    assert(epoch_millis(start, 0, 0, 0) == midnight_millis(start));
    assert(epoch_millis(end, 23, 59, 59) == midnight_millis(end) + 86_399_000);
    assert(worklog_url_text(base, issue_key, start, end, start_at) =~= base + "/rest/api/3/issue/"@ + issue_key
        + "/worklog?startedAfter="@ + int_text(midnight_millis(start)) + "&startedBefore="@
        + int_text(midnight_millis(end) + 86_399_000) + "&startAt="@ + decimal(start_at as nat)
        + "&maxResults=1000"@);
}

/// How the library reaches a Jira site: its base URL and the account that
/// signs the requests.
pub struct JiraClient {
    pub base_url: String,
    pub email: String,
    pub api_token: String,
}

impl JiraClient {
    /// A client for the site at `base_url`, signing with `email` and `api_token`.
    pub fn new(base_url: String, email: String, api_token: String) -> (c: JiraClient)
        ensures
            c.base_url@ == base_url@,
            c.email@ == email@,
            c.api_token@ == api_token@,
    {
        JiraClient { base_url, email, api_token }
    }

    /// The URL of the page of projects that starts at `start_at`.
    pub fn project_search_url(&self, start_at: u32) -> (u: String)
        ensures
            u@ == project_search_url_text(self.base_url@, start_at),
    {
        let mut u = String::new();
        push_str(&mut u, self.base_url.as_str());
        push_str(&mut u, "/rest/api/3/project/search?startAt=");
        push_decimal(&mut u, start_at as u128);
        push_str(&mut u, "&maxResults=");
        push_decimal(&mut u, PROJECT_PAGE_SIZE as u128);
        assert(u@ =~= project_search_url_text(self.base_url@, start_at));
        u
    }

    /// The URL of a page of the issue search for `project_key` and
    /// `[start, end]`, continuing at `next_page_token` when there is one.
    pub fn issue_search_url(&self, project_key: &str, start: Date, end: Date, next_page_token: Option<&String>) -> (u: String)
        requires
            start.valid(),
            end.valid(),
        ensures
            u@ == issue_search_url_text(self.base_url@, project_key@, start, end, opt_ref_view(next_page_token)),
    {
        let jql = issue_query(project_key, start, end);
        let encoded = url_encode(jql.as_str());
        let mut u = String::new();
        push_str(&mut u, self.base_url.as_str());
        push_str(&mut u, "/rest/api/3/search/jql?jql=");
        push_str(&mut u, encoded.as_str());
        push_str(&mut u, "&maxResults=");
        push_decimal(&mut u, ISSUE_PAGE_SIZE as u128);
        push_str(&mut u, "&fields=");
        push_str(&mut u, "summary,issuetype,parent,customfield_10014");
        match next_page_token {
            Some(t) => {
                push_str(&mut u, "&nextPageToken=");
                push_str(&mut u, t.as_str());
            },
            None => {},
        }
        assert(u@ =~= issue_search_url_text(self.base_url@, project_key@, start, end, opt_ref_view(next_page_token)));
        u
    }

    /// The URL of the page of worklogs of `issue_key` that starts at
    /// `start_at`, limited to work started from the first second of `start`
    /// to the last second of `end` (UTC).
    pub fn worklog_url(&self, issue_key: &str, start: Date, end: Date, start_at: u32) -> (u: String)
        requires
            start.valid(),
            end.valid(),
        ensures
            u@ == worklog_url_text(self.base_url@, issue_key@, start, end, start_at),
    {
        let after = date_time_millis(start, 0, 0, 0);
        let before = date_time_millis(end, 23, 59, 59);
        let mut u = String::new();
        push_str(&mut u, self.base_url.as_str());
        push_str(&mut u, "/rest/api/3/issue/");
        push_str(&mut u, issue_key);
        push_str(&mut u, "/worklog?startedAfter=");
        push_int(&mut u, after);
        push_str(&mut u, "&startedBefore=");
        push_int(&mut u, before);
        push_str(&mut u, "&startAt=");
        push_decimal(&mut u, start_at as u128);
        push_str(&mut u, "&maxResults=");
        push_decimal(&mut u, WORKLOG_PAGE_SIZE as u128);
        assert(u@ =~= worklog_url_text(self.base_url@, issue_key@, start, end, start_at));
        u
    }
}

// ---------------------------------------------------------------------------
// Paging
// ---------------------------------------------------------------------------

/// After a page of projects: where the next page starts, or `None` when the
/// page was the last.
pub fn next_project_start(start_at: u32, is_last: bool) -> (r: Option<u32>)
    requires
        !is_last ==> start_at + 50 <= u32::MAX,
    ensures
        r == (if is_last {
            None
        } else {
            Some((start_at + 50) as u32)
        }),
{
    if is_last {
        None
    } else {
        Some(start_at + PROJECT_PAGE_SIZE)
    }
}

/// After a page of the issue search: whether the search is over, that is
/// when the page was empty or carried no token for a next page.
pub fn issues_done(fetched: usize, next_page_token: Option<&String>) -> (r: bool)
    ensures
        r == (fetched == 0 || next_page_token is None),
{
    fetched == 0 || next_page_token.is_none()
}

/// After a page of worklogs: where the next page starts, or `None` when the
/// page was empty or reached `total`.
pub fn next_worklog_start(start_at: u32, fetched: u32, total: u32) -> (r: Option<u32>)
    requires
        start_at + fetched <= u32::MAX,
        (start_at + fetched < total && fetched != 0) ==> start_at + 1000 <= u32::MAX,
    ensures
        r == (if start_at + fetched >= total || fetched == 0 {
            None
        } else {
            Some((start_at + 1000) as u32)
        }),
{
    if start_at + fetched >= total || fetched == 0 {
        None
    } else {
        Some(start_at + WORKLOG_PAGE_SIZE)
    }
}

// ---------------------------------------------------------------------------
// Responses and retries
// ---------------------------------------------------------------------------

/// How often a request is retried after a 429 answer.
pub const MAX_RETRIES: u32 = 3;

/// What to do with a response.
pub enum ResponseStep {
    /// Wait this many seconds, then send the request again.
    Retry { wait_secs: u64 },
    /// Give up with this error.
    Fail(JiraError),
    /// Read the body as the text of an `ApiError` with this status.
    ReadError { status: u16 },
    /// Read the body as the expected JSON.
    ReadBody,
}

/// The wait that a `Retry-After` header asks for: its value as a number of
/// seconds, or 5 when it is missing or not a number.
pub open spec fn retry_after_secs(header: Option<Seq<char>>) -> u64 {
    match header {
        Some(h) => match parse_u64_spec(h) {
            Some(v) => v,
            None => 5,
        },
        None => 5,
    }
}

/// Decides what to do with the response to attempt `attempt` (counting from
/// 0) that came back with `status` and, maybe, a `Retry-After` header: after
/// a 429, retry while attempts are left and otherwise fail as rate limited;
/// after another status outside 200..=299, read the error body; else read the
/// body.
pub fn next_step(attempt: u32, status: u16, retry_after: Option<&str>) -> (r: ResponseStep)
    requires
        attempt <= 3,
    ensures
        status == 429 && attempt < 3 ==> r == (ResponseStep::Retry {
            wait_secs: retry_after_secs(match retry_after {
                Some(h) => Some(h@),
                None => None,
            }),
        }),
        status == 429 && attempt == 3 ==> (r matches ResponseStep::Fail(JiraError::RateLimited { retry_after_secs: w })
            && w == retry_after_secs(match retry_after {
                Some(h) => Some(h@),
                None => None,
            })),
        status != 429 && !(200 <= status <= 299) ==> r == (ResponseStep::ReadError { status }),
        status != 429 && 200 <= status <= 299 ==> r is ReadBody,
{
    if status == 429 {
        let wait: u64 = match retry_after {
            Some(h) => match parse_u64(h) {
                Some(v) => v,
                None => 5,
            },
            None => 5,
        };
        if attempt < MAX_RETRIES {
            ResponseStep::Retry { wait_secs: wait }
        } else {
            ResponseStep::Fail(JiraError::RateLimited { retry_after_secs: wait })
        }
    } else if !(200 <= status && status <= 299) {
        ResponseStep::ReadError { status }
    } else {
        ResponseStep::ReadBody
    }
}

} // verus!
