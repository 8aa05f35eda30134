//! The Hierarchy tab: issues grouped by epic, then story or task, then
//! sub-task, each row with the hours logged directly on it, and each epic row
//! (and the "(No Epic)" row) with the hours of its immediate children.
//! The tab has three levels: an issue whose parent is itself a sub-task of
//! the list (a fourth level) is left out, rows and hours alike.

use vstd::prelude::*;
use crate::jira::Worklog;
use crate::report::{
    Cell, CellView, GroupBy, Sheet, key_seconds, total_seconds, row_view, rows_view, push_row,
    lemma_step_facts, lemma_total_fits, lemma_key_seconds_le_total,
};
use crate::text::{owned, push_char, push_str};

verus! {

/// An issue as the hierarchy sees it.
pub struct IssueNode {
    pub key: String,
    pub summary: String,
    pub issue_type: String,
    /// The parent issue (a sub-task's story or task).
    pub parent_key: Option<String>,
    /// The epic the issue belongs to.
    pub epic_key: Option<String>,
}

/// The value of an optional borrowed string.
pub open spec fn opt_ref_view(o: Option<&String>) -> Option<Seq<char>> {
    match o {
        Some(s) => Some(s@),
        None => None,
    }
}

/// Epics are the issues of type "Epic".
pub open spec fn is_epic(n: IssueNode) -> bool {
    n.issue_type@ == "Epic"@
}

/// Some issue that is not an epic has key `k`.
pub open spec fn has_task_with_key(ns: Seq<IssueNode>, k: Seq<char>) -> bool {
    exists|j: int| 0 <= j < ns.len() && (#[trigger] ns[j]).key@ == k && !is_epic(ns[j])
}

/// Some epic has key `k`.
pub open spec fn has_epic_with_key(ns: Seq<IssueNode>, k: Seq<char>) -> bool {
    exists|j: int| 0 <= j < ns.len() && (#[trigger] ns[j]).key@ == k && is_epic(ns[j])
}

/// A story or task: not an epic, and its parent, if any, is not an issue of
/// the list other than an epic.
pub open spec fn is_top_level(ns: Seq<IssueNode>, n: IssueNode) -> bool {
    &&& !is_epic(n)
    &&& match n.parent_key {
        Some(p) => !has_task_with_key(ns, p@),
        None => true,
    }
}

/// The epic an issue is listed under: its epic key when an epic of the list
/// has that key, else none.
pub open spec fn epic_of(ns: Seq<IssueNode>, n: IssueNode) -> Option<Seq<char>> {
    match n.epic_key {
        Some(e) => if has_epic_with_key(ns, e@) {
            Some(e@)
        } else {
            None
        },
        None => None,
    }
}

/// `n` is an immediate child of the group `g` (an epic's key, or none for
/// the "(No Epic)" group).
pub open spec fn in_group(ns: Seq<IssueNode>, n: IssueNode, g: Option<Seq<char>>) -> bool {
    is_top_level(ns, n) && epic_of(ns, n) == g
}

/// `n` is a sub-task of the issue with key `k`.
pub open spec fn is_subtask_of(n: IssueNode, k: Seq<char>) -> bool {
    &&& !is_epic(n)
    &&& match n.parent_key {
        Some(p) => p@ == k,
        None => false,
    }
}

/// Seconds logged directly on the issue with key `k`.
pub open spec fn direct_seconds(ws: Seq<Worklog>, k: Seq<char>) -> nat {
    key_seconds(ws, GroupBy::IssueKey, k)
}

/// Two spaces: the indentation of a story or task.
pub open spec fn child_indent() -> Seq<char> {
    seq![' ', ' ']
}

/// Four spaces: the indentation of a sub-task.
pub open spec fn subtask_indent() -> Seq<char> {
    seq![' ', ' ', ' ', ' ']
}

/// The row of an issue below an epic: indented key, summary, type, and the
/// hours logged directly on it.
pub open spec fn node_row(ws: Seq<Worklog>, n: IssueNode, indent: Seq<char>) -> Seq<CellView> {
    seq![
        CellView::Text(indent + n.key@),
        CellView::Text(n.summary@),
        CellView::Text(n.issue_type@),
        CellView::Hours(direct_seconds(ws, n.key@) as u128),
    ]
}

/// The row of an epic with the hours of its immediate children.
pub open spec fn epic_row(e: IssueNode, total: nat) -> Seq<CellView> {
    seq![
        CellView::Text(e.key@),
        CellView::Text(e.summary@),
        CellView::Text(e.issue_type@),
        CellView::Hours(total as u128),
    ]
}

/// The row that heads the issues without an epic.
pub open spec fn no_epic_row(total: nat) -> Seq<CellView> {
    seq![CellView::Text("(No Epic)"@), CellView::Blank, CellView::Blank, CellView::Hours(total as u128)]
}

/// The rows of the sub-tasks of `k` among the first `upto` issues.
pub open spec fn subtask_rows(ns: Seq<IssueNode>, ws: Seq<Worklog>, k: Seq<char>, upto: int) -> Seq<Seq<CellView>>
    decreases upto,
{
    if upto <= 0 {
        seq![]
    } else {
        subtask_rows(ns, ws, k, upto - 1) + if is_subtask_of(ns[upto - 1], k) {
            seq![node_row(ws, ns[upto - 1], subtask_indent())]
        } else {
            seq![]
        }
    }
}

/// A story or task row followed by the rows of its sub-tasks.
pub open spec fn child_block(ns: Seq<IssueNode>, ws: Seq<Worklog>, n: IssueNode) -> Seq<Seq<CellView>> {
    seq![node_row(ws, n, child_indent())] + subtask_rows(ns, ws, n.key@, ns.len() as int)
}

/// The blocks of the immediate children of group `g` among the first `upto` issues.
pub open spec fn group_rows(ns: Seq<IssueNode>, ws: Seq<Worklog>, g: Option<Seq<char>>, upto: int) -> Seq<Seq<CellView>>
    decreases upto,
{
    if upto <= 0 {
        seq![]
    } else {
        group_rows(ns, ws, g, upto - 1) + if in_group(ns, ns[upto - 1], g) {
            child_block(ns, ws, ns[upto - 1])
        } else {
            seq![]
        }
    }
}

/// Seconds logged directly on the immediate children of group `g` among the
/// first `upto` issues.
pub open spec fn group_total(ns: Seq<IssueNode>, ws: Seq<Worklog>, g: Option<Seq<char>>, upto: int) -> nat
    decreases upto,
{
    if upto <= 0 {
        0
    } else {
        group_total(ns, ws, g, upto - 1) + if in_group(ns, ns[upto - 1], g) {
            direct_seconds(ws, ns[upto - 1].key@)
        } else {
            0
        }
    }
}

/// The blocks of the epics among the first `upto` issues, each its epic row
/// followed by the blocks of its immediate children.
pub open spec fn epic_blocks(ns: Seq<IssueNode>, ws: Seq<Worklog>, upto: int) -> Seq<Seq<CellView>>
    decreases upto,
{
    if upto <= 0 {
        seq![]
    } else {
        epic_blocks(ns, ws, upto - 1) + if is_epic(ns[upto - 1]) {
            seq![epic_row(ns[upto - 1], group_total(ns, ws, Some(ns[upto - 1].key@), ns.len() as int))]
                + group_rows(ns, ws, Some(ns[upto - 1].key@), ns.len() as int)
        } else {
            seq![]
        }
    }
}

/// Some story or task has no epic of the list.
pub open spec fn has_orphans(ns: Seq<IssueNode>) -> bool {
    exists|j: int| 0 <= j < ns.len() && in_group(ns, #[trigger] ns[j], None)
}

/// The "(No Epic)" block, present when some story or task has no epic.
pub open spec fn no_epic_block(ns: Seq<IssueNode>, ws: Seq<Worklog>) -> Seq<Seq<CellView>> {
    if has_orphans(ns) {
        seq![no_epic_row(group_total(ns, ws, None, ns.len() as int))] + group_rows(ns, ws, None, ns.len() as int)
    } else {
        seq![]
    }
}

/// The header of the Hierarchy tab.
pub open spec fn hierarchy_header() -> Seq<CellView> {
    seq![
        CellView::Heading("Key"@),
        CellView::Heading("Summary"@),
        CellView::Heading("Type"@),
        CellView::Heading("Hours"@),
    ]
}

/// The Hierarchy tab: the header, the epics in the order given with their
/// children, then the issues without an epic. An issue whose parent is a
/// sub-task of the list has no row, and its hours count in no total.
pub open spec fn hierarchy_rows(ns: Seq<IssueNode>, ws: Seq<Worklog>) -> Seq<Seq<CellView>> {
    seq![hierarchy_header()] + epic_blocks(ns, ws, ns.len() as int) + no_epic_block(ns, ws)
}

/// The sums of the Hierarchy tab fit in 128 bits.
pub open spec fn hierarchy_fits(ns: Seq<IssueNode>, ws: Seq<Worklog>) -> bool {
    ns.len() * total_seconds(ws) <= u128::MAX
}

// ---------------------------------------------------------------------------
// Executable parts
// ---------------------------------------------------------------------------

fn is_epic_node(n: &IssueNode) -> (r: bool)
    ensures
        r == is_epic(*n),
{
    let epic = owned("Epic");
    n.issue_type == epic
}

fn find_task(ns: &[IssueNode], k: &String) -> (r: bool)
    ensures
        r == has_task_with_key(ns@, k@),
{
    let mut j: usize = 0;
    while j < ns.len()
        invariant
            j <= ns.len(),
            forall|q: int| 0 <= q < j ==> !((#[trigger] ns@[q]).key@ == k@ && !is_epic(ns@[q])),
        decreases ns.len() - j,
    {
        if ns[j].key == *k && !is_epic_node(&ns[j]) {
            return true;
        }
        j = j + 1;
    }
    false
}

fn find_epic(ns: &[IssueNode], k: &String) -> (r: bool)
    ensures
        r == has_epic_with_key(ns@, k@),
{
    let mut j: usize = 0;
    while j < ns.len()
        invariant
            j <= ns.len(),
            forall|q: int| 0 <= q < j ==> !((#[trigger] ns@[q]).key@ == k@ && is_epic(ns@[q])),
        decreases ns.len() - j,
    {
        if ns[j].key == *k && is_epic_node(&ns[j]) {
            return true;
        }
        j = j + 1;
    }
    false
}

fn top_level(ns: &[IssueNode], n: &IssueNode) -> (r: bool)
    ensures
        r == is_top_level(ns@, *n),
{
    if is_epic_node(n) {
        return false;
    }
    match &n.parent_key {
        Some(p) => !find_task(ns, p),
        None => true,
    }
}

fn member_of(ns: &[IssueNode], n: &IssueNode, g: Option<&String>) -> (r: bool)
    ensures
        r == in_group(ns@, *n, opt_ref_view(g)),
{
    if !top_level(ns, n) {
        return false;
    }
    let e: Option<&String> = match &n.epic_key {
        Some(e) => if find_epic(ns, e) {
            Some(e)
        } else {
            None
        },
        None => None,
    };
    match (e, g) {
        (Some(a), Some(b)) => *a == *b,
        (None, None) => true,
        _ => false,
    }
}

fn subtask_of(n: &IssueNode, k: &String) -> (r: bool)
    ensures
        r == is_subtask_of(*n, k@),
{
    if is_epic_node(n) {
        return false;
    }
    match &n.parent_key {
        Some(p) => *p == *k,
        None => false,
    }
}

/// Seconds logged directly on the issue with key `k`.
pub fn issue_seconds(ws: &[Worklog], k: &String) -> (t: u128)
    ensures
        t == direct_seconds(ws@, k@),
{
    let mut t: u128 = 0;
    let mut i: usize = 0;
    while i < ws.len()
        invariant
            i <= ws.len(),
            t == key_seconds(ws@.take(i as int), GroupBy::IssueKey, k@),
        decreases ws.len() - i,
    {
        proof {
            lemma_step_facts(ws@, i as int, GroupBy::IssueKey);
            lemma_total_fits(ws@, i + 1);
            lemma_key_seconds_le_total(ws@.take(i + 1), GroupBy::IssueKey, k@);
        }
        if ws[i].issue_key == *k {
            t = t + ws[i].seconds as u128;
        }
        i = i + 1;
    }
    assert(ws@.take(ws.len() as int) =~= ws@);
    t
}

fn indented_key(indent: usize, k: &String) -> (s: String)
    requires
        indent == 2 || indent == 4,
    ensures
        indent == 2 ==> s@ == child_indent() + k@,
        indent == 4 ==> s@ == subtask_indent() + k@,
{
    let mut s = String::new();
    let mut i: usize = 0;
    while i < indent
        invariant
            i <= indent,
            s@ == Seq::new(i as nat, |x: int| ' '),
        decreases indent - i,
    {
        push_char(&mut s, ' ');
        assert(s@ =~= Seq::new((i + 1) as nat, |x: int| ' '));
        i = i + 1;
    }
    push_str(&mut s, k.as_str());
    assert(indent == 2 ==> s@ =~= child_indent() + k@);
    assert(indent == 4 ==> s@ =~= subtask_indent() + k@);
    s
}

fn make_node_row(ws: &[Worklog], n: &IssueNode, indent: usize) -> (r: Vec<Cell>)
    requires
        indent == 2 || indent == 4,
    ensures
        indent == 2 ==> row_view(r) == node_row(ws@, *n, child_indent()),
        indent == 4 ==> row_view(r) == node_row(ws@, *n, subtask_indent()),
{
    let r = vec![
        Cell::Text(indented_key(indent, &n.key)),
        Cell::Text(n.summary.clone()),
        Cell::Text(n.issue_type.clone()),
        Cell::Hours(issue_seconds(ws, &n.key)),
    ];
    assert(indent == 2 ==> row_view(r) =~= node_row(ws@, *n, child_indent()));
    assert(indent == 4 ==> row_view(r) =~= node_row(ws@, *n, subtask_indent()));
    r
}

fn push_subtasks(rows: &mut Vec<Vec<Cell>>, ns: &[IssueNode], ws: &[Worklog], k: &String)
    ensures
        rows_view(final(rows)@) == rows_view(old(rows)@) + subtask_rows(ns@, ws@, k@, ns.len() as int),
{
    let ghost start = rows_view(rows@);
    let mut j: usize = 0;
    assert(start =~= start + subtask_rows(ns@, ws@, k@, 0));
    while j < ns.len()
        invariant
            j <= ns.len(),
            rows_view(rows@) == start + subtask_rows(ns@, ws@, k@, j as int),
        decreases ns.len() - j,
    {
        if subtask_of(&ns[j], k) {
            let r = make_node_row(ws, &ns[j], 4);
            push_row(rows, r);
            assert(rows_view(rows@) =~= start + subtask_rows(ns@, ws@, k@, j + 1));
        } else {
            assert(rows_view(rows@) =~= start + subtask_rows(ns@, ws@, k@, j + 1));
        }
        j = j + 1;
    }
}

fn push_group(rows: &mut Vec<Vec<Cell>>, ns: &[IssueNode], ws: &[Worklog], g: Option<&String>)
    ensures
        rows_view(final(rows)@) == rows_view(old(rows)@) + group_rows(ns@, ws@, opt_ref_view(g), ns.len() as int),
{
    let ghost start = rows_view(rows@);
    let ghost gv = opt_ref_view(g);
    let mut j: usize = 0;
    assert(start =~= start + group_rows(ns@, ws@, gv, 0));
    while j < ns.len()
        invariant
            j <= ns.len(),
            gv == opt_ref_view(g),
            rows_view(rows@) == start + group_rows(ns@, ws@, gv, j as int),
        decreases ns.len() - j,
    {
        if member_of(ns, &ns[j], g) {
            let ghost before = rows_view(rows@);
            let r = make_node_row(ws, &ns[j], 2);
            push_row(rows, r);
            push_subtasks(rows, ns, ws, &ns[j].key);
            assert(rows_view(rows@) =~= before + child_block(ns@, ws@, ns@[j as int]));
            assert(rows_view(rows@) =~= start + group_rows(ns@, ws@, gv, j + 1));
        } else {
            assert(rows_view(rows@) =~= start + group_rows(ns@, ws@, gv, j + 1));
        }
        j = j + 1;
    }
}

proof fn lemma_group_total_bound(ns: Seq<IssueNode>, ws: Seq<Worklog>, g: Option<Seq<char>>, upto: int)
    requires
        0 <= upto <= ns.len(),
    ensures
        group_total(ns, ws, g, upto) <= upto * total_seconds(ws),
    decreases upto,
{
    if upto > 0 {
        lemma_group_total_bound(ns, ws, g, upto - 1);
        lemma_key_seconds_le_total(ws, GroupBy::IssueKey, ns[upto - 1].key@);
        let t = total_seconds(ws);
        assert((upto - 1) * t + t == upto * t) by (nonlinear_arith);
    }
}

fn group_seconds(ns: &[IssueNode], ws: &[Worklog], g: Option<&String>) -> (t: u128)
    requires
        hierarchy_fits(ns@, ws@),
    ensures
        t == group_total(ns@, ws@, opt_ref_view(g), ns.len() as int),
{
    let ghost gv = opt_ref_view(g);
    let mut t: u128 = 0;
    let mut j: usize = 0;
    while j < ns.len()
        invariant
            j <= ns.len(),
            gv == opt_ref_view(g),
            hierarchy_fits(ns@, ws@),
            t == group_total(ns@, ws@, gv, j as int),
        decreases ns.len() - j,
    {
        if member_of(ns, &ns[j], g) {
            let d = issue_seconds(ws, &ns[j].key);
            proof {
                lemma_group_total_bound(ns@, ws@, gv, j + 1);
                let tt = total_seconds(ws@);
                let n = ns.len() as int;
                assert((j + 1) * tt <= n * tt) by (nonlinear_arith)
                    requires
                        j + 1 <= n,
                        tt >= 0,
                ;
            }
            t = t + d;
        }
        j = j + 1;
    }
    t
}

fn orphans(ns: &[IssueNode]) -> (r: bool)
    ensures
        r == has_orphans(ns@),
{
    let mut j: usize = 0;
    while j < ns.len()
        invariant
            j <= ns.len(),
            forall|q: int| 0 <= q < j ==> !in_group(ns@, #[trigger] ns@[q], None),
        decreases ns.len() - j,
    {
        if member_of(ns, &ns[j], None) {
            return true;
        }
        j = j + 1;
    }
    false
}

fn push_epics(rows: &mut Vec<Vec<Cell>>, ns: &[IssueNode], ws: &[Worklog])
    requires
        hierarchy_fits(ns@, ws@),
    ensures
        rows_view(final(rows)@) == rows_view(old(rows)@) + epic_blocks(ns@, ws@, ns.len() as int),
{
    let ghost start = rows_view(rows@);
    let mut j: usize = 0;
    assert(start =~= start + epic_blocks(ns@, ws@, 0));
    while j < ns.len()
        invariant
            j <= ns.len(),
            hierarchy_fits(ns@, ws@),
            rows_view(rows@) == start + epic_blocks(ns@, ws@, j as int),
        decreases ns.len() - j,
    {
        let e = &ns[j];
        if is_epic_node(e) {
            let ghost before = rows_view(rows@);
            let total = group_seconds(ns, ws, Some(&e.key));
            let r = vec![
                Cell::Text(e.key.clone()),
                Cell::Text(e.summary.clone()),
                Cell::Text(e.issue_type.clone()),
                Cell::Hours(total),
            ];
            assert(row_view(r) =~= epic_row(*e, group_total(ns@, ws@, Some(e.key@), ns.len() as int)));
            push_row(rows, r);
            push_group(rows, ns, ws, Some(&e.key));
            assert(rows_view(rows@) =~= start + epic_blocks(ns@, ws@, j + 1));
        } else {
            assert(rows_view(rows@) =~= start + epic_blocks(ns@, ws@, j + 1));
        }
        j = j + 1;
    }
}

/// Builds the Hierarchy tab: each epic in the order given, with the hours
/// logged directly on its immediate children, followed by those children
/// (indented by two spaces, with their own hours) and their sub-tasks
/// (indented by four); then "(No Epic)" with the stories and tasks that have
/// no epic of the list. An issue below a sub-task (a fourth level) is left
/// out: it gets no row and its hours are in no total.
pub fn write_hierarchy_tab(ws: &[Worklog], ns: &[IssueNode]) -> (sheet: Sheet)
    requires
        hierarchy_fits(ns@, ws@),
    ensures
        sheet.name@ == "Hierarchy"@,
        sheet.cells() == hierarchy_rows(ns@, ws@),
{
    let mut rows: Vec<Vec<Cell>> = Vec::new();
    let h = vec![
        Cell::Heading(owned("Key")),
        Cell::Heading(owned("Summary")),
        Cell::Heading(owned("Type")),
        Cell::Heading(owned("Hours")),
    ];
    assert(row_view(h) =~= hierarchy_header());
    push_row(&mut rows, h);
    push_epics(&mut rows, ns, ws);
    if orphans(ns) {
        let total = group_seconds(ns, ws, None);
        let r = vec![Cell::Text(owned("(No Epic)")), Cell::Blank, Cell::Blank, Cell::Hours(total)];
        assert(row_view(r) =~= no_epic_row(group_total(ns@, ws@, None, ns.len() as int)));
        push_row(&mut rows, r);
        push_group(&mut rows, ns, ws, None);
    }
    let sheet = Sheet { name: owned("Hierarchy"), rows };
    assert(sheet.cells() =~= hierarchy_rows(ns@, ws@));
    sheet
}

/// The number of immediate children of group `g`, among the first `upto`
/// issues, whose key is `k`.
pub open spec fn children_with_key(ns: Seq<IssueNode>, g: Option<Seq<char>>, k: Seq<char>, upto: int) -> nat
    decreases upto,
{
    if upto <= 0 {
        0
    } else {
        children_with_key(ns, g, k, upto - 1) + if in_group(ns, ns[upto - 1], g) && ns[upto - 1].key@ == k {
            1nat
        } else {
            0nat
        }
    }
}

proof fn lemma_direct_seconds_push(ws: Seq<Worklog>, w: Worklog, k: Seq<char>)
    ensures
        direct_seconds(ws.push(w), k) == direct_seconds(ws, k) + if w.issue_key@ == k {
            w.seconds as nat
        } else {
            0
        },
{
    assert(ws.push(w).drop_last() =~= ws);
    assert(ws.push(w).last() == w);
}

proof fn lemma_group_total_push(ns: Seq<IssueNode>, ws: Seq<Worklog>, w: Worklog, g: Option<Seq<char>>, upto: int)
    requires
        0 <= upto <= ns.len(),
    ensures
        group_total(ns, ws.push(w), g, upto) == group_total(ns, ws, g, upto) + children_with_key(ns, g, w.issue_key@, upto) * w.seconds,
    decreases upto,
{
    if upto == 0 {
        assert(children_with_key(ns, g, w.issue_key@, upto) == 0);
    }
    if upto > 0 {
        lemma_group_total_push(ns, ws, w, g, upto - 1);
        lemma_direct_seconds_push(ws, w, ns[upto - 1].key@);
        let n = ns[upto - 1];
        let c = children_with_key(ns, g, w.issue_key@, upto - 1) as int;
        let s = w.seconds as int;
        assert((c + 1) * s == c * s + s) by (nonlinear_arith);
        let t0 = group_total(ns, ws, g, upto - 1) as int;
        let t1 = group_total(ns, ws.push(w), g, upto - 1) as int;
        assert(t1 == t0 + c * s);
        if in_group(ns, n, g) && n.key@ == w.issue_key@ {
            assert(children_with_key(ns, g, w.issue_key@, upto) == c + 1);
            assert(direct_seconds(ws.push(w), n.key@) == direct_seconds(ws, n.key@) + s);
            assert(group_total(ns, ws.push(w), g, upto) == t1 + direct_seconds(ws, n.key@) + s);
            assert(group_total(ns, ws, g, upto) == t0 + direct_seconds(ws, n.key@));
            assert(group_total(ns, ws.push(w), g, upto) == group_total(ns, ws, g, upto) + children_with_key(ns, g, w.issue_key@, upto) * w.seconds);
        } else if in_group(ns, n, g) {
            assert(children_with_key(ns, g, w.issue_key@, upto) == c);
            assert(direct_seconds(ws.push(w), n.key@) == direct_seconds(ws, n.key@));
            assert(group_total(ns, ws.push(w), g, upto) == group_total(ns, ws, g, upto) + children_with_key(ns, g, w.issue_key@, upto) * w.seconds);
        } else {
            assert(children_with_key(ns, g, w.issue_key@, upto) == c);
            assert(group_total(ns, ws.push(w), g, upto) == group_total(ns, ws, g, upto) + children_with_key(ns, g, w.issue_key@, upto) * w.seconds);
        }
    }
}

proof fn lemma_group_total_empty(ns: Seq<IssueNode>, g: Option<Seq<char>>, upto: int)
    ensures
        group_total(ns, Seq::<Worklog>::empty(), g, upto) == 0,
    decreases upto,
{
    if upto > 0 {
        lemma_group_total_empty(ns, g, upto - 1);
    }
}

/// The hours on an epic row (or the "(No Epic)" row) add up the hours of its
/// immediate children: with no worklogs the row shows nothing, and one more
/// worklog raises it by the worklog's seconds for every child of the group
/// that carries the worklog's issue key, so by exactly those seconds when one
/// child has that key, and not at all when none has.
pub proof fn law_group_hours_add_up(ns: Seq<IssueNode>, ws: Seq<Worklog>, w: Worklog, g: Option<Seq<char>>)
    ensures
        group_total(ns, Seq::<Worklog>::empty(), g, ns.len() as int) == 0,
        group_total(ns, ws.push(w), g, ns.len() as int)
            == group_total(ns, ws, g, ns.len() as int) + children_with_key(ns, g, w.issue_key@, ns.len() as int) * w.seconds,
{
    lemma_group_total_empty(ns, g, ns.len() as int);
    lemma_group_total_push(ns, ws, w, g, ns.len() as int);
}

} // verus!
