//! The report: the four tabs of the workbook, built as rows of cells from the
//! worklogs and the issue hierarchy.

use vstd::prelude::*;
use crate::jira::Worklog;
use crate::hierarchy::{hierarchy_fits, hierarchy_rows, write_hierarchy_tab, direct_seconds, in_group};
pub use crate::hierarchy::IssueNode;
use crate::date::Date;
use crate::text::{decimal, push_char, push_decimal, owned, seq_lt, str_lt, lemma_seq_lt_irreflexive, lemma_seq_lt_total, lemma_seq_lt_transitive};

verus! {

/// Which field of a worklog a summary groups by.
#[derive(Clone, Copy, Debug, PartialEq, Eq, Structural)]
pub enum GroupBy {
    Author,
    IssueKey,
}

/// The field of a worklog that a summary groups by.
pub open spec fn key_of(w: Worklog, by: GroupBy) -> Seq<char> {
    match by {
        GroupBy::Author => w.author@,
        GroupBy::IssueKey => w.issue_key@,
    }
}

/// Seconds logged in `ws` under the key `k`.
pub open spec fn key_seconds(ws: Seq<Worklog>, by: GroupBy, k: Seq<char>) -> nat
    decreases ws.len(),
{
    if ws.len() == 0 {
        0
    } else {
        key_seconds(ws.drop_last(), by, k) + (if key_of(ws.last(), by) == k {
            ws.last().seconds as nat
        } else {
            0
        })
    }
}

/// Seconds logged in `ws` altogether.
pub open spec fn total_seconds(ws: Seq<Worklog>) -> nat
    decreases ws.len(),
{
    if ws.len() == 0 {
        0
    } else {
        total_seconds(ws.drop_last()) + ws.last().seconds as nat
    }
}

/// `f` is the first position of `ws` whose key is `k`.
pub open spec fn is_first_with_key(ws: Seq<Worklog>, by: GroupBy, k: Seq<char>, f: int) -> bool {
    &&& 0 <= f < ws.len()
    &&& key_of(ws[f], by) == k
    &&& forall|j: int| 0 <= j < f ==> key_of(#[trigger] ws[j], by) != k
}

/// One row of a summary: a key, the seconds logged under it, and the first
/// worklog that carries it.
pub struct Group {
    pub key: String,
    pub seconds: u128,
    pub first: usize,
}

/// Keys strictly ascending.
pub open spec fn groups_sorted(gs: Seq<Group>) -> bool {
    forall|i: int, j: int| 0 <= i < j < gs.len() ==> seq_lt(#[trigger] gs[i].key@, #[trigger] gs[j].key@)
}

/// `gs` is the summary of `ws` grouped by `by`: one group per distinct key,
/// ascending by key, each with the seconds logged under its key and the
/// position of the first worklog with that key.
pub open spec fn groups_of(gs: Seq<Group>, ws: Seq<Worklog>, by: GroupBy) -> bool {
    &&& groups_sorted(gs)
    &&& forall|i: int| 0 <= i < gs.len() ==> {
        &&& (#[trigger] gs[i]).seconds == key_seconds(ws, by, gs[i].key@)
        &&& is_first_with_key(ws, by, gs[i].key@, gs[i].first as int)
    }
    &&& covers(gs, ws, by)
}

/// Every worklog of `ws` has its key in some group of `gs`.
pub open spec fn covers(gs: Seq<Group>, ws: Seq<Worklog>, by: GroupBy) -> bool {
    forall|j: int| 0 <= j < ws.len() ==> has_group_key(gs, key_of(#[trigger] ws[j], by))
}

/// Some group of `gs` has key `k`.
pub open spec fn has_group_key(gs: Seq<Group>, k: Seq<char>) -> bool {
    exists|i: int| 0 <= i < gs.len() && (#[trigger] gs[i]).key@ == k
}

/// The seconds of all groups together.
pub open spec fn group_sum(gs: Seq<Group>) -> nat
    decreases gs.len(),
{
    if gs.len() == 0 {
        0
    } else {
        group_sum(gs.drop_last()) + gs.last().seconds as nat
    }
}

proof fn lemma_group_sum_update(gs: Seq<Group>, p: int, g: Group)
    requires
        0 <= p < gs.len(),
    ensures
        group_sum(gs.update(p, g)) == group_sum(gs) - gs[p].seconds + g.seconds,
    decreases gs.len(),
{
    if p == gs.len() - 1 {
        assert(gs.update(p, g).drop_last() =~= gs.drop_last());
    } else {
        assert(gs.update(p, g).drop_last() =~= gs.drop_last().update(p, g));
        lemma_group_sum_update(gs.drop_last(), p, g);
    }
}

proof fn lemma_group_sum_insert(gs: Seq<Group>, p: int, g: Group)
    requires
        0 <= p <= gs.len(),
    ensures
        group_sum(gs.insert(p, g)) == group_sum(gs) + g.seconds,
    decreases gs.len(),
{
    if p == gs.len() {
        assert(gs.insert(p, g).drop_last() =~= gs);
    } else {
        assert(gs.insert(p, g).drop_last() =~= gs.drop_last().insert(p, g));
        lemma_group_sum_insert(gs.drop_last(), p, g);
    }
}

proof fn lemma_key_seconds_absent(ws: Seq<Worklog>, by: GroupBy, k: Seq<char>)
    requires
        forall|j: int| 0 <= j < ws.len() ==> key_of(#[trigger] ws[j], by) != k,
    ensures
        key_seconds(ws, by, k) == 0,
    decreases ws.len(),
{
    if ws.len() > 0 {
        lemma_key_seconds_absent(ws.drop_last(), by, k);
    }
}

pub(crate) proof fn lemma_key_seconds_le_total(ws: Seq<Worklog>, by: GroupBy, k: Seq<char>)
    ensures
        key_seconds(ws, by, k) <= total_seconds(ws),
    decreases ws.len(),
{
    if ws.len() > 0 {
        lemma_key_seconds_le_total(ws.drop_last(), by, k);
    }
}

proof fn lemma_total_bound(ws: Seq<Worklog>)
    ensures
        total_seconds(ws) <= ws.len() * 0xffff_ffff_ffff_ffff,
    decreases ws.len(),
{
    if ws.len() > 0 {
        lemma_total_bound(ws.drop_last());
        let n = ws.len() as int;
        assert((n - 1) * 0xffff_ffff_ffff_ffff + 0xffff_ffff_ffff_ffff == n * 0xffff_ffff_ffff_ffff)
            by (nonlinear_arith);
    }
}

pub(crate) proof fn lemma_total_fits(ws: Seq<Worklog>, n: int)
    requires
        0 <= n <= ws.len(),
        ws.len() <= usize::MAX,
    ensures
        total_seconds(ws.take(n)) <= u128::MAX,
{
    lemma_total_bound(ws.take(n));
    assert(usize::MAX <= 0xffff_ffff_ffff_ffff);
    assert(n * 0xffff_ffff_ffff_ffff <= 0xffff_ffff_ffff_ffff * 0xffff_ffff_ffff_ffff) by (nonlinear_arith)
        requires
            0 <= n <= 0xffff_ffff_ffff_ffff,
    ;
}

fn group_key<'a>(w: &'a Worklog, by: GroupBy) -> (k: &'a String)
    ensures
        k@ == key_of(*w, by),
{
    match by {
        GroupBy::Author => &w.author,
        GroupBy::IssueKey => &w.issue_key,
    }
}

pub(crate) proof fn lemma_step_facts(ws: Seq<Worklog>, i: int, by: GroupBy)
    requires
        0 <= i < ws.len(),
    ensures
        ws.take(i + 1).drop_last() == ws.take(i),
        ws.take(i + 1).last() == ws[i],
        forall|k: Seq<char>| k != key_of(ws[i], by) ==> key_seconds(ws.take(i + 1), by, k) == key_seconds(ws.take(i), by, k),
        key_seconds(ws.take(i + 1), by, key_of(ws[i], by)) == key_seconds(ws.take(i), by, key_of(ws[i], by)) + ws[i].seconds,
        forall|j: int| 0 <= j < i ==> #[trigger] ws.take(i + 1)[j] == ws.take(i)[j],
{
    assert(ws.take(i + 1).drop_last() =~= ws.take(i));
}

proof fn lemma_update_step(old_gs: Seq<Group>, gs: Seq<Group>, ws: Seq<Worklog>, i: int, by: GroupBy, p: int)
    requires
        0 <= i < ws.len(),
        groups_of(old_gs, ws.take(i), by),
        0 <= p < old_gs.len(),
        old_gs[p].key@ == key_of(ws[i], by),
        gs.len() == old_gs.len(),
        gs[p].key@ == old_gs[p].key@,
        gs[p].first == old_gs[p].first,
        gs[p].seconds == old_gs[p].seconds + ws[i].seconds,
        forall|a: int| 0 <= a < gs.len() && a != p ==> gs[a] == old_gs[a],
    ensures
        groups_of(gs, ws.take(i + 1), by),
{
    lemma_step_facts(ws, i, by);
    let done = ws.take(i);
    let next = ws.take(i + 1);
    assert forall|a: int, b: int| 0 <= a < b < gs.len() implies seq_lt(#[trigger] gs[a].key@, #[trigger] gs[b].key@) by {
        assert(old_gs[a].key@ == gs[a].key@);
        assert(old_gs[b].key@ == gs[b].key@);
    }
    assert forall|a: int| 0 <= a < gs.len() implies {
        &&& (#[trigger] gs[a]).seconds == key_seconds(next, by, gs[a].key@)
        &&& is_first_with_key(next, by, gs[a].key@, gs[a].first as int)
    } by {
        assert(old_gs[a].key@ == gs[a].key@);
        if a != p {
            lemma_seq_lt_irreflexive(old_gs[p].key@);
            if a < p {
                assert(seq_lt(old_gs[a].key@, old_gs[p].key@));
            } else {
                assert(seq_lt(old_gs[p].key@, old_gs[a].key@));
            }
        }
        lemma_first_extends(ws, i, by, gs[a].key@, gs[a].first as int);
    }
    assert forall|j: int| 0 <= j < next.len() implies has_group_key(gs, key_of(#[trigger] next[j], by)) by {
        if j < i {
            let a = choose|a: int| 0 <= a < old_gs.len() && (#[trigger] old_gs[a]).key@ == key_of(done[j], by);
            assert(gs[a].key@ == old_gs[a].key@);
        } else {
            assert(gs[p].key@ == key_of(next[j], by));
        }
    }
}

proof fn lemma_first_extends(ws: Seq<Worklog>, i: int, by: GroupBy, k: Seq<char>, f: int)
    requires
        0 <= i < ws.len(),
        is_first_with_key(ws.take(i), by, k, f),
    ensures
        is_first_with_key(ws.take(i + 1), by, k, f),
{
    assert forall|j: int| 0 <= j < f implies key_of(#[trigger] ws.take(i + 1)[j], by) != k by {
        assert(ws.take(i + 1)[j] == ws.take(i)[j]);
    }
}

proof fn lemma_insert_sorted(old_gs: Seq<Group>, gs: Seq<Group>, key: Seq<char>, p: int, g: Group)
    requires
        groups_sorted(old_gs),
        0 <= p <= old_gs.len(),
        forall|q: int| 0 <= q < p ==> seq_lt(#[trigger] old_gs[q].key@, key),
        forall|q: int| p <= q < old_gs.len() ==> seq_lt(key, #[trigger] old_gs[q].key@),
        g.key@ == key,
        gs == old_gs.insert(p, g),
    ensures
        groups_sorted(gs),
{
    assert forall|a: int, b: int| 0 <= a < b < gs.len() implies seq_lt(#[trigger] gs[a].key@, #[trigger] gs[b].key@) by {
        if b < p {
            assert(gs[a] == old_gs[a]);
            assert(gs[b] == old_gs[b]);
        } else if a < p && b == p {
            assert(gs[a] == old_gs[a]);
        } else if a < p && b > p {
            assert(gs[a] == old_gs[a]);
            assert(gs[b] == old_gs[b - 1]);
            lemma_seq_lt_transitive(gs[a].key@, key, gs[b].key@);
        } else if a == p {
            assert(gs[b] == old_gs[b - 1]);
        } else {
            assert(gs[a] == old_gs[a - 1]);
            assert(gs[b] == old_gs[b - 1]);
        }
    }
}

proof fn lemma_insert_step(old_gs: Seq<Group>, gs: Seq<Group>, ws: Seq<Worklog>, i: int, by: GroupBy, p: int, g: Group)
    requires
        0 <= i < ws.len(),
        groups_of(old_gs, ws.take(i), by),
        0 <= p <= old_gs.len(),
        forall|q: int| 0 <= q < p ==> seq_lt(#[trigger] old_gs[q].key@, key_of(ws[i], by)),
        p < old_gs.len() ==> !seq_lt(old_gs[p].key@, key_of(ws[i], by)),
        p < old_gs.len() ==> old_gs[p].key@ != key_of(ws[i], by),
        g.key@ == key_of(ws[i], by),
        g.seconds == ws[i].seconds,
        g.first == i,
        gs == old_gs.insert(p, g),
    ensures
        groups_of(gs, ws.take(i + 1), by),
{
    lemma_step_facts(ws, i, by);
    let done = ws.take(i);
    let next = ws.take(i + 1);
    let key = key_of(ws[i], by);
    assert forall|q: int| p <= q < old_gs.len() implies seq_lt(key, #[trigger] old_gs[q].key@) by {
        lemma_seq_lt_total(old_gs[p].key@, key);
        if q > p {
            lemma_seq_lt_transitive(key, old_gs[p].key@, old_gs[q].key@);
        }
    }
    assert forall|a: int| 0 <= a < old_gs.len() implies (#[trigger] old_gs[a]).key@ != key by {
        lemma_seq_lt_irreflexive(key);
    }
    assert forall|j: int| 0 <= j < done.len() implies key_of(#[trigger] done[j], by) != key by {
        let a = choose|a: int| 0 <= a < old_gs.len() && (#[trigger] old_gs[a]).key@ == key_of(done[j], by);
    }
    lemma_key_seconds_absent(done, by, key);
    lemma_insert_sorted(old_gs, gs, key, p, g);
    assert forall|a: int| 0 <= a < gs.len() implies {
        &&& (#[trigger] gs[a]).seconds == key_seconds(next, by, gs[a].key@)
        &&& is_first_with_key(next, by, gs[a].key@, gs[a].first as int)
    } by {
        if a < p {
            assert(gs[a] == old_gs[a]);
            lemma_first_extends(ws, i, by, gs[a].key@, gs[a].first as int);
        } else if a > p {
            assert(gs[a] == old_gs[a - 1]);
            lemma_first_extends(ws, i, by, gs[a].key@, gs[a].first as int);
        } else {
            assert(gs[a] == g);
            assert forall|j: int| 0 <= j < i implies key_of(#[trigger] next[j], by) != key by {
                assert(next[j] == done[j]);
            }
        }
    }
    assert forall|j: int| 0 <= j < next.len() implies has_group_key(gs, key_of(#[trigger] next[j], by)) by {
        if j < i {
            assert(next[j] == done[j]);
            let a = choose|a: int| 0 <= a < old_gs.len() && (#[trigger] old_gs[a]).key@ == key_of(done[j], by);
            if a < p {
                assert(gs[a] == old_gs[a]);
            } else {
                assert(gs[a + 1] == old_gs[a]);
            }
        } else {
            assert(gs[p] == g);
        }
    }
}

fn add_worklog(gs: &mut Vec<Group>, ws: &[Worklog], i: usize, by: GroupBy)
    requires
        i < ws.len(),
        groups_of(old(gs)@, ws@.take(i as int), by),
        group_sum(old(gs)@) == total_seconds(ws@.take(i as int)),
    ensures
        groups_of(final(gs)@, ws@.take(i + 1), by),
        group_sum(final(gs)@) == total_seconds(ws@.take(i + 1)),
{
    let ghost old_gs = gs@;
    proof {
        lemma_step_facts(ws@, i as int, by);
    }
    let w = &ws[i];
    let key = group_key(w, by);
    let mut p: usize = 0;
    while p < gs.len() && str_lt(gs[p].key.as_str(), key.as_str())
        invariant
            p <= gs.len(),
            gs@ == old_gs,
            forall|q: int| 0 <= q < p ==> seq_lt(#[trigger] gs@[q].key@, key@),
        decreases gs.len() - p,
    {
        p = p + 1;
    }
    proof {
        lemma_total_fits(ws@, i + 1);
        lemma_key_seconds_le_total(ws@.take(i + 1), by, key@);
    }
    if p < gs.len() && gs[p].key == *key {
        let g = Group { key: gs[p].key.clone(), seconds: gs[p].seconds + w.seconds as u128, first: gs[p].first };
        proof {
            lemma_group_sum_update(gs@, p as int, g);
        }
        gs.set(p, g);
        proof {
            lemma_update_step(old_gs, gs@, ws@, i as int, by, p as int);
        }
    } else {
        let g = Group { key: key.clone(), seconds: w.seconds as u128, first: i };
        proof {
            lemma_group_sum_insert(gs@, p as int, g);
        }
        gs.insert(p, g);
        proof {
            lemma_insert_step(old_gs, gs@, ws@, i as int, by, p as int, g);
        }
    }
}

/// Groups worklogs by author or by issue key: one group per distinct key,
/// ascending by key, with the seconds logged under it and the position of the
/// first worklog that carries it.
pub fn group_worklogs(ws: &[Worklog], by: GroupBy) -> (gs: Vec<Group>)
    ensures
        groups_of(gs@, ws@, by),
        group_sum(gs@) == total_seconds(ws@),
{
    let mut gs: Vec<Group> = Vec::new();
    let mut i: usize = 0;
    while i < ws.len()
        invariant
            0 <= i <= ws.len(),
            groups_of(gs@, ws@.take(i as int), by),
            group_sum(gs@) == total_seconds(ws@.take(i as int)),
        decreases ws.len() - i,
    {
        add_worklog(&mut gs, ws, i, by);
        i = i + 1;
    }
    assert(ws@.take(ws.len() as int) =~= ws@);
    gs
}


/// One cell of a tab.
pub enum Cell {
    /// Nothing is written.
    Blank,
    /// Plain text.
    Text(String),
    /// Bold text, for headers and total labels.
    Heading(String),
    /// A date, shown as `yyyy-mm-dd`.
    Day(Date),
    /// A number of seconds, shown as hours with two decimals.
    Hours(u128),
    /// A sum formula and the value it evaluates to, in seconds, shown as hours.
    HoursTotal(String, u128),
}

/// What a cell holds, as values.
pub enum CellView {
    Blank,
    Text(Seq<char>),
    Heading(Seq<char>),
    Day(Date),
    Hours(u128),
    HoursTotal(Seq<char>, u128),
}

impl View for Cell {
    type V = CellView;

    open spec fn view(&self) -> CellView {
        match self {
            Cell::Blank => CellView::Blank,
            Cell::Text(s) => CellView::Text(s@),
            Cell::Heading(s) => CellView::Heading(s@),
            Cell::Day(d) => CellView::Day(*d),
            Cell::Hours(h) => CellView::Hours(*h),
            Cell::HoursTotal(f, h) => CellView::HoursTotal(f@, *h),
        }
    }
}

/// The cells of one row.
pub open spec fn row_view(r: Vec<Cell>) -> Seq<CellView> {
    r@.map_values(|c: Cell| c@)
}

/// The cells of all rows.
pub open spec fn rows_view(rows: Seq<Vec<Cell>>) -> Seq<Seq<CellView>> {
    rows.map_values(|r: Vec<Cell>| row_view(r))
}

/// One tab of the workbook: its name and its rows from the top.
pub struct Sheet {
    pub name: String,
    pub rows: Vec<Vec<Cell>>,
}

impl Sheet {
    /// The rows of the tab, as values.
    pub open spec fn cells(&self) -> Seq<Seq<CellView>> {
        rows_view(self.rows@)
    }
}

proof fn lemma_rows_push(rows: Seq<Vec<Cell>>, r: Vec<Cell>)
    ensures
        rows_view(rows.push(r)) == rows_view(rows).push(row_view(r)),
{
    assert(rows_view(rows.push(r)) =~= rows_view(rows).push(row_view(r)));
}

pub(crate) fn push_row(rows: &mut Vec<Vec<Cell>>, r: Vec<Cell>)
    ensures
        rows_view(final(rows)@) == rows_view(old(rows)@).push(row_view(r)),
{
    proof {
        lemma_rows_push(rows@, r);
    }
    rows.push(r);
}

/// The `SUM` formula over column `col` from the second row down to row `last`.
pub open spec fn sum_formula(col: char, last: nat) -> Seq<char> {
    seq!['=', 'S', 'U', 'M', '(', col, '2', ':', col] + decimal(last) + seq![')']
}

fn make_sum_formula(col: char, last: u128) -> (f: String)
    ensures
        f@ == sum_formula(col, last as nat),
{
    let mut f = String::new();
    push_char(&mut f, '=');
    push_char(&mut f, 'S');
    push_char(&mut f, 'U');
    push_char(&mut f, 'M');
    push_char(&mut f, '(');
    push_char(&mut f, col);
    push_char(&mut f, '2');
    push_char(&mut f, ':');
    push_char(&mut f, col);
    push_decimal(&mut f, last);
    push_char(&mut f, ')');
    proof {
        assert(f@ =~= sum_formula(col, last as nat));
    }
    f
}

/// The seconds of all worklogs together.
pub fn total_worklog_seconds(ws: &[Worklog]) -> (t: u128)
    ensures
        t == total_seconds(ws@),
{
    let mut t: u128 = 0;
    let mut i: usize = 0;
    while i < ws.len()
        invariant
            i <= ws.len(),
            t == total_seconds(ws@.take(i as int)),
        decreases ws.len() - i,
    {
        proof {
            lemma_step_facts(ws@, i as int, GroupBy::Author);
            lemma_total_fits(ws@, i + 1);
        }
        t = t + ws[i].seconds as u128;
        i = i + 1;
    }
    assert(ws@.take(ws.len() as int) =~= ws@);
    t
}

// ---------------------------------------------------------------------------
// Tab 1: Worklogs
// ---------------------------------------------------------------------------

/// The header of the Worklogs tab.
pub open spec fn worklogs_header() -> Seq<CellView> {
    seq![
        CellView::Heading("Issue Key"@),
        CellView::Heading("Issue Summary"@),
        CellView::Heading("Author"@),
        CellView::Heading("Date"@),
        CellView::Heading("Hours"@),
        CellView::Heading("Comment"@),
    ]
}

/// The row of one worklog in the Worklogs tab.
pub open spec fn worklog_row(w: Worklog) -> Seq<CellView> {
    seq![
        CellView::Text(w.issue_key@),
        CellView::Text(w.issue_summary@),
        CellView::Text(w.author@),
        CellView::Day(w.date),
        CellView::Hours(w.seconds as u128),
        CellView::Text(w.comment@),
    ]
}

/// The Worklogs tab: the header, then one row per worklog in the given order.
pub open spec fn worklogs_rows(ws: Seq<Worklog>) -> Seq<Seq<CellView>> {
    seq![worklogs_header()] + ws.map_values(|w: Worklog| worklog_row(w))
}

/// Builds the Worklogs tab.
pub fn write_worklogs_tab(ws: &[Worklog]) -> (sheet: Sheet)
    ensures
        sheet.name@ == "Worklogs"@,
        sheet.cells() == worklogs_rows(ws@),
{
    let mut rows: Vec<Vec<Cell>> = Vec::new();
    let h = vec![
        Cell::Heading(owned("Issue Key")),
        Cell::Heading(owned("Issue Summary")),
        Cell::Heading(owned("Author")),
        Cell::Heading(owned("Date")),
        Cell::Heading(owned("Hours")),
        Cell::Heading(owned("Comment")),
    ];
    assert(row_view(h) =~= worklogs_header());
    push_row(&mut rows, h);
    assert(rows_view(rows@) =~= seq![worklogs_header()] + ws@.take(0).map_values(|w: Worklog| worklog_row(w)));
    let mut i: usize = 0;
    while i < ws.len()
        invariant
            i <= ws.len(),
            rows_view(rows@) == seq![worklogs_header()] + ws@.take(i as int).map_values(|w: Worklog| worklog_row(w)),
        decreases ws.len() - i,
    {
        let w = &ws[i];
        let r = vec![
            Cell::Text(w.issue_key.clone()),
            Cell::Text(w.issue_summary.clone()),
            Cell::Text(w.author.clone()),
            Cell::Day(w.date),
            Cell::Hours(w.seconds as u128),
            Cell::Text(w.comment.clone()),
        ];
        assert(row_view(r) =~= worklog_row(*w));
        push_row(&mut rows, r);
        assert(ws@.take(i + 1).map_values(|w: Worklog| worklog_row(w)) =~= ws@.take(i as int).map_values(|w: Worklog| worklog_row(w)).push(worklog_row(ws@[i as int])));
        i = i + 1;
    }
    assert(ws@.take(ws.len() as int) =~= ws@);
    Sheet { name: owned("Worklogs"), rows }
}

// ---------------------------------------------------------------------------
// Tab 2: Summary by Person
// ---------------------------------------------------------------------------

/// The Summary by Person tab over the author groups `gs`: the header, one
/// row per author in ascending order with the seconds logged, then the total.
pub open spec fn person_rows(gs: Seq<Group>) -> Seq<Seq<CellView>> {
    seq![seq![CellView::Heading("Author"@), CellView::Heading("Total Hours"@)]]
        + gs.map_values(|g: Group| seq![CellView::Text(g.key@), CellView::Hours(g.seconds)])
        + seq![seq![
            CellView::Heading("Total"@),
            CellView::HoursTotal(sum_formula('B', gs.len() + 1), group_sum(gs) as u128),
        ]]
}

/// Builds the Summary by Person tab: hours summed per author, authors in
/// ascending order, and a total row.
pub fn write_summary_by_person(ws: &[Worklog]) -> (sheet: Sheet)
    ensures
        sheet.name@ == "Summary by Person"@,
        exists|gs: Seq<Group>| groups_of(gs, ws@, GroupBy::Author) && sheet.cells() == person_rows(gs),
{
    let gs = group_worklogs(ws, GroupBy::Author);
    let mut rows: Vec<Vec<Cell>> = Vec::new();
    let h = vec![Cell::Heading(owned("Author")), Cell::Heading(owned("Total Hours"))];
    assert(row_view(h) =~= seq![CellView::Heading("Author"@), CellView::Heading("Total Hours"@)]);
    push_row(&mut rows, h);
    assert(rows_view(rows@) =~= seq![seq![CellView::Heading("Author"@), CellView::Heading("Total Hours"@)]]
        + gs@.take(0).map_values(|g: Group| seq![CellView::Text(g.key@), CellView::Hours(g.seconds)]));
    let mut i: usize = 0;
    while i < gs.len()
        invariant
            i <= gs.len(),
            rows_view(rows@) == seq![seq![CellView::Heading("Author"@), CellView::Heading("Total Hours"@)]]
                + gs@.take(i as int).map_values(|g: Group| seq![CellView::Text(g.key@), CellView::Hours(g.seconds)]),
        decreases gs.len() - i,
    {
        let r = vec![Cell::Text(gs[i].key.clone()), Cell::Hours(gs[i].seconds)];
        assert(row_view(r) =~= seq![CellView::Text(gs@[i as int].key@), CellView::Hours(gs@[i as int].seconds)]);
        push_row(&mut rows, r);
        assert(gs@.take(i + 1).map_values(|g: Group| seq![CellView::Text(g.key@), CellView::Hours(g.seconds)])
            =~= gs@.take(i as int).map_values(|g: Group| seq![CellView::Text(g.key@), CellView::Hours(g.seconds)])
            .push(seq![CellView::Text(gs@[i as int].key@), CellView::Hours(gs@[i as int].seconds)]));
        i = i + 1;
    }
    assert(gs@.take(gs.len() as int) =~= gs@);
    let total = total_worklog_seconds(ws);
    let r = vec![Cell::Heading(owned("Total")), Cell::HoursTotal(make_sum_formula('B', gs.len() as u128 + 1), total)];
    assert(row_view(r) =~= seq![CellView::Heading("Total"@), CellView::HoursTotal(sum_formula('B', gs@.len() + 1), group_sum(gs@) as u128)]);
    push_row(&mut rows, r);
    let sheet = Sheet { name: owned("Summary by Person"), rows };
    assert(sheet.cells() =~= person_rows(gs@));
    sheet
}

// ---------------------------------------------------------------------------
// Tab 3: Summary by Issue
// ---------------------------------------------------------------------------

/// The row of one issue group: its key, the summary of its first worklog, and
/// the seconds logged on it.
pub open spec fn issue_row(ws: Seq<Worklog>, g: Group) -> Seq<CellView> {
    seq![CellView::Text(g.key@), CellView::Text(ws[g.first as int].issue_summary@), CellView::Hours(g.seconds)]
}

/// The Summary by Issue tab over the issue groups `gs`: the header, one row
/// per issue key in ascending order, then the total.
pub open spec fn issue_rows(ws: Seq<Worklog>, gs: Seq<Group>) -> Seq<Seq<CellView>> {
    seq![issue_header()] + gs.map_values(|g: Group| issue_row(ws, g)) + seq![seq![
        CellView::Heading("Total"@),
        CellView::Blank,
        CellView::HoursTotal(sum_formula('C', gs.len() + 1), group_sum(gs) as u128),
    ]]
}

/// The header of the Summary by Issue tab.
pub open spec fn issue_header() -> Seq<CellView> {
    seq![
        CellView::Heading("Issue Key"@),
        CellView::Heading("Issue Summary"@),
        CellView::Heading("Total Hours"@),
    ]
}

fn issue_group_rows(ws: &[Worklog], gs: &Vec<Group>) -> (rows: Vec<Vec<Cell>>)
    requires
        groups_of(gs@, ws@, GroupBy::IssueKey),
    ensures
        rows_view(rows@) == seq![issue_header()] + gs@.map_values(|g: Group| issue_row(ws@, g)),
{
    let mut rows: Vec<Vec<Cell>> = Vec::new();
    let h = vec![
        Cell::Heading(owned("Issue Key")),
        Cell::Heading(owned("Issue Summary")),
        Cell::Heading(owned("Total Hours")),
    ];
    assert(row_view(h) =~= issue_header());
    push_row(&mut rows, h);
    assert(rows_view(rows@) =~= seq![issue_header()] + gs@.take(0).map_values(|g: Group| issue_row(ws@, g)));
    let mut i: usize = 0;
    while i < gs.len()
        invariant
            i <= gs.len(),
            groups_of(gs@, ws@, GroupBy::IssueKey),
            rows_view(rows@) == seq![issue_header()] + gs@.take(i as int).map_values(|g: Group| issue_row(ws@, g)),
        decreases gs.len() - i,
    {
        let g = &gs[i];
        assert(is_first_with_key(ws@, GroupBy::IssueKey, gs@[i as int].key@, gs@[i as int].first as int));
        let r = vec![Cell::Text(g.key.clone()), Cell::Text(ws[g.first].issue_summary.clone()), Cell::Hours(g.seconds)];
        assert(row_view(r) =~= issue_row(ws@, gs@[i as int]));
        push_row(&mut rows, r);
        assert(gs@.take(i + 1).map_values(|g: Group| issue_row(ws@, g))
            =~= gs@.take(i as int).map_values(|g: Group| issue_row(ws@, g)).push(issue_row(ws@, gs@[i as int])));
        i = i + 1;
    }
    assert(gs@.take(gs.len() as int) =~= gs@);
    rows
}

/// Builds the Summary by Issue tab: hours summed per issue key, keys in
/// ascending order, each with the summary of its first worklog, and a total row.
pub fn write_summary_by_issue(ws: &[Worklog]) -> (sheet: Sheet)
    ensures
        sheet.name@ == "Summary by Issue"@,
        exists|gs: Seq<Group>| groups_of(gs, ws@, GroupBy::IssueKey) && sheet.cells() == issue_rows(ws@, gs),
{
    let gs = group_worklogs(ws, GroupBy::IssueKey);
    let mut rows = issue_group_rows(ws, &gs);
    let total = total_worklog_seconds(ws);
    let r = vec![Cell::Heading(owned("Total")), Cell::Blank, Cell::HoursTotal(make_sum_formula('C', gs.len() as u128 + 1), total)];
    assert(row_view(r) =~= seq![CellView::Heading("Total"@), CellView::Blank, CellView::HoursTotal(sum_formula('C', gs@.len() + 1), group_sum(gs@) as u128)]);
    push_row(&mut rows, r);
    let sheet = Sheet { name: owned("Summary by Issue"), rows };
    assert(sheet.cells() =~= issue_rows(ws@, gs@));
    sheet
}


// ---------------------------------------------------------------------------
// The workbook
// ---------------------------------------------------------------------------

/// The four tabs of a report, in order.
pub struct Workbook {
    pub sheets: Vec<Sheet>,
}

/// `wb` holds the four tabs of the report on `ws` and `ns`: Worklogs, Summary
/// by Person, Summary by Issue and Hierarchy.
pub open spec fn is_report(wb: Workbook, ws: Seq<Worklog>, ns: Seq<IssueNode>) -> bool {
    &&& wb.sheets@.len() == 4
    &&& wb.sheets@[0].name@ == "Worklogs"@
    &&& wb.sheets@[0].cells() == worklogs_rows(ws)
    &&& wb.sheets@[1].name@ == "Summary by Person"@
    &&& exists|gs: Seq<Group>| groups_of(gs, ws, GroupBy::Author) && wb.sheets@[1].cells() == person_rows(gs)
    &&& wb.sheets@[2].name@ == "Summary by Issue"@
    &&& exists|gs: Seq<Group>| groups_of(gs, ws, GroupBy::IssueKey) && wb.sheets@[2].cells() == issue_rows(ws, gs)
    &&& wb.sheets@[3].name@ == "Hierarchy"@
    &&& wb.sheets@[3].cells() == hierarchy_rows(ns, ws)
}

/// Whether the sums of a report on `ws` and `ns` fit in 128 bits.
pub fn report_fits(ws: &[Worklog], ns: &[IssueNode]) -> (r: bool)
    ensures
        r == hierarchy_fits(ns@, ws@),
{
    let total = total_worklog_seconds(ws);
    let n = ns.len() as u128;
    match n.checked_mul(total) {
        Some(_) => true,
        None => false,
    }
}

/// Builds the report on the worklogs `ws` and the issues `ns`.
pub fn generate_workbook(ws: &[Worklog], ns: &[IssueNode]) -> (wb: Workbook)
    requires
        hierarchy_fits(ns@, ws@),
    ensures
        is_report(wb, ws@, ns@),
{
    let mut sheets: Vec<Sheet> = Vec::new();
    sheets.push(write_worklogs_tab(ws));
    sheets.push(write_summary_by_person(ws));
    sheets.push(write_summary_by_issue(ws));
    sheets.push(write_hierarchy_tab(ws, ns));
    Workbook { sheets }
}

// ---------------------------------------------------------------------------
// Laws
// ---------------------------------------------------------------------------

proof fn lemma_sorted_distinct(gs: Seq<Group>, a: int, b: int)
    requires
        groups_sorted(gs),
        0 <= a < gs.len(),
        0 <= b < gs.len(),
        a != b,
    ensures
        gs[a].key@ != gs[b].key@,
{
    if a < b {
        assert(seq_lt(gs[a].key@, gs[b].key@));
    } else {
        assert(seq_lt(gs[b].key@, gs[a].key@));
    }
    lemma_seq_lt_irreflexive(gs[a].key@);
}

/// Seconds logged in `ws` under each key of `gs`, added up.
pub open spec fn keys_sum(ws: Seq<Worklog>, by: GroupBy, gs: Seq<Group>) -> nat
    decreases gs.len(),
{
    if gs.len() == 0 {
        0
    } else {
        keys_sum(ws, by, gs.drop_last()) + key_seconds(ws, by, gs.last().key@)
    }
}

/// The number of groups of `gs` with key `k`.
pub open spec fn key_count(gs: Seq<Group>, k: Seq<char>) -> nat
    decreases gs.len(),
{
    if gs.len() == 0 {
        0
    } else {
        key_count(gs.drop_last(), k) + if gs.last().key@ == k {
            1nat
        } else {
            0nat
        }
    }
}

proof fn lemma_keys_sum_step(ws: Seq<Worklog>, by: GroupBy, gs: Seq<Group>)
    requires
        ws.len() > 0,
    ensures
        keys_sum(ws, by, gs) == keys_sum(ws.drop_last(), by, gs) + key_count(gs, key_of(ws.last(), by)) * ws.last().seconds,
    decreases gs.len(),
{
    if gs.len() > 0 {
        let d = gs.drop_last();
        let x = key_of(ws.last(), by);
        lemma_keys_sum_step(ws, by, d);
        let k = gs.last().key@;
        let b: int = if x == k { 1 } else { 0 };
        let s = ws.last().seconds as int;
        assert(key_seconds(ws, by, k) == key_seconds(ws.drop_last(), by, k) + b * s);
        assert(keys_sum(ws, by, gs) == keys_sum(ws, by, d) + key_seconds(ws, by, k));
        assert(keys_sum(ws.drop_last(), by, gs) == keys_sum(ws.drop_last(), by, d) + key_seconds(ws.drop_last(), by, k));
        assert(key_count(gs, x) == key_count(d, x) + b);
        let c = key_count(d, x) as int;
        assert(c * s + b * s == (c + b) * s) by (nonlinear_arith);
        assert(keys_sum(ws, by, d) == keys_sum(ws.drop_last(), by, d) + c * s);
        assert(keys_sum(ws, by, gs) == keys_sum(ws.drop_last(), by, gs) + (c + b) * s);
    } else {
        assert(key_count(gs, key_of(ws.last(), by)) == 0);
        assert(keys_sum(ws, by, gs) == 0);
        assert(keys_sum(ws.drop_last(), by, gs) == 0);
    }
}

proof fn lemma_key_count_one(gs: Seq<Group>, k: Seq<char>, a: int)
    requires
        forall|x: int, y: int| 0 <= x < y < gs.len() ==> (#[trigger] gs[x]).key@ != (#[trigger] gs[y]).key@,
        0 <= a < gs.len(),
        gs[a].key@ == k,
    ensures
        key_count(gs, k) == 1,
    decreases gs.len(),
{
    if a == gs.len() - 1 {
        lemma_key_count_zero(gs.drop_last(), k);
    } else {
        lemma_key_count_one(gs.drop_last(), k, a);
        assert(gs[a].key@ != gs[gs.len() - 1].key@);
    }
}

proof fn lemma_key_count_zero(gs: Seq<Group>, k: Seq<char>)
    requires
        forall|x: int| 0 <= x < gs.len() ==> (#[trigger] gs[x]).key@ != k,
    ensures
        key_count(gs, k) == 0,
    decreases gs.len(),
{
    if gs.len() > 0 {
        lemma_key_count_zero(gs.drop_last(), k);
    }
}

proof fn lemma_covers_drop_last(gs: Seq<Group>, ws: Seq<Worklog>, by: GroupBy)
    requires
        covers(gs, ws, by),
        ws.len() > 0,
    ensures
        covers(gs, ws.drop_last(), by),
{
    let w = ws.drop_last();
    assert forall|j: int| 0 <= j < w.len() implies has_group_key(gs, key_of(#[trigger] w[j], by)) by {
        assert(w[j] == ws[j]);
    }
}

proof fn lemma_keys_sum_total(ws: Seq<Worklog>, by: GroupBy, gs: Seq<Group>)
    requires
        forall|x: int, y: int| 0 <= x < y < gs.len() ==> (#[trigger] gs[x]).key@ != (#[trigger] gs[y]).key@,
        covers(gs, ws, by),
    ensures
        keys_sum(ws, by, gs) == total_seconds(ws),
    decreases ws.len(),
{
    if ws.len() == 0 {
        lemma_keys_sum_empty(ws, by, gs);
    } else {
        let w = ws.drop_last();
        lemma_covers_drop_last(gs, ws, by);
        lemma_keys_sum_total(w, by, gs);
        lemma_keys_sum_step(ws, by, gs);
        assert(ws.last() == ws[ws.len() - 1]);
        assert(has_group_key(gs, key_of(ws[ws.len() - 1], by)));
        let a = choose|i: int| 0 <= i < gs.len() && (#[trigger] gs[i]).key@ == key_of(ws[ws.len() - 1], by);
        lemma_key_count_one(gs, key_of(ws.last(), by), a);
    }
}

proof fn lemma_keys_sum_empty(ws: Seq<Worklog>, by: GroupBy, gs: Seq<Group>)
    requires
        ws.len() == 0,
    ensures
        keys_sum(ws, by, gs) == 0,
    decreases gs.len(),
{
    if gs.len() > 0 {
        lemma_keys_sum_empty(ws, by, gs.drop_last());
    }
}

proof fn lemma_group_sum_is_keys_sum(ws: Seq<Worklog>, by: GroupBy, gs: Seq<Group>)
    requires
        forall|i: int| 0 <= i < gs.len() ==> (#[trigger] gs[i]).seconds == key_seconds(ws, by, gs[i].key@),
    ensures
        group_sum(gs) == keys_sum(ws, by, gs),
    decreases gs.len(),
{
    if gs.len() > 0 {
        let d = gs.drop_last();
        assert forall|i: int| 0 <= i < d.len() implies (#[trigger] d[i]).seconds == key_seconds(ws, by, d[i].key@) by {
            assert(d[i] == gs[i]);
        }
        lemma_group_sum_is_keys_sum(ws, by, d);
        assert(gs.last() == gs[gs.len() - 1]);
    }
}

/// Every second of the Worklogs tab is counted exactly once in a summary:
/// the groups of any summary of `ws` (by author or by issue key) add up to
/// the seconds of all worklogs.
pub proof fn law_summary_accounts_for_every_worklog(gs: Seq<Group>, ws: Seq<Worklog>, by: GroupBy)
    requires
        groups_of(gs, ws, by),
    ensures
        group_sum(gs) == total_seconds(ws),
{
    assert forall|x: int, y: int| 0 <= x < y < gs.len() implies (#[trigger] gs[x]).key@ != (#[trigger] gs[y]).key@ by {
        lemma_sorted_distinct(gs, x, y);
    }
    lemma_keys_sum_total(ws, by, gs);
    lemma_group_sum_is_keys_sum(ws, by, gs);
}

/// The two summary tabs agree: the hours of Summary by Person and those of
/// Summary by Issue add up to the same total.
pub proof fn law_summaries_agree(by_person: Seq<Group>, by_issue: Seq<Group>, ws: Seq<Worklog>)
    requires
        groups_of(by_person, ws, GroupBy::Author),
        groups_of(by_issue, ws, GroupBy::IssueKey),
    ensures
        group_sum(by_person) == group_sum(by_issue),
{
    law_summary_accounts_for_every_worklog(by_person, ws, GroupBy::Author);
    law_summary_accounts_for_every_worklog(by_issue, ws, GroupBy::IssueKey);
}

/// The Hierarchy tab and Summary by Issue agree: an issue of the hierarchy
/// that has worklogs shows the same hours as its row in Summary by Issue.
pub proof fn law_hierarchy_hours_match_issue_summary(by_issue: Seq<Group>, ws: Seq<Worklog>, n: IssueNode, i: int)
    requires
        groups_of(by_issue, ws, GroupBy::IssueKey),
        0 <= i < by_issue.len(),
        by_issue[i].key@ == n.key@,
    ensures
        direct_seconds(ws, n.key@) == by_issue[i].seconds,
{
}

proof fn lemma_key_seconds_remove(ws: Seq<Worklog>, by: GroupBy, k: Seq<char>, j: int)
    requires
        0 <= j < ws.len(),
    ensures
        key_seconds(ws, by, k) == key_seconds(ws.remove(j), by, k) + (if key_of(ws[j], by) == k {
            ws[j].seconds as nat
        } else {
            0
        }),
    decreases ws.len(),
{
    if j == ws.len() - 1 {
        assert(ws.remove(j) =~= ws.drop_last());
    } else {
        assert(ws.remove(j).drop_last() =~= ws.drop_last().remove(j));
        assert(ws.remove(j).last() == ws.last());
        lemma_key_seconds_remove(ws.drop_last(), by, k, j);
    }
}

proof fn lemma_key_seconds_perm(ws1: Seq<Worklog>, ws2: Seq<Worklog>, by: GroupBy, k: Seq<char>)
    requires
        ws1.to_multiset() == ws2.to_multiset(),
    ensures
        key_seconds(ws1, by, k) == key_seconds(ws2, by, k),
    decreases ws1.len(),
{
    broadcast use vstd::seq_lib::group_to_multiset_ensures;
    broadcast use vstd::multiset::group_multiset_axioms;
    if ws1.len() == 0 {
        assert(ws1.to_multiset().len() == 0);
        assert(ws2.to_multiset().len() == ws2.len());
        assert(ws2.len() == 0);
    } else {
        let x = ws1.last();
        let d = ws1.drop_last();
        assert(ws1 =~= d.push(x));
        assert(ws1.to_multiset() =~= d.to_multiset().insert(x));
        assert(ws2.to_multiset().count(x) > 0);
        assert(ws2.contains(x));
        let j = choose|j: int| 0 <= j < ws2.len() && ws2[j] == x;
        let r = ws2.remove(j);
        assert(r.to_multiset() =~= ws2.to_multiset().remove(x));
        assert(r.to_multiset() =~= d.to_multiset());
        lemma_key_seconds_perm(d, r, by, k);
        lemma_key_seconds_remove(ws2, by, k, j);
    }
}

proof fn lemma_key_present_perm(ws1: Seq<Worklog>, ws2: Seq<Worklog>, by: GroupBy, j: int)
    requires
        ws1.to_multiset() == ws2.to_multiset(),
        0 <= j < ws1.len(),
    ensures
        exists|q: int| 0 <= q < ws2.len() && key_of(#[trigger] ws2[q], by) == key_of(ws1[j], by),
{
    broadcast use vstd::seq_lib::group_to_multiset_ensures;
    assert(ws1.contains(ws1[j]));
    assert(ws2.to_multiset().count(ws1[j]) > 0);
    assert(ws2.contains(ws1[j]));
    let q = choose|q: int| 0 <= q < ws2.len() && ws2[q] == ws1[j];
    assert(key_of(ws2[q], by) == key_of(ws1[j], by));
}

/// Every group of `a` has its key in `b`.
pub open spec fn keys_within(a: Seq<Group>, b: Seq<Group>) -> bool {
    forall|i: int| 0 <= i < a.len() ==> has_group_key(b, (#[trigger] a[i]).key@)
}

proof fn lemma_sorted_drop_first(a: Seq<Group>)
    requires
        groups_sorted(a),
        a.len() > 0,
    ensures
        groups_sorted(a.drop_first()),
{
    let d = a.drop_first();
    assert forall|i: int, j: int| 0 <= i < j < d.len() implies seq_lt(#[trigger] d[i].key@, #[trigger] d[j].key@) by {
        assert(d[i] == a[i + 1]);
        assert(d[j] == a[j + 1]);
    }
}

proof fn lemma_keys_within_drop_first(a: Seq<Group>, b: Seq<Group>)
    requires
        groups_sorted(a),
        groups_sorted(b),
        keys_within(a, b),
        a.len() > 0,
        b.len() > 0,
        a[0].key@ == b[0].key@,
    ensures
        keys_within(a.drop_first(), b.drop_first()),
{
    let da = a.drop_first();
    let db = b.drop_first();
    assert forall|i: int| 0 <= i < da.len() implies has_group_key(db, (#[trigger] da[i]).key@) by {
        assert(da[i] == a[i + 1]);
        assert(has_group_key(b, a[i + 1].key@));
        let j = choose|j: int| 0 <= j < b.len() && (#[trigger] b[j]).key@ == a[i + 1].key@;
        assert(seq_lt(a[0].key@, a[i + 1].key@));
        lemma_seq_lt_irreflexive(a[0].key@);
        assert(j != 0);
        assert(db[j - 1] == b[j]);
    }
}

proof fn lemma_sorted_same_keys(a: Seq<Group>, b: Seq<Group>)
    requires
        groups_sorted(a),
        groups_sorted(b),
        keys_within(a, b),
        keys_within(b, a),
    ensures
        a.len() == b.len(),
        forall|i: int| 0 <= i < a.len() ==> (#[trigger] a[i]).key@ == b[i].key@,
    decreases a.len(),
{
    if a.len() == 0 {
        if b.len() > 0 {
            assert(has_group_key(a, b[0].key@));
        }
    } else {
        assert(has_group_key(b, a[0].key@));
        let j = choose|j: int| 0 <= j < b.len() && (#[trigger] b[j]).key@ == a[0].key@;
        assert(has_group_key(a, b[0].key@));
        let i = choose|i: int| 0 <= i < a.len() && (#[trigger] a[i]).key@ == b[0].key@;
        if j > 0 {
            assert(seq_lt(b[0].key@, b[j].key@));
            if i > 0 {
                assert(seq_lt(a[0].key@, a[i].key@));
                lemma_seq_lt_transitive(a[0].key@, b[0].key@, a[0].key@);
            }
            lemma_seq_lt_irreflexive(a[0].key@);
        }
        assert(a[0].key@ == b[0].key@);
        lemma_sorted_drop_first(a);
        lemma_sorted_drop_first(b);
        lemma_keys_within_drop_first(a, b);
        lemma_keys_within_drop_first(b, a);
        lemma_sorted_same_keys(a.drop_first(), b.drop_first());
        assert forall|q: int| 0 <= q < a.len() implies (#[trigger] a[q]).key@ == b[q].key@ by {
            if q > 0 {
                assert(a.drop_first()[q - 1] == a[q]);
                assert(b.drop_first()[q - 1] == b[q]);
            }
        }
    }
}

proof fn lemma_group_keys_within(g1: Seq<Group>, ws1: Seq<Worklog>, g2: Seq<Group>, ws2: Seq<Worklog>, by: GroupBy)
    requires
        groups_of(g1, ws1, by),
        groups_of(g2, ws2, by),
        ws1.to_multiset() == ws2.to_multiset(),
    ensures
        keys_within(g1, g2),
{
    assert forall|i: int| 0 <= i < g1.len() implies has_group_key(g2, (#[trigger] g1[i]).key@) by {
        let f = g1[i].first as int;
        assert(is_first_with_key(ws1, by, g1[i].key@, f));
        lemma_key_present_perm(ws1, ws2, by, f);
        let q = choose|q: int| 0 <= q < ws2.len() && key_of(#[trigger] ws2[q], by) == key_of(ws1[f], by);
        assert(has_group_key(g2, key_of(ws2[q], by)));
    }
}

proof fn lemma_group_sum_pointwise(a: Seq<Group>, b: Seq<Group>)
    requires
        a.len() == b.len(),
        forall|i: int| 0 <= i < a.len() ==> (#[trigger] a[i]).seconds == b[i].seconds,
    ensures
        group_sum(a) == group_sum(b),
    decreases a.len(),
{
    if a.len() > 0 {
        assert forall|i: int| 0 <= i < a.drop_last().len() implies (#[trigger] a.drop_last()[i]).seconds == b.drop_last()[i].seconds by {
            assert(a.drop_last()[i] == a[i]);
            assert(b.drop_last()[i] == b[i]);
        }
        lemma_group_sum_pointwise(a.drop_last(), b.drop_last());
        assert(a.last() == a[a.len() - 1]);
        assert(b.last() == b[b.len() - 1]);
    }
}

/// The summaries do not depend on the order of the worklogs: for two lists
/// that hold the same worklogs in any order, the groups by author (or by
/// issue key) have the same keys in the same order with the same seconds.
pub proof fn law_summary_groups_ignore_order(g1: Seq<Group>, ws1: Seq<Worklog>, g2: Seq<Group>, ws2: Seq<Worklog>, by: GroupBy)
    requires
        ws1.to_multiset() == ws2.to_multiset(),
        groups_of(g1, ws1, by),
        groups_of(g2, ws2, by),
    ensures
        g1.len() == g2.len(),
        forall|i: int| 0 <= i < g1.len() ==> (#[trigger] g1[i]).key@ == g2[i].key@ && g1[i].seconds == g2[i].seconds,
{
    lemma_group_keys_within(g1, ws1, g2, ws2, by);
    lemma_group_keys_within(g2, ws2, g1, ws1, by);
    lemma_sorted_same_keys(g1, g2);
    assert forall|i: int| 0 <= i < g1.len() implies (#[trigger] g1[i]).key@ == g2[i].key@ && g1[i].seconds == g2[i].seconds by {
        lemma_key_seconds_perm(ws1, ws2, by, g1[i].key@);
    }
}

/// The Summary by Person tab does not depend on the order of the worklogs:
/// two lists that hold the same worklogs in any order give the same tab,
/// cell for cell.
pub proof fn law_person_summary_ignores_order(g1: Seq<Group>, ws1: Seq<Worklog>, g2: Seq<Group>, ws2: Seq<Worklog>)
    requires
        ws1.to_multiset() == ws2.to_multiset(),
        groups_of(g1, ws1, GroupBy::Author),
        groups_of(g2, ws2, GroupBy::Author),
    ensures
        person_rows(g1) == person_rows(g2),
{
    law_summary_groups_ignore_order(g1, ws1, g2, ws2, GroupBy::Author);
    lemma_group_sum_pointwise(g1, g2);
    let f = |g: Group| seq![CellView::Text(g.key@), CellView::Hours(g.seconds)];
    assert(g1.map_values(f) =~= g2.map_values(f));
    assert(person_rows(g1) =~= person_rows(g2));
}

/// Each data row of the Worklogs tab shows its own worklog and nothing else:
/// below the header, row `k` holds the key, summary, author, day, seconds
/// and comment of worklog `k - 1`; so two lists that hold the same worklog,
/// at any positions, show the same row for it.
pub proof fn law_worklog_rows_show_their_own_worklog(ws: Seq<Worklog>, other: Seq<Worklog>)
    ensures
        worklogs_rows(ws).len() == ws.len() + 1,
        worklogs_rows(ws)[0] == worklogs_header(),
        forall|k: int| 1 <= k <= ws.len() ==> #[trigger] worklogs_rows(ws)[k] == seq![
            CellView::Text(ws[k - 1].issue_key@),
            CellView::Text(ws[k - 1].issue_summary@),
            CellView::Text(ws[k - 1].author@),
            CellView::Day(ws[k - 1].date),
            CellView::Hours(ws[k - 1].seconds as u128),
            CellView::Text(ws[k - 1].comment@),
        ],
        forall|k: int, j: int| 0 <= k < ws.len() && 0 <= j < other.len() && #[trigger] ws[k] == #[trigger] other[j]
            ==> worklogs_rows(ws)[k + 1] == worklogs_rows(other)[j + 1],
{
    assert forall|k: int| 1 <= k <= ws.len() implies #[trigger] worklogs_rows(ws)[k] == seq![
        CellView::Text(ws[k - 1].issue_key@),
        CellView::Text(ws[k - 1].issue_summary@),
        CellView::Text(ws[k - 1].author@),
        CellView::Day(ws[k - 1].date),
        CellView::Hours(ws[k - 1].seconds as u128),
        CellView::Text(ws[k - 1].comment@),
    ] by {
        assert(worklogs_rows(ws)[k] == worklog_row(ws[k - 1]));
    }
    assert forall|k: int, j: int| 0 <= k < ws.len() && 0 <= j < other.len() && #[trigger] ws[k] == #[trigger] other[j]
        implies worklogs_rows(ws)[k + 1] == worklogs_rows(other)[j + 1] by {
        assert(worklogs_rows(ws)[k + 1] == worklog_row(ws[k]));
        assert(worklogs_rows(other)[j + 1] == worklog_row(other[j]));
    }
}

} // verus!
