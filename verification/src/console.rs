//! The terminal browser as one state machine. `App` holds everything the
//! screen shows; each key press, pasted text and finished background job is a
//! method that moves it on and returns the background work to start next. The
//! caller draws the screen, runs the work and hands its outcome back.
use vstd::prelude::*;
use crate::audit::{columns_fit, columns_fit_check, find_duplicates_for_user, duplicates_for, cols_view, hit_label, rows_fit, rows_fit_check, warning_name};
use crate::browser::{signed_in, writes_enabled, AuditModal, Modal, Task};
use crate::gui::opt_text;
use crate::index::{awards_excluding_duplicate_rows, clone_awards, excluding_hits, flatten_awards_sorted, get_awards_for_username, lookup_key, ByCategoryThenName};
use crate::sort::{order_of, sorted_stable};
use crate::text::{chars_of, decimal, extend_chars, extend_str, owned, string_of, usize_decimal};
use crate::tui::{tab_rows, visible_for_tab, visible_views, AwardTab, FocusArea, VisibleAward};
use crate::types::{awards_view, bucket_of, hits_view, Award, AwardColumn, AwardView, AwardsData, DuplicateHit, DuplicateHitView};
use crate::browser::TextInput;
use crate::dialogs::{patch_sheet_cell, tabs_after_patch};
use crate::edit::EditResult;
use crate::index::{after_shift_up, index_after_add, index_shifted, index_without, reindex_column_after_delete, shift_column_up_in_rows, upsert_award_in_index};
use crate::meta::{col_fits, col_fits_check, col_index, col_value, offset_of, row_offset};
use crate::parse::username_key;
use crate::types::{key_pos, lemma_key_pos};
use crate::audit::{finding_views, AuditFinding, FindingView};
use crate::browser::first_item;
use crate::text::{copy_string, strings_view, text_lines_of};
use crate::tui::{grouped_by_member, AuditOutcome, AuditView, WorkerMsg};
use crate::browser::{AddModal, AssistModal, DeleteModal, EditModal, RenameModal, WriteTask};
use crate::dialogs::{add_candidates, rename_cell_count, rename_cells};
use crate::gui::not_owned;
use crate::index::owned_columns;
use crate::tui::{AddStep, AssistStep, PasteAddModal, RenameStep};
use crate::types::{defs_view, AwardDef, AwardDefView};
use crate::browser::{edit_key, has_control, Key, KeyCode, KeyKind};
use crate::trusted::input_after_key_of;
use crate::tui::{audit_row_step, wrapped_step};
use crate::dialogs::{confirms, new_name_check, paste_plan, PastePlanView};
use crate::parse::{bare_name, defs_matching, extracted, last_space_is_ascii};
use crate::text::{lower_seq, trim};
use crate::eligibility::{assist_verdict, grant_target, report_text, GrantPlan, VerdictView};
use crate::audit::{copy_finding, finding_award};
use crate::dialogs::{awards_under_new_name, check_new_username, confirm_word, fix_for_finding, plan_paste_add, FixPlan, PastePlan};
use crate::eligibility::{check_assist, find_grant_target, AssistVerdict};
use crate::parse::extract_paste_fields;
use crate::text::trimmed_string;
use crate::tui::{move_audit_row, move_list, focus_at, focus_index, step_tab, tab_at, tab_for_digit, tab_index, Action};

verus! {

/// Everything the terminal browser shows and remembers.
#[derive(Debug)]
pub struct App {
    pub data: Option<AwardsData>,
    /// The configured award columns, scanned for a member's duplicates.
    pub columns: Vec<AwardColumn>,
    pub synced_at: Option<String>,
    /// The member whose awards are shown.
    pub results_username: Option<String>,
    pub results: Vec<Award>,
    pub duplicates: Vec<Award>,
    /// The rows of the active tab.
    pub visible: Vec<VisibleAward>,
    pub username: TextInput,
    pub status: String,
    /// A sheet write or an audit runs.
    pub busy: bool,
    /// A sync runs.
    pub loading: bool,
    pub focus: FocusArea,
    pub active_tab: AwardTab,
    /// The highlighted row of the actions menu.
    pub actions_state: Option<usize>,
    /// The highlighted row of the awards list.
    pub awards_state: Option<usize>,
    pub modal: Option<Modal>,
    pub should_quit: bool,
    /// The award a running delete removes.
    pub pending_delete: Option<Award>,
    /// The generation of the latest live-row lookup; older answers are dropped.
    pub reconcile_gen: u64,
    /// The audit browser, put aside while a fix opened from one of its findings
    /// is shown.
    pub saved_audit: Option<AuditModal>,
    /// Set while a write started from an audit finding runs.
    pub audit_fix_username: Option<String>,
}

/// No dialog is open and nothing runs.
pub open spec fn idle(a: App) -> bool {
    !a.busy && !a.loading && a.modal is None
}

/// The award shown for a duplicate hit (see `DuplicateHit::to_award`).
pub open spec fn hit_award(h: DuplicateHitView) -> AwardView {
    AwardView {
        category: h.category,
        name: warning_name(h.base_name, hit_label(h)),
        sheet: h.sheet,
        col: h.col,
        row: h.row,
        cell: h.cell,
        base_name: h.base_name,
    }
}

/// The duplicate hits of a member; tabs whose row numbers or column names
/// overflow the machine word are not scanned.
pub open spec fn member_hits(d: AwardsData, cols: Seq<AwardColumn>, username: Seq<char>) -> Seq<DuplicateHitView> {
    if columns_fit(cols) && rows_fit(d.sheet_rows@) {
        duplicates_for(d.sheet_rows@, cols_view(cols), username)
    } else {
        Seq::empty()
    }
}

/// The flagged awards of a member.
pub open spec fn member_dups(d: AwardsData, cols: Seq<AwardColumn>, username: Seq<char>) -> Seq<AwardView> {
    member_hits(d, cols, username).map_values(|h: DuplicateHitView| hit_award(h))
}

/// The member's filed awards in display order, the flagged rows left out.
pub open spec fn member_results(d: AwardsData, cols: Seq<AwardColumn>, username: Seq<char>) -> Seq<AwardView> {
    excluding_hits(
        sorted_stable(bucket_of(d.index@, lookup_key(username)), order_of::<Award, ByCategoryThenName>()),
        member_hits(d, cols, username),
    )
}

/// Same sheet cell.
pub open spec fn same_place(a: AwardView, b: AwardView) -> bool {
    a.sheet == b.sheet && a.col == b.col && a.row == b.row
}

/// The first row at or after `i` showing the cell of `t`.
pub open spec fn place_from(rows: Seq<(AwardView, bool)>, t: AwardView, i: int) -> Option<int>
    decreases rows.len() - i,
{
    if i < 0 || i >= rows.len() {
        None
    } else if same_place(rows[i].0, t) {
        Some(i)
    } else {
        place_from(rows, t, i + 1)
    }
}

/// The highlight after the rows change: the row of `select` when shown, else
/// the current highlight when still on the list.
pub open spec fn selection_after(rows: Seq<(AwardView, bool)>, select: Option<AwardView>, current: Option<usize>) -> Option<usize> {
    let found = match select {
        Some(t) => place_from(rows, t, 0),
        None => None,
    };
    match found {
        Some(i) => Some(i as usize),
        None => {
            let c: int = match current {
                Some(k) => k as int,
                None => 0,
            };
            if c < rows.len() {
                Some(c as usize)
            } else {
                None
            }
        },
    }
}

pub open spec fn award_opt(a: Option<&Award>) -> Option<AwardView> {
    match a {
        Some(x) => Some(x@),
        None => None,
    }
}

/// The status line after a lookup.
pub open spec fn lookup_line(username: Seq<char>, n: int, d: int) -> Seq<char> {
    username + " · "@ + decimal(n) + " award(s)"@ + (if d == 0 {
        Seq::<char>::empty()
    } else {
        " · "@ + decimal(d) + " duplicate(s)"@
    }) + " · a/e/d · F5 refresh"@
}

/// The generation after `g`, wrapping.
pub open spec fn next_gen(g: u64) -> u64 {
    if g == u64::MAX {
        0
    } else {
        (g + 1) as u64
    }
}

/// After showing `username`'s rows in `b`: when writes are possible, a new
/// live-row lookup of the shown awards starts.
pub open spec fn reconciled(g: u64, b: App, username: Seq<char>, auth: Seq<char>, tasks: Seq<Task>) -> bool {
    if writes_enabled(auth) {
        &&& b.reconcile_gen == next_gen(g)
        &&& tasks.len() == 1
        &&& tasks[0] matches Task::Reconcile { gen, username: u, results, duplicates } && gen == next_gen(g)
            && u@ == username && results@ == b.results@ && duplicates@ == b.duplicates@
    } else {
        b.reconcile_gen == g && tasks.len() == 0
    }
}

/// Showing `username` moves `a` to `b`: with data loaded, the member's
/// awards and duplicates are listed, `select` highlighted when shown, and the
/// status set to `status` or the lookup line.
pub open spec fn user_view_done(
    a: App,
    b: App,
    username: Seq<char>,
    select: Option<AwardView>,
    status: Option<Seq<char>>,
    auth: Seq<char>,
    tasks: Seq<Task>,
) -> bool {
    match a.data {
        None => b == a && tasks.len() == 0,
        Some(d) => {
            let res = member_results(d, a.columns@, username);
            let dups = member_dups(d, a.columns@, username);
            let rows = tab_rows(a.active_tab, res, dups);
            &&& b == (App {
                results_username: b.results_username,
                results: b.results,
                duplicates: b.duplicates,
                visible: b.visible,
                awards_state: b.awards_state,
                status: b.status,
                reconcile_gen: b.reconcile_gen,
                ..a
            })
            &&& opt_text(b.results_username) == Some(username)
            &&& awards_view(b.results@) == res
            &&& awards_view(b.duplicates@) == dups
            &&& visible_views(b.visible@) == rows
            &&& b.awards_state == selection_after(rows, select, a.awards_state)
            &&& b.status@ == match status {
                Some(s) => s,
                None => lookup_line(username, res.len() as int, dups.len() as int),
            }
            &&& reconciled(a.reconcile_gen, b, username, auth, tasks)
        },
    }
}

fn hits_to_awards(hits: &Vec<DuplicateHit>) -> (r: Vec<Award>)
    ensures
        awards_view(r@) == hits_view(hits@).map_values(|h: DuplicateHitView| hit_award(h)),
{
    let mut out: Vec<Award> = Vec::new();
    let mut i: usize = 0;
    while i < hits.len()
        invariant
            i <= hits.len(),
            awards_view(out@) == hits_view(hits@).subrange(0, i as int).map_values(|h: DuplicateHitView| hit_award(h)),
        decreases hits.len() - i,
    {
        let ghost before = awards_view(out@);
        out.push(hits[i].to_award());
        assert(awards_view(out@) =~= before.push(hit_award(hits@[i as int]@)));
        i += 1;
        assert(hits_view(hits@).subrange(0, i as int).map_values(|h: DuplicateHitView| hit_award(h)) =~= before.push(
            hit_award(hits@[i - 1]@),
        ));
    }
    assert(hits_view(hits@).subrange(0, hits.len() as int) =~= hits_view(hits@));
    out
}


/// A member's filed awards and flagged rows, as a lookup shows them.
fn member_lists(data: &AwardsData, columns: &Vec<AwardColumn>, username: &str) -> (r: (Vec<Award>, Vec<Award>))
    ensures
        awards_view(r.0@) == member_results(*data, columns@, username@),
        awards_view(r.1@) == member_dups(*data, columns@, username@),
{
    let bucket = get_awards_for_username(&data.index, username);
    let sorted = flatten_awards_sorted(bucket.as_slice());
    let hits: Vec<DuplicateHit> = if columns_fit_check(columns.as_slice()) && rows_fit_check(&data.sheet_rows) {
        find_duplicates_for_user(data, columns.as_slice(), username)
    } else {
        Vec::new()
    };
    assert(hits_view(hits@) == member_hits(*data, columns@, username@));
    let res = awards_excluding_duplicate_rows(sorted.as_slice(), hits.as_slice());
    let dups = hits_to_awards(&hits);
    (res, dups)
}

fn first_place(rows: &Vec<VisibleAward>, t: &Award) -> (r: Option<usize>)
    ensures
        match r {
            Some(i) => place_from(visible_views(rows@), t@, 0) == Some(i as int),
            None => place_from(visible_views(rows@), t@, 0) is None,
        },
{
    let ghost v = visible_views(rows@);
    let mut i: usize = 0;
    while i < rows.len()
        invariant
            i <= rows.len(),
            v == visible_views(rows@),
            place_from(v, t@, 0) == place_from(v, t@, i as int),
        decreases rows.len() - i,
    {
        assert(v[i as int].0 == rows@[i as int].award@);
        if crate::text::str_eq(rows[i].award.sheet.as_str(), t.sheet.as_str()) && crate::text::str_eq(
            rows[i].award.col.as_str(),
            t.col.as_str(),
        ) && rows[i].award.row == t.row {
            return Some(i);
        }
        i += 1;
    }
    None
}


// ---------------------------------------------------------------------------
// Keeping the cached data in step with a write
// ---------------------------------------------------------------------------

/// The cell of `a` lies where the cached rows can be patched (its column name
/// and row number fit the machine word).
pub open spec fn patch_ok(a: AwardView) -> bool {
    col_fits(a.col) && a.row - 1 - offset_of(a.sheet) >= i32::MIN
}

/// The index after `a` is refiled under the member its cell names.
pub open spec fn index_upserted(ix: Seq<(Seq<char>, Seq<AwardView>)>, a: AwardView) -> Seq<(Seq<char>, Seq<AwardView>)> {
    match username_key(a.cell) {
        Some(k) => index_after_add(index_without(ix, a.sheet, a.col, a.row), Some(k), Some(a)),
        None => ix,
    }
}

/// The cached rows after `a`'s cell text is written into them.
pub open spec fn tabs_patched(
    tabs: Seq<(Seq<char>, Seq<Seq<Seq<char>>>)>,
    a: AwardView,
) -> Seq<(Seq<char>, Seq<Seq<Seq<char>>>)> {
    if patch_ok(a) {
        tabs_after_patch(tabs, a)
    } else {
        tabs
    }
}

/// `d1` is `d0` with the written award `a` filed and patched in.
pub open spec fn filed(d0: AwardsData, d1: AwardsData, a: AwardView) -> bool {
    &&& d1.index@ == index_upserted(d0.index@, a)
    &&& d1.sheet_rows@ == tabs_patched(d0.sheet_rows@, a)
    &&& d1.catalog@ == d0.catalog@
}

pub open spec fn index_upserted_all(ix: Seq<(Seq<char>, Seq<AwardView>)>, s: Seq<AwardView>) -> Seq<(Seq<char>, Seq<AwardView>)>
    decreases s.len(),
{
    if s.len() == 0 {
        ix
    } else {
        index_upserted(index_upserted_all(ix, s.drop_last()), s.last())
    }
}

pub open spec fn tabs_patched_all(
    tabs: Seq<(Seq<char>, Seq<Seq<Seq<char>>>)>,
    s: Seq<AwardView>,
) -> Seq<(Seq<char>, Seq<Seq<Seq<char>>>)>
    decreases s.len(),
{
    if s.len() == 0 {
        tabs
    } else {
        tabs_patched(tabs_patched_all(tabs, s.drop_last()), s.last())
    }
}

/// `d1` is `d0` with each of the written awards `s` filed in turn.
pub open spec fn filed_all(d0: AwardsData, d1: AwardsData, s: Seq<AwardView>) -> bool {
    &&& d1.index@ == index_upserted_all(d0.index@, s)
    &&& d1.sheet_rows@ == tabs_patched_all(d0.sheet_rows@, s)
    &&& d1.catalog@ == d0.catalog@
}

/// The cached rows after the column of `a` moved up over its deleted row.
pub open spec fn tabs_shifted(
    tabs: Seq<(Seq<char>, Seq<Seq<Seq<char>>>)>,
    a: AwardView,
) -> Seq<(Seq<char>, Seq<Seq<Seq<char>>>)> {
    if patch_ok(a) {
        match key_pos(tabs, a.sheet) {
            Some(i) => tabs.update(i, (tabs[i].0, after_shift_up(tabs[i].1, a.sheet, a.col, a.row))),
            None => tabs,
        }
    } else {
        tabs
    }
}

/// `d1` is `d0` after the row of `a` was deleted from its column.
pub open spec fn removed(d0: AwardsData, d1: AwardsData, a: AwardView) -> bool {
    &&& d1.index@ == index_shifted(index_without(d0.index@, a.sheet, a.col, a.row), a.sheet, a.col, a.row)
    &&& d1.sheet_rows@ == tabs_shifted(d0.sheet_rows@, a)
    &&& d1.catalog@ == d0.catalog@
}

proof fn lemma_col_fits_index(s: Seq<char>)
    requires
        col_fits(s),
    ensures
        col_index(s) < usize::MAX,
{
    assert(s.subrange(0, s.len() as int) =~= s);
    assert(col_value(s.subrange(0, s.len() as int)) <= usize::MAX);
}

fn patch_ok_check(award: &Award) -> (r: bool)
    ensures
        r == patch_ok(award@),
{
    if !col_fits_check(award.col.as_str()) {
        return false;
    }
    let off = row_offset(award.sheet.as_str());
    (award.row as i64) - 1 - (off as i64) >= -2147483648i64
}

fn file_award(data: &mut AwardsData, award: &Award)
    ensures
        filed(*old(data), *final(data), award@),
{
    upsert_award_in_index(&mut data.index, award);
    if patch_ok_check(award) {
        proof {
            lemma_col_fits_index(award@.col);
        }
        patch_sheet_cell(data, award);
    }
}

fn file_awards(data: &mut AwardsData, awards: &Vec<Award>)
    ensures
        filed_all(*old(data), *final(data), awards_view(awards@)),
{
    let ghost s = awards_view(awards@);
    let mut i: usize = 0;
    assert(s.subrange(0, 0) =~= Seq::<AwardView>::empty());
    while i < awards.len()
        invariant
            i <= awards.len(),
            s == awards_view(awards@),
            filed_all(*old(data), *data, s.subrange(0, i as int)),
        decreases awards.len() - i,
    {
        file_award(data, &awards[i]);
        assert(s.subrange(0, i + 1).drop_last() =~= s.subrange(0, i as int));
        assert(s.subrange(0, i + 1).last() == awards@[i as int]@);
        i += 1;
    }
    assert(s.subrange(0, awards.len() as int) =~= s);
}

fn remove_filed(data: &mut AwardsData, award: &Award)
    ensures
        removed(*old(data), *final(data), award@),
{
    reindex_column_after_delete(&mut data.index, award.sheet.as_str(), award.col.as_str(), award.row);
    if patch_ok_check(award) {
        proof {
            lemma_col_fits_index(award@.col);
            lemma_key_pos(data.sheet_rows@, award@.sheet);
        }
        match data.sheet_rows.position(award.sheet.as_str()) {
            Some(i) => {
                let ghost t0 = data.sheet_rows@;
                let mut rows = data.sheet_rows.take_rows(i);
                shift_column_up_in_rows(&mut rows, award.sheet.as_str(), award.col.as_str(), award.row);
                data.sheet_rows.put_rows(i, rows);
                assert(data.sheet_rows@ =~= t0.update(
                    i as int,
                    (t0[i as int].0, after_shift_up(t0[i as int].1, award@.sheet, award@.col, award.row)),
                ));
            },
            None => {},
        }
    }
}


// ---------------------------------------------------------------------------
// Finished background jobs
// ---------------------------------------------------------------------------

/// The status-line note on what the credentials allow.
pub open spec fn auth_text(auth: Seq<char>) -> Seq<char> {
    if auth == "service_account"@ {
        "write: service account"@
    } else if auth == "oauth_token"@ {
        "write: logged in"@
    } else if auth == "oauth_needs_login"@ {
        "write: run --login"@
    } else if auth == "missing"@ {
        "write: no credentials"@
    } else {
        "write: "@ + auth
    }
}

pub fn auth_note(auth: &str) -> (r: String)
    ensures
        r@ == auth_text(auth@),
{
    if crate::text::str_eq(auth, "service_account") {
        owned("write: service account")
    } else if crate::text::str_eq(auth, "oauth_token") {
        owned("write: logged in")
    } else if crate::text::str_eq(auth, "oauth_needs_login") {
        owned("write: run --login")
    } else if crate::text::str_eq(auth, "missing") {
        owned("write: no credentials")
    } else {
        let mut v = chars_of("write: ");
        extend_str(&mut v, auth);
        string_of(&v)
    }
}

/// A finished sync moves `a` to `b`: the data and the sync time are kept and
/// the shown member, if any, is shown again from them; or the failure is
/// reported.
pub open spec fn synced(a: App, b: App, result: Result<AwardsData, String>, auth: Seq<char>, now: String, tasks: Seq<Task>) -> bool {
    match result {
        Ok(d) => {
            let mid = App { loading: false, data: Some(d), synced_at: Some(now), ..a };
            let ready = "Ready · "@ + decimal(d.index@.len() as int) + " users · "@ + auth_text(auth);
            match a.results_username {
                Some(u) => user_view_done(mid, b, u@, None, Some(ready), auth, tasks),
                None => b == (App { status: b.status, ..mid }) && b.status@ == ready && tasks.len() == 0,
            }
        },
        Err(e) => b == (App { loading: false, status: b.status, ..a }) && b.status@ == "Sync failed: "@ + e@
            && tasks.len() == 0,
    }
}

/// Live rows of the latest lookup replace the shown awards; an answer for an
/// older lookup or another member is dropped.
pub open spec fn rows_fixed(a: App, b: App, gen: u64, username: String, results: Vec<Award>, duplicates: Vec<Award>) -> bool {
    if gen != a.reconcile_gen || opt_text(a.results_username) != Some(username@) {
        b == a
    } else {
        let rows = tab_rows(a.active_tab, awards_view(results@), awards_view(duplicates@));
        &&& b == (App { results, duplicates, visible: b.visible, awards_state: b.awards_state, ..a })
        &&& visible_views(b.visible@) == rows
        &&& b.awards_state == selection_after(rows, None, a.awards_state)
    }
}

/// A written add: the award filed and the member shown with it highlighted.
pub open spec fn add_applied(a: App, b: App, result: EditResult, username: Seq<char>, auth: Seq<char>, tasks: Seq<Task>) -> bool {
    match (a.data, result.award) {
        (Some(d0), Some(aw)) => b.data matches Some(d1) && filed(d0, d1, aw@) && user_view_done(
            App { data: b.data, ..a },
            b,
            username,
            Some(aw@),
            Some(result.message@),
            auth,
            tasks,
        ),
        _ => b == (App { status: b.status, ..a }) && b.status@ == result.message@ && tasks.len() == 0,
    }
}

/// A written correction: the award refiled; when its cell no longer names the
/// shown member, that member is shown again with a note, else `username` is
/// shown with the award highlighted.
pub open spec fn edit_applied(a: App, b: App, result: EditResult, username: Seq<char>, auth: Seq<char>, tasks: Seq<Task>) -> bool {
    match (a.data, result.award) {
        (Some(d0), Some(aw)) => b.data matches Some(d1) && filed(d0, d1, aw@) && {
            let mid = App { data: b.data, ..a };
            match a.results_username {
                Some(v) => if username_key(aw@.cell) != Some(v@) {
                    user_view_done(mid, b, v@, None, Some(result.message@ + " · no longer under @"@ + v@), auth, tasks)
                } else {
                    user_view_done(mid, b, username, Some(aw@), Some(result.message@), auth, tasks)
                },
                None => user_view_done(mid, b, username, Some(aw@), Some(result.message@), auth, tasks),
            }
        },
        _ => b == (App { status: b.status, ..a }) && b.status@ == result.message@ && tasks.len() == 0,
    }
}

/// A written delete: the pending award's row removed and the member shown.
pub open spec fn delete_applied(a: App, b: App, message: Seq<char>, username: Seq<char>, auth: Seq<char>, tasks: Seq<Task>) -> bool {
    match a.pending_delete {
        None => b == (App { status: b.status, ..a }) && b.status@ == message && tasks.len() == 0,
        Some(aw) => match a.data {
            Some(d0) => b.data matches Some(d1) && removed(d0, d1, aw@) && user_view_done(
                App { data: b.data, pending_delete: None, ..a },
                b,
                username,
                None,
                Some(message),
                auth,
                tasks,
            ),
            None => b == (App { status: b.status, pending_delete: None, ..a }) && b.status@ == message && tasks.len()
                == 0,
        },
    }
}

/// A written rename (all or part of it): the written cells filed, the name
/// field set to `username`, and `username` shown, its first rewritten award
/// highlighted when all went through.
pub open spec fn rename_applied(
    a: App,
    b: App,
    ok: bool,
    awards: Seq<AwardView>,
    message: Seq<char>,
    username: Seq<char>,
    auth: Seq<char>,
    tasks: Seq<Task>,
) -> bool {
    match a.data {
        Some(d0) => {
            &&& b.data matches Some(d1) && filed_all(d0, d1, awards)
            &&& b.username.value@ == username && b.username.cursor == username.len()
            &&& user_view_done(
                App { data: b.data, username: b.username, ..a },
                b,
                username,
                if ok && awards.len() > 0 {
                    Some(awards[0])
                } else {
                    None
                },
                Some(message),
                auth,
                tasks,
            )
        },
        None => b == (App { status: b.status, ..a }) && b.status@ == message && tasks.len() == 0,
    }
}

/// The report path of the audit browser put aside, or nothing.
pub open spec fn saved_path(a: App) -> Seq<char> {
    match a.saved_audit {
        Some(m) => m.path@,
        None => Seq::empty(),
    }
}

/// A write started from an audit finding finished: on failure the audit
/// browser comes back as it was (a partial rename's cells filed); on success
/// the change is filed and the audit is run again over the cached data.
pub open spec fn audit_write_done(a: App, b: App, kind: Seq<char>, result: EditResult, tasks: Seq<Task>) -> bool {
    if !result.ok {
        &&& if kind == "rename"@ && result.awards@.len() > 0 {
            match a.data {
                Some(d0) => b.data matches Some(d1) && filed_all(d0, d1, awards_view(result.awards@)),
                None => b.data is None,
            }
        } else {
            b.data == a.data
        }
        &&& b == (App {
            data: b.data,
            status: b.status,
            pending_delete: None,
            saved_audit: None,
            modal: match a.saved_audit {
                Some(m) => Some(Modal::Audit(m)),
                None => a.modal,
            },
            ..a
        })
        &&& b.status@ == kind + " failed: "@ + result.message@
        &&& tasks.len() == 0
    } else {
        match a.data {
            Some(d0) => {
                &&& b.data matches Some(d1) && if kind == "edit"@ {
                    match result.award {
                        Some(aw) => filed(d0, d1, aw@),
                        None => d1 == d0,
                    }
                } else if kind == "delete"@ {
                    match a.pending_delete {
                        Some(aw) => removed(d0, d1, aw@),
                        None => d1 == d0,
                    }
                } else if kind == "rename"@ {
                    filed_all(d0, d1, awards_view(result.awards@))
                } else {
                    d1 == d0
                }
                &&& b == (App {
                    data: b.data,
                    status: b.status,
                    pending_delete: if kind == "delete"@ {
                        None
                    } else {
                        a.pending_delete
                    },
                    saved_audit: None,
                    ..a
                })
                &&& b.status@ == result.message@
                &&& tasks.len() == 1
                &&& tasks[0] matches Task::RefreshAudit { path } && path@ == saved_path(a)
            },
            None => b == (App { status: b.status, saved_audit: None, ..a }) && b.status@ == result.message@
                && tasks.len() == 0,
        }
    }
}

/// A finished write of kind `kind` for `username` moves `a` to `b`.
pub open spec fn write_done(a: App, b: App, kind: Seq<char>, result: EditResult, username: String, auth: Seq<char>, tasks: Seq<Task>) -> bool {
    let a1 = App { busy: false, audit_fix_username: None, ..a };
    if a.audit_fix_username is Some {
        audit_write_done(a1, b, kind, result, tasks)
    } else if !result.ok {
        if kind == "rename"@ && result.awards@.len() > 0 {
            rename_applied(
                a1,
                b,
                false,
                awards_view(result.awards@),
                "rename failed: "@ + result.message@,
                username@,
                auth,
                tasks,
            )
        } else {
            b == (App { status: b.status, ..a1 }) && b.status@ == kind + " failed: "@ + result.message@ && tasks.len()
                == 0
        }
    } else if kind == "add"@ {
        add_applied(a1, b, result, username@, auth, tasks)
    } else if kind == "edit"@ {
        edit_applied(a1, b, result, username@, auth, tasks)
    } else if kind == "delete"@ {
        delete_applied(a1, b, result.message@, username@, auth, tasks)
    } else if kind == "rename"@ {
        rename_applied(a1, b, result.ok, awards_view(result.awards@), result.message@, username@, auth, tasks)
    } else {
        b == (App { status: b.status, ..a1 }) && b.status@ == result.message@ && tasks.len() == 0
    }
}

/// `m` is the audit browser opened on a fresh report.
pub open spec fn fresh_audit(m: AuditModal, path: Seq<char>, body: Seq<char>, findings: Seq<FindingView>) -> bool {
    &&& m.path@ == path
    &&& strings_view(m.lines@) == text_lines_of(body)
    &&& m.scroll == 0
    &&& m.view is List
    &&& grouped_by_member(findings, m.list@)
    &&& m.list_state == first_item(m.list@)
}

/// A finished audit opens its browser with the summary shown, or reports the
/// failure.
pub open spec fn audited(a: App, b: App, result: Result<AuditOutcome, String>) -> bool {
    match result {
        Ok(o) => {
            &&& b == (App { busy: false, status: o.summary, modal: b.modal, ..a })
            &&& b.modal matches Some(Modal::Audit(m)) && fresh_audit(m, o.path@, o.body@, finding_views(o.findings@))
        },
        Err(e) => b == (App { busy: false, status: b.status, ..a }) && b.status@ == "Audit failed: "@ + e@,
    }
}

/// A finished background job `msg` moves `a` to `b`.
pub open spec fn worker_done(a: App, b: App, msg: WorkerMsg, auth: Seq<char>, now: String, tasks: Seq<Task>) -> bool {
    match msg {
        WorkerMsg::SyncDone(r) => synced(a, b, r, auth, now, tasks),
        WorkerMsg::RowsFixed { gen, username, results, duplicates } => rows_fixed(
            a,
            b,
            gen,
            username,
            results,
            duplicates,
        ) && tasks.len() == 0,
        WorkerMsg::WriteDone { kind, result, username } => write_done(a, b, kind@, result, username, auth, tasks),
        WorkerMsg::AuditDone(r) => audited(a, b, r) && tasks.len() == 0,
    }
}


// ---------------------------------------------------------------------------
// The actions menu
// ---------------------------------------------------------------------------

/// Only the status line changed, to `msg`.
pub open spec fn told(a: App, b: App, msg: Seq<char>) -> bool {
    b == (App { status: b.status, ..a }) && b.status@ == msg
}

pub open spec fn wait_msg() -> Seq<char> {
    "Wait for the current sheet operation to finish"@
}

/// The award the awards list highlights.
pub open spec fn highlighted(a: App) -> Option<Award> {
    match a.awards_state {
        Some(i) => if i < a.visible@.len() {
            Some(a.visible@[i as int].award)
        } else {
            None
        },
        None => None,
    }
}

/// What the member's lookup shows, duplicates after the filed awards.
pub open spec fn shown(a: App) -> Seq<AwardView> {
    awards_view(a.results@) + awards_view(a.duplicates@)
}

/// `m` is the add picker over `c`, nothing typed, the first row highlighted.
pub open spec fn fresh_picker(m: AddModal, c: Seq<AwardDefView>) -> bool {
    &&& defs_view(m.all_candidates@) == c
    &&& defs_view(m.filtered@) == c
    &&& m.filter.value@.len() == 0
    &&& m.suffix.value@.len() == 0
    &&& m.state == (if c.len() > 0 { Some(0usize) } else { None })
    &&& m.step == AddStep::Pick
    &&& m.chosen is None
}

/// The catalog entries `a`'s member does not hold a column of.
pub open spec fn candidates_for(a: App, d: AwardsData, u: Seq<char>) -> Seq<AwardDefView> {
    not_owned(defs_view(d.catalog@), owned_columns(shown(a), u))
}

pub open spec fn lookup_done(a: App, b: App, auth: Seq<char>, tasks: Seq<Task>) -> bool {
    let u = lookup_key(a.username.value@);
    if u.len() == 0 {
        told(a, b, "Enter a username"@) && tasks.len() == 0
    } else if a.data is None {
        told(a, b, "Still loading awards..."@) && tasks.len() == 0
    } else {
        &&& user_view_done(a, App { focus: a.focus, ..b }, u, None, None, auth, tasks)
        &&& b.focus == if b.visible@.len() > 0 {
            FocusArea::Awards
        } else {
            a.focus
        }
    }
}

pub open spec fn refresh_done(a: App, b: App, tasks: Seq<Task>) -> bool {
    if !idle(a) {
        told(a, b, wait_msg()) && tasks.len() == 0
    } else {
        &&& b == (App { loading: true, status: b.status, ..a })
        &&& b.status@ == "Syncing Badges / Ribbons / Foreign Awards..."@
        &&& tasks.len() == 1 && tasks[0] is Sync
    }
}

pub open spec fn audit_started(a: App, b: App, tasks: Seq<Task>) -> bool {
    if !idle(a) {
        told(a, b, wait_msg()) && tasks.len() == 0
    } else {
        &&& b == (App { busy: true, status: b.status, ..a })
        &&& b.status@ == "Running duplicate audit..."@
        &&& tasks.len() == 1 && tasks[0] is Audit
    }
}

pub open spec fn add_opened(a: App, b: App) -> bool {
    if !idle(a) {
        told(a, b, wait_msg())
    } else {
        match a.results_username {
            None => told(a, b, "Look up a user before adding awards"@),
            Some(u) => match a.data {
                None => told(a, b, "Still loading..."@),
                Some(d) => {
                    let c = candidates_for(a, d, u@);
                    if c.len() == 0 {
                        told(a, b, "No remaining awards to add for this user"@)
                    } else {
                        b == (App { modal: b.modal, ..a }) && (b.modal matches Some(Modal::Add(m)) && fresh_picker(m, c))
                    }
                },
            },
        }
    }
}

pub open spec fn paste_opened(a: App, b: App) -> bool {
    if !idle(a) {
        told(a, b, wait_msg())
    } else {
        b == (App { modal: b.modal, ..a }) && (b.modal matches Some(Modal::PasteAdd(p)) && p.buffer@.len() == 0
            && p.error is None)
    }
}

/// The text a correction starts from: the cell, or the name when it is empty.
pub open spec fn prefill(aw: AwardView) -> Seq<char> {
    if aw.cell.len() == 0 {
        aw.name
    } else {
        aw.cell
    }
}

pub open spec fn edit_opened(a: App, b: App) -> bool {
    if !idle(a) {
        told(a, b, wait_msg())
    } else {
        match highlighted(a) {
            None => told(a, b, "Select an award to edit"@),
            Some(aw) => b == (App { modal: b.modal, ..a }) && (b.modal matches Some(Modal::Edit(e)) && e.award == aw
                && e.input.value@ == prefill(aw@) && e.input.cursor == prefill(aw@).len()),
        }
    }
}

pub open spec fn delete_opened(a: App, b: App) -> bool {
    if !idle(a) {
        told(a, b, wait_msg())
    } else {
        match highlighted(a) {
            None => told(a, b, "Select an award to delete"@),
            Some(aw) => b == (App { modal: b.modal, ..a }) && (b.modal matches Some(Modal::Delete(m)) && m.award == aw
                && m.input.value@.len() == 0 && m.input.cursor == 0 && m.viewed_username@ == match a.results_username {
                Some(u) => u@,
                None => "?"@,
            }),
        }
    }
}

pub open spec fn rename_opened(a: App, b: App) -> bool {
    if !idle(a) {
        told(a, b, wait_msg())
    } else {
        match a.results_username {
            None => told(a, b, "Look up a user before renaming"@),
            Some(u) => match a.data {
                None => told(a, b, "Still loading..."@),
                Some(d) => {
                    let n = rename_cells(shown(a), u@, bucket_of(d.index@, lookup_key(u@)));
                    if n == 0 {
                        told(a, b, "No sheet cells found for @"@ + u@)
                    } else {
                        b == (App { modal: b.modal, ..a }) && (b.modal matches Some(Modal::Rename(m)) && m.from@ == u@
                            && m.cell_count == n && m.existing_new == 0 && m.input.value@.len() == 0
                            && m.input.cursor == 0 && m.confirm.value@.len() == 0 && m.confirm.cursor == 0
                            && m.step == RenameStep::Name)
                    }
                },
            },
        }
    }
}

pub open spec fn assist_opened(a: App, b: App) -> bool {
    if !idle(a) {
        told(a, b, wait_msg())
    } else {
        match a.results_username {
            None => told(a, b, "Look up a user before Assist"@),
            Some(u) => if a.data is None {
                told(a, b, "Still loading..."@)
            } else {
                b == (App { modal: b.modal, ..a }) && (b.modal matches Some(Modal::Assist(m)) && m.username@ == u@
                    && m.input.value@ == "MCAB"@ && m.input.cursor == 4 && m.step == AssistStep::Query
                    && m.report@.len() == 0 && !m.can_grant && m.grant is None && m.scroll == 0)
            },
        }
    }
}

/// The shown member, or nothing.
pub open spec fn member_or_empty(a: App) -> Seq<char> {
    match a.results_username {
        Some(u) => u@,
        None => Seq::empty(),
    }
}

/// A write starts when nothing else runs: the app is busy with `status`
/// shown and `task` handed back; otherwise the clerk is asked to wait.
pub open spec fn write_started(a: App, b: App, status: Seq<char>, tasks: Seq<Task>, started: spec_fn(Task) -> bool) -> bool {
    if !idle(a) {
        told(a, b, wait_msg()) && tasks.len() == 0
    } else {
        &&& b == (App { busy: true, status: b.status, ..a })
        &&& b.status@ == status
        &&& tasks.len() == 1 && started(tasks[0])
    }
}


// ---------------------------------------------------------------------------
// Keys inside a dialog
// ---------------------------------------------------------------------------

/// `t1` is the text field `t0` after `key`.
pub open spec fn typed(t0: TextInput, t1: TextInput, key: Key) -> bool {
    (t1.value@, t1.cursor as nat) == input_after_key_of(
        t0.value@,
        t0.cursor as nat,
        edit_key(key.code),
        key.modifiers,
        key.kind,
    )
}

/// A list highlight moved by `delta`, wrapping.
pub open spec fn moved(sel: Option<usize>, len: nat, delta: int) -> Option<usize> {
    match wrapped_step(sel, len, delta) {
        Some(k) => Some(k as usize),
        None => None,
    }
}

/// Only the open dialog changed, to `m`.
pub open spec fn with_modal(a: App, b: App, m: Modal) -> bool {
    b == (App { modal: Some(m), ..a })
}

/// A dialog opened from an audit finding, which Esc turns back into the
/// audit browser.
pub open spec fn fix_dialog(m: Option<Modal>) -> bool {
    match m {
        Some(Modal::Edit(_)) => true,
        Some(Modal::Delete(_)) => true,
        Some(Modal::Rename(_)) => true,
        _ => false,
    }
}

/// Esc in a dialog moves `a` to `b`.
pub open spec fn esc_done(a: App, b: App) -> bool {
    match a.modal {
        Some(Modal::Audit(m)) => if m.view is ChooseUsername {
            with_modal(a, b, Modal::Audit(AuditModal { view: AuditView::List, ..m }))
        } else {
            b == (App { modal: None, ..a })
        },
        _ => if a.saved_audit is Some && fix_dialog(a.modal) {
            &&& b == (App {
                audit_fix_username: None,
                pending_delete: None,
                modal: Some(Modal::Audit(a.saved_audit.unwrap())),
                saved_audit: None,
                status: b.status,
                ..a
            })
            &&& b.status@ == "Fix cancelled"@
        } else {
            b == (App { modal: None, status: b.status, ..a }) && b.status@ == "Dialog cancelled"@
        },
    }
}

/// The awards the index files under the name being typed in a rename.
pub open spec fn under_new_name(a: App, typed: Seq<char>) -> nat {
    match a.data {
        Some(d) => bucket_of(
            d.index@,
            lookup_key(
                match bare_name(typed) {
                    Some(n) => lower_seq(n),
                    None => Seq::empty(),
                },
            ),
        ).len(),
        None => 0,
    }
}

/// What the candidates for a pasted request's member are once it is shown.
pub open spec fn paste_candidates(a: App, d: AwardsData, u: Seq<char>) -> Seq<AwardDefView> {
    not_owned(
        defs_view(d.catalog@),
        owned_columns(member_results(d, a.columns@, u) + member_dups(d, a.columns@, u), u),
    )
}

/// Submitting a pasted request can split its award text at character
/// boundaries (slicing elsewhere would stop the program).
pub open spec fn submit_ready(a: App) -> bool {
    match a.modal {
        Some(Modal::PasteAdd(p)) => match extracted(p.buffer@) {
            (Some(u), Some(t)) => match a.data {
                Some(d) => paste_candidates(a, d, u).len() > 0 ==> last_space_is_ascii(t),
                None => true,
            },
            _ => true,
        },
        _ => true,
    }
}

pub open spec fn paste_ready(a: App, key: Key) -> bool {
    key.code == KeyCode::Enter ==> submit_ready(a)
}

/// `m` is the add dialog a paste plan opens.
pub open spec fn planned_picker(m: AddModal, plan: PastePlanView) -> bool {
    match plan {
        PastePlanView::Picker { candidates, filter, filtered } => {
            &&& defs_view(m.all_candidates@) == candidates
            &&& defs_view(m.filtered@) == filtered
            &&& m.filter.value@ == filter && m.filter.cursor == filter.len()
            &&& m.suffix.value@.len() == 0
            &&& m.state == (if filtered.len() > 0 { Some(0usize) } else { None })
            &&& m.step == AddStep::Pick
            &&& m.chosen is None
        },
        PastePlanView::Suffix { candidates, chosen, suffix } => {
            &&& defs_view(m.all_candidates@) == candidates
            &&& defs_view(m.filtered@) == candidates
            &&& m.filter.value@.len() == 0
            &&& m.suffix.value@ == suffix && m.suffix.cursor == suffix.len()
            &&& m.state == (if candidates.len() > 0 { Some(0usize) } else { None })
            &&& m.step == AddStep::Suffix
            &&& m.chosen matches Some(c) && c@ == chosen
        },
        PastePlanView::NothingLeft => false,
    }
}

/// Submitting the paste dialog `p` moves `a` to `b`: a request naming no
/// member, or arriving before the data, keeps the dialog with an error;
/// otherwise the member is shown and the request lands where its paste plan
/// says.
pub open spec fn paste_submitted(a: App, b: App, p: PasteAddModal, auth: Seq<char>, tasks: Seq<Task>) -> bool {
    let ex = extracted(p.buffer@);
    match ex.0 {
        None => {
            &&& b == (App { modal: b.modal, ..a })
            &&& b.modal matches Some(Modal::PasteAdd(q)) && q.buffer == p.buffer && (q.error matches Some(e)
                && e@ == "Couldn't find a username in that text — check it and try again, or Esc to cancel"@)
            &&& tasks.len() == 0
        },
        Some(u) => match a.data {
            None => {
                &&& b == (App { modal: b.modal, ..a })
                &&& b.modal matches Some(Modal::PasteAdd(q)) && q.buffer == p.buffer && (q.error matches Some(e)
                    && e@ == "Still loading awards..."@)
                &&& tasks.len() == 0
            },
            Some(d) => {
                let plan = paste_plan(ex.1, paste_candidates(a, d, u));
                match plan {
                    PastePlanView::NothingLeft => {
                        &&& b.modal is None
                        &&& b.status@ == "No remaining awards to add for this user"@
                        &&& exists|st: String| user_view_done(a, App { modal: a.modal, status: st, ..b }, u, None, None, auth, tasks)
                    },
                    _ => {
                        &&& user_view_done(a, App { modal: a.modal, ..b }, u, None, None, auth, tasks)
                        &&& b.modal matches Some(Modal::Add(m)) && planned_picker(m, plan)
                    },
                }
            },
        },
    }
}

/// A key in the paste dialog `p`.
pub open spec fn paste_key_done(a: App, b: App, p: PasteAddModal, key: Key, auth: Seq<char>, tasks: Seq<Task>) -> bool {
    match key.code {
        KeyCode::Enter => paste_submitted(a, b, p, auth, tasks),
        KeyCode::Backspace => with_modal(
            a,
            b,
            b.modal.unwrap(),
        ) && (b.modal matches Some(Modal::PasteAdd(q)) && q.error == p.error && q.buffer@ == (if p.buffer@.len() > 0 {
            p.buffer@.drop_last()
        } else {
            p.buffer@
        })) && tasks.len() == 0,
        KeyCode::Char(c) => with_modal(a, b, b.modal.unwrap()) && (b.modal matches Some(Modal::PasteAdd(q)) && q.error
            == p.error && q.buffer@ == p.buffer@.push(c)) && tasks.len() == 0,
        _ => b == a && tasks.len() == 0,
    }
}

/// The add picker `m` after its filter text changed to `f`.
pub open spec fn refiltered(m: AddModal, m2: AddModal, f: TextInput) -> bool {
    let filtered = defs_matching(defs_view(m.all_candidates@), lower_seq(trim(f.value@)));
    &&& m2.filter == f
    &&& defs_view(m2.filtered@) == filtered
    &&& m2.state == (if filtered.len() == 0 {
        None
    } else {
        match m.state {
            Some(i) => if (i as int) < filtered.len() { Some(i) } else { Some(0usize) },
            None => Some(0usize),
        }
    })
    &&& m2.all_candidates == m.all_candidates
    &&& m2.suffix == m.suffix
    &&& m2.step == m.step
    &&& m2.chosen == m.chosen
}

/// A key in the add dialog `m`.
pub open spec fn add_key_done(a: App, b: App, m: AddModal, key: Key, tasks: Seq<Task>) -> bool {
    match m.step {
        AddStep::Pick => match key.code {
            KeyCode::Up => with_modal(
                a,
                b,
                Modal::Add(AddModal { state: moved(m.state, m.filtered@.len(), -1), ..m }),
            ) && tasks.len() == 0,
            KeyCode::Down => with_modal(
                a,
                b,
                Modal::Add(AddModal { state: moved(m.state, m.filtered@.len(), 1), ..m }),
            ) && tasks.len() == 0,
            KeyCode::Enter => {
                let i: int = match m.state {
                    Some(k) => k as int,
                    None => 0,
                };
                &&& tasks.len() == 0
                &&& if i < m.filtered@.len() {
                    with_modal(
                        a,
                        b,
                        Modal::Add(AddModal { chosen: Some(m.filtered@[i]), step: AddStep::Suffix, ..m }),
                    )
                } else {
                    told(a, b, "Select an award first"@)
                }
            },
            _ => b == (App { modal: b.modal, ..a }) && (b.modal matches Some(Modal::Add(m2)) && typed(
                m.filter,
                m2.filter,
                key,
            ) && refiltered(m, m2, m2.filter)) && tasks.len() == 0,
        },
        AddStep::Suffix => match key.code {
            KeyCode::Enter => match m.chosen {
                Some(c) => write_started(
                    App { modal: None, ..a },
                    b,
                    "Writing "@ + c.base_name@ + "..."@,
                    tasks,
                    (|t: Task|
                        t matches Task::Write(WriteTask::Add { username, award_def: x, suffix: y }) && username@
                            == member_or_empty(a) && x == c && y@ == trim(m.suffix.value@)),
                ),
                None => b == a && tasks.len() == 0,
            },
            _ => b == (App { modal: b.modal, ..a }) && (b.modal matches Some(Modal::Add(m2)) && typed(
                m.suffix,
                m2.suffix,
                key,
            ) && m2 == (AddModal { suffix: m2.suffix, ..m })) && tasks.len() == 0,
        },
    }
}

/// A key in the correction dialog `e`.
pub open spec fn edit_key_done(a: App, b: App, e: EditModal, key: Key, tasks: Seq<Task>) -> bool {
    match key.code {
        KeyCode::Enter => write_started(
            App { modal: None, ..a },
            b,
            "Updating sheet..."@,
            tasks,
            (|t: Task|
                t matches Task::Write(WriteTask::Edit { username, award: x, new_cell: c }) && username@
                    == member_or_empty(a) && x == e.award && c@ == trim(e.input.value@)),
        ),
        _ => b == (App { modal: b.modal, ..a }) && (b.modal matches Some(Modal::Edit(e2)) && typed(e.input, e2.input, key)
            && e2.award == e.award) && tasks.len() == 0,
    }
}

/// A key in the delete dialog `m`.
pub open spec fn delete_key_done(a: App, b: App, m: DeleteModal, key: Key, tasks: Seq<Task>) -> bool {
    match key.code {
        KeyCode::Enter => if confirms(m.input.value@, "delete"@) {
            let a1 = App { modal: None, ..a };
            &&& write_started(
                a1,
                App { pending_delete: a1.pending_delete, ..b },
                "Removing "@ + m.award@.name + "..."@,
                tasks,
                (|t: Task|
                    t matches Task::Write(WriteTask::Delete { username, award: x }) && username@ == member_or_empty(a)
                        && x == m.award),
            )
            &&& b.pending_delete == if idle(a1) {
                Some(m.award)
            } else {
                a.pending_delete
            }
        } else {
            told(a, b, "Type \"delete\" to confirm"@) && tasks.len() == 0
        },
        _ => b == (App { modal: b.modal, ..a }) && (b.modal matches Some(Modal::Delete(m2)) && typed(
            m.input,
            m2.input,
            key,
        ) && m2 == (DeleteModal { input: m2.input, ..m })) && tasks.len() == 0,
    }
}

/// A key in the rename dialog `m`.
pub open spec fn rename_key_done(a: App, b: App, m: RenameModal, key: Key, tasks: Seq<Task>) -> bool {
    match m.step {
        RenameStep::Name => match key.code {
            KeyCode::Enter => tasks.len() == 0 && match new_name_check(m.input.value@, m.from@) {
                Ok(_) => with_modal(
                    a,
                    b,
                    Modal::Rename(
                        RenameModal {
                            step: RenameStep::Confirm,
                            existing_new: under_new_name(a, m.input.value@) as usize,
                            ..m
                        },
                    ),
                ),
                Err(msg) => told(a, b, msg),
            },
            _ => b == (App { modal: b.modal, ..a }) && (b.modal matches Some(Modal::Rename(m2)) && typed(
                m.input,
                m2.input,
                key,
            ) && m2 == (RenameModal { input: m2.input, ..m })) && tasks.len() == 0,
        },
        RenameStep::Confirm => match key.code {
            KeyCode::Enter => if confirms(m.confirm.value@, "rename"@) {
                write_started(
                    App { modal: None, ..a },
                    b,
                    "Renaming @"@ + member_or_empty(a) + " → "@ + trim(m.input.value@) + " across the sheet..."@,
                    tasks,
                    (|t: Task|
                        t matches Task::Write(WriteTask::Rename { old_username, new_username }) && old_username@
                            == member_or_empty(a) && new_username@ == trim(m.input.value@)),
                )
            } else {
                &&& b == (App { modal: b.modal, status: b.status, ..a })
                &&& b.status@ == "Type \"rename\" to confirm"@
                &&& b.modal == Some(
                    Modal::Rename(RenameModal { existing_new: under_new_name(a, m.input.value@) as usize, ..m }),
                )
                &&& tasks.len() == 0
            },
            _ => b == (App { modal: b.modal, ..a }) && (b.modal matches Some(Modal::Rename(m2)) && typed(
                m.confirm,
                m2.confirm,
                key,
            ) && m2 == (RenameModal {
                confirm: m2.confirm,
                existing_new: under_new_name(a, m.input.value@) as usize,
                ..m
            })) && tasks.len() == 0,
        },
    }
}

/// The awards the assistant judges for `u`: those the index files under it.
pub open spec fn assist_awards(a: App, u: Seq<char>) -> Seq<AwardView> {
    match a.data {
        Some(d) => bucket_of(d.index@, lookup_key(u)),
        None => Seq::empty(),
    }
}

pub open spec fn grant_opt(g: Option<GrantPlan>) -> Option<(Seq<char>, Seq<char>)> {
    match g {
        Some(x) => Some(x@),
        None => None,
    }
}

/// Running the assistant `m`'s check.
pub open spec fn assist_checked(a: App, b: App, m: AssistModal) -> bool {
    let q = trim(m.input.value@);
    if q.len() == 0 {
        told(a, b, "Enter an award request (MCAB / MCIB / MCMB)"@)
    } else {
        let v = assist_verdict(m.username@, assist_awards(a, m.username@), q);
        let ok = v is Approve;
        &&& b == (App { modal: b.modal, status: b.status, ..a })
        &&& b.modal matches Some(Modal::Assist(m2)) && m2 == (AssistModal {
            report: m2.report,
            can_grant: ok,
            grant: m2.grant,
            step: AssistStep::Result,
            scroll: 0,
            ..m
        }) && m2.report@ == report_text(v, m.username@) && grant_opt(m2.grant) == (match v {
            VerdictView::Approve { grant, .. } => Some(grant),
            _ => None,
        })
        &&& b.status@ == if ok {
            "Eligible — Enter to grant on sheet, Esc to cancel"@
        } else {
            "Assist result — Esc to close"@
        }
    }
}

/// Granting what the assistant `m` approved, after checking again on the
/// current data.
pub open spec fn assist_granted(a: App, b: App, m: AssistModal, tasks: Seq<Task>) -> bool {
    let q = trim(m.input.value@);
    if q.len() == 0 {
        told(a, b, "Nothing to grant"@) && tasks.len() == 0
    } else {
        let awards = assist_awards(a, m.username@);
        let v = assist_verdict(m.username@, awards, q);
        match v {
            VerdictView::Approve { grant, .. } => match grant_target(awards, grant.0, m.username@) {
                None => b == (App { modal: None, status: b.status, ..a }) && b.status@
                    == "Could not find a sheet row owned by this user to upgrade"@ && tasks.len() == 0,
                Some(i) => write_started(
                    App { modal: None, ..a },
                    b,
                    "Updating sheet..."@,
                    tasks,
                    (|t: Task|
                        t matches Task::Write(WriteTask::Edit { username, award: x, new_cell: c }) && username@
                            == member_or_empty(a) && x@ == awards[i] && c@ == grant.1),
                ),
            },
            _ => {
                &&& b == (App { modal: b.modal, status: b.status, ..a })
                &&& b.modal matches Some(Modal::Assist(m2)) && m2 == (AssistModal {
                    report: m2.report,
                    can_grant: false,
                    grant: None,
                    step: AssistStep::Result,
                    scroll: 0,
                    ..m
                }) && m2.report@ == report_text(v, m.username@)
                &&& b.status@ == "No longer eligible — see Assist result"@
                &&& tasks.len() == 0
            },
        }
    }
}

/// A key in the assistant `m`.
pub open spec fn assist_key_done(a: App, b: App, m: AssistModal, key: Key, tasks: Seq<Task>) -> bool {
    match m.step {
        AssistStep::Query => match key.code {
            KeyCode::Enter => assist_checked(a, b, m) && tasks.len() == 0,
            _ => b == (App { modal: b.modal, ..a }) && (b.modal matches Some(Modal::Assist(m2)) && typed(
                m.input,
                m2.input,
                key,
            ) && m2 == (AssistModal { input: m2.input, ..m })) && tasks.len() == 0,
        },
        AssistStep::Result => {
            &&& tasks.len() == 0 || (key.code == KeyCode::Enter && m.can_grant)
            &&& if key.code == KeyCode::Enter && m.can_grant {
                assist_granted(a, b, m, tasks)
            } else if key.code == KeyCode::Up || key.code == KeyCode::Char('k') {
                with_modal(a, b, Modal::Assist(AssistModal { scroll: if m.scroll == 0 { 0 } else { (m.scroll - 1) as u16 }, ..m }))
            } else if key.code == KeyCode::Down || key.code == KeyCode::Char('j') {
                with_modal(
                    a,
                    b,
                    Modal::Assist(AssistModal { scroll: if m.scroll == u16::MAX { u16::MAX } else { (m.scroll + 1) as u16 }, ..m }),
                )
            } else {
                b == a
            }
        },
    }
}


// ---------------------------------------------------------------------------
// Keys in the audit browser
// ---------------------------------------------------------------------------

pub open spec fn sat_sub16(x: u16, d: u16) -> u16 {
    if x >= d {
        (x - d) as u16
    } else {
        0
    }
}

pub open spec fn sat_add16(x: u16, d: u16) -> u16 {
    if x + d <= u16::MAX {
        (x + d) as u16
    } else {
        u16::MAX
    }
}

/// The findings-list highlight moved by `delta` finding rows.
pub open spec fn audit_moved(gs: Seq<crate::tui::GroupView>, sel: Option<usize>, delta: int) -> Option<usize> {
    match audit_row_step(gs, sel, delta) {
        Some(k) => Some(k as usize),
        None => None,
    }
}

/// Opening the fix of finding `f` from the audit browser `m`: the browser is
/// put aside and the delete or correction dialog opens, or the choice of
/// name is asked; a finding with no fix is only reported.
pub open spec fn fix_opened(a: App, b: App, m: AuditModal, f: FindingView) -> bool {
    match f {
        FindingView::DuplicateRow { .. } => match finding_award(f) {
            None => b == a,
            Some(aw) => {
                &&& b == (App {
                    audit_fix_username: b.audit_fix_username,
                    saved_audit: Some(m),
                    status: b.status,
                    modal: b.modal,
                    ..a
                })
                &&& opt_text(b.audit_fix_username) == Some(crate::dialogs::finding_member(f))
                &&& b.status@ == crate::dialogs::fix_status(f)
                &&& b.modal matches Some(Modal::Delete(d)) && d.award@ == aw && d.input.value@.len() == 0
                    && d.input.cursor == 0 && d.viewed_username@ == crate::dialogs::finding_member(f)
            },
        },
        FindingView::MalformedCell { .. } => match finding_award(f) {
            None => b == a,
            Some(aw) => {
                &&& b == (App {
                    audit_fix_username: b.audit_fix_username,
                    saved_audit: Some(m),
                    status: b.status,
                    modal: b.modal,
                    ..a
                })
                &&& opt_text(b.audit_fix_username) == Some(crate::dialogs::finding_member(f))
                &&& b.status@ == crate::dialogs::fix_status(f)
                &&& b.modal matches Some(Modal::Edit(e)) && e.award@ == aw && e.input.value@ == prefill(aw)
                    && e.input.cursor == prefill(aw).len()
            },
        },
        FindingView::SimilarUsernames { a: x, b: y, .. } => {
            &&& b == (App { modal: b.modal, status: b.status, ..a })
            &&& b.status@ == crate::dialogs::fix_status(f)
            &&& b.modal matches Some(Modal::Audit(m2)) && m2 == (AuditModal { view: m2.view, ..m }) && (
            m2.view matches AuditView::ChooseUsername { a: x2, b: y2 } && x2@ == x && y2@ == y)
        },
        FindingView::UnparseableCell { .. } => told(a, b, crate::dialogs::fix_status(f)),
    }
}

/// Choosing `from` of two similar names in the audit browser `m`: the
/// rename dialog for it opens with the browser (back on its list) put aside,
/// or, when no sheet cell is filed under it, the list comes back.
pub open spec fn rename_chosen(a: App, b: App, m: AuditModal, from: Seq<char>) -> bool {
    let m1 = AuditModal { view: AuditView::List, ..m };
    let n = match a.data {
        Some(d) => crate::dialogs::count_located(bucket_of(d.index@, lookup_key(from))),
        None => 0,
    };
    if n == 0 {
        b == (App { modal: Some(Modal::Audit(m1)), status: b.status, ..a }) && b.status@ == "No sheet cells found for @"@
            + from
    } else {
        &&& b == (App { audit_fix_username: b.audit_fix_username, saved_audit: Some(m1), modal: b.modal, ..a })
        &&& opt_text(b.audit_fix_username) == Some(from)
        &&& b.modal matches Some(Modal::Rename(r)) && r.from@ == from && r.cell_count == n && r.existing_new == 0
            && r.input.value@.len() == 0 && r.input.cursor == 0 && r.confirm.value@.len() == 0 && r.confirm.cursor
            == 0 && r.step == RenameStep::Name
    }
}

/// The finding highlighted in the audit browser `m`, if a finding row is.
pub open spec fn highlighted_finding(m: AuditModal) -> Option<FindingView> {
    let rows = crate::tui::list_rows(m.list@);
    match m.list_state {
        Some(row) => if row < rows.len() && rows[row as int] is Item {
            Some(rows[row as int]->Item_0)
        } else {
            None
        },
        None => None,
    }
}

/// A key other than Esc in the audit browser `m`.
pub open spec fn audit_key_done(a: App, b: App, m: AuditModal, key: Key) -> bool {
    let up = key.code == KeyCode::Up || key.code == KeyCode::Char('k');
    let down = key.code == KeyCode::Down || key.code == KeyCode::Char('j');
    match m.view {
        AuditView::Report => if up {
            with_modal(a, b, Modal::Audit(AuditModal { scroll: sat_sub16(m.scroll, 1), ..m }))
        } else if down {
            with_modal(a, b, Modal::Audit(AuditModal { scroll: sat_add16(m.scroll, 1), ..m }))
        } else if key.code == KeyCode::PageUp {
            with_modal(a, b, Modal::Audit(AuditModal { scroll: sat_sub16(m.scroll, 10), ..m }))
        } else if key.code == KeyCode::PageDown {
            with_modal(a, b, Modal::Audit(AuditModal { scroll: sat_add16(m.scroll, 10), ..m }))
        } else if key.code == KeyCode::Home {
            with_modal(a, b, Modal::Audit(AuditModal { scroll: 0, ..m }))
        } else if key.code == KeyCode::End {
            with_modal(
                a,
                b,
                Modal::Audit(AuditModal { scroll: (if m.lines@.len() == 0 { 0 } else { m.lines@.len() - 1 }) as u16, ..m }),
            )
        } else if key.code == KeyCode::Tab {
            with_modal(a, b, Modal::Audit(AuditModal { view: AuditView::List, ..m }))
        } else {
            b == a
        },
        AuditView::List => if up {
            with_modal(a, b, Modal::Audit(AuditModal { list_state: audit_moved(m.list@, m.list_state, -1), ..m }))
        } else if down {
            with_modal(a, b, Modal::Audit(AuditModal { list_state: audit_moved(m.list@, m.list_state, 1), ..m }))
        } else if key.code == KeyCode::PageUp {
            with_modal(a, b, Modal::Audit(AuditModal { list_state: audit_moved(m.list@, m.list_state, -5), ..m }))
        } else if key.code == KeyCode::PageDown {
            with_modal(a, b, Modal::Audit(AuditModal { list_state: audit_moved(m.list@, m.list_state, 5), ..m }))
        } else if key.code == KeyCode::Tab {
            with_modal(a, b, Modal::Audit(AuditModal { view: AuditView::Report, ..m }))
        } else if key.code == KeyCode::Enter {
            match highlighted_finding(m) {
                Some(f) => fix_opened(a, b, m, f),
                None => b == a,
            }
        } else {
            b == a
        },
        AuditView::ChooseUsername { a: x, b: y } => if key.code == KeyCode::Char('1') {
            rename_chosen(a, b, m, x@)
        } else if key.code == KeyCode::Char('2') {
            rename_chosen(a, b, m, y@)
        } else {
            b == a
        },
    }
}

/// A key in an open dialog moves `a` to `b`.
pub open spec fn modal_key_done(a: App, b: App, key: Key, auth: Seq<char>, tasks: Seq<Task>) -> bool {
    if key.code == KeyCode::Esc {
        esc_done(a, b) && tasks.len() == 0
    } else {
        match a.modal {
            Some(Modal::Audit(m)) => audit_key_done(a, b, m, key) && tasks.len() == 0,
            Some(Modal::PasteAdd(p)) => paste_key_done(a, b, p, key, auth, tasks),
            Some(Modal::Add(m)) => add_key_done(a, b, m, key, tasks),
            Some(Modal::Edit(e)) => edit_key_done(a, b, e, key, tasks),
            Some(Modal::Delete(m)) => delete_key_done(a, b, m, key, tasks),
            Some(Modal::Rename(m)) => rename_key_done(a, b, m, key, tasks),
            Some(Modal::Assist(m)) => assist_key_done(a, b, m, key, tasks),
            None => b == a && tasks.len() == 0,
        }
    }
}


// ---------------------------------------------------------------------------
// Keys on the main screen
// ---------------------------------------------------------------------------

/// Running the menu entry `action`.
pub open spec fn activated(a: App, b: App, action: Action, auth: Seq<char>, tasks: Seq<Task>) -> bool {
    match action {
        Action::Lookup => lookup_done(a, b, auth, tasks),
        Action::Add => add_opened(a, b) && tasks.len() == 0,
        Action::PasteAdd => paste_opened(a, b) && tasks.len() == 0,
        Action::Edit => edit_opened(a, b) && tasks.len() == 0,
        Action::Delete => delete_opened(a, b) && tasks.len() == 0,
        Action::Rename => rename_opened(a, b) && tasks.len() == 0,
        Action::Assist => assist_opened(a, b) && tasks.len() == 0,
        Action::Refresh => refresh_done(a, b, tasks),
        Action::Audit => audit_started(a, b, tasks),
    }
}

/// The menu entry the actions menu highlights.
pub open spec fn menu_choice(a: App) -> Action {
    match a.actions_state {
        Some(i) => if i < 9 {
            crate::tui::action_at(i as int)
        } else {
            Action::Lookup
        },
        None => Action::Lookup,
    }
}

/// Showing tab `t`.
pub open spec fn tab_shown(a: App, b: App, t: AwardTab) -> bool {
    let rows = tab_rows(t, awards_view(a.results@), awards_view(a.duplicates@));
    &&& b == (App { active_tab: t, visible: b.visible, awards_state: b.awards_state, ..a })
    &&& visible_views(b.visible@) == rows
    &&& b.awards_state == selection_after(rows, None, a.awards_state)
}

pub open spec fn actions_key_done(a: App, b: App, key: Key, auth: Seq<char>, tasks: Seq<Task>) -> bool {
    if key.code == KeyCode::Up {
        b == (App { actions_state: moved(a.actions_state, 9, -1), ..a }) && tasks.len() == 0
    } else if key.code == KeyCode::Down {
        b == (App { actions_state: moved(a.actions_state, 9, 1), ..a }) && tasks.len() == 0
    } else if key.code == KeyCode::Enter {
        activated(a, b, menu_choice(a), auth, tasks)
    } else {
        b == a && tasks.len() == 0
    }
}

pub open spec fn awards_key_done(a: App, b: App, key: Key) -> bool {
    match key.code {
        KeyCode::Up => b == (App { awards_state: moved(a.awards_state, a.visible@.len(), -1), ..a }),
        KeyCode::Down => b == (App { awards_state: moved(a.awards_state, a.visible@.len(), 1), ..a }),
        KeyCode::Char(c) => if c == '[' {
            tab_shown(a, b, tab_at((tab_index(a.active_tab) - 1) % 5))
        } else if c == ']' {
            tab_shown(a, b, tab_at((tab_index(a.active_tab) + 1) % 5))
        } else if '1' <= c && c <= '5' {
            tab_shown(a, b, tab_at(c as int - '1' as int))
        } else {
            b == a
        },
        KeyCode::Enter => edit_opened(a, b),
        _ => b == a,
    }
}

pub open spec fn detail_key_done(a: App, b: App, key: Key) -> bool {
    match key.code {
        KeyCode::Enter => edit_opened(a, b),
        KeyCode::Char(c) => if c == 'e' {
            edit_opened(a, b)
        } else if c == 'd' {
            delete_opened(a, b)
        } else {
            b == a
        },
        KeyCode::Up => b == (App { awards_state: moved(a.awards_state, a.visible@.len(), -1), ..a }),
        KeyCode::Down => b == (App { awards_state: moved(a.awards_state, a.visible@.len(), 1), ..a }),
        _ => b == a,
    }
}

/// The letter shortcuts of the main screen and what they open.
pub open spec fn shortcut_done(a: App, b: App, c: char) -> bool {
    if c == 'a' {
        add_opened(a, b)
    } else if c == 'p' {
        paste_opened(a, b)
    } else if c == 'e' {
        edit_opened(a, b)
    } else if c == 'd' {
        delete_opened(a, b)
    } else if c == 'n' {
        rename_opened(a, b)
    } else {
        assist_opened(a, b)
    }
}

pub open spec fn is_shortcut(c: char) -> bool {
    c == 'a' || c == 'p' || c == 'e' || c == 'd' || c == 'n' || c == 'c'
}

/// A key press moves `a` to `b`: releases are ignored, Ctrl+Q quits, an open
/// dialog takes every other key, F5 or Ctrl+R syncs again, Tab moves the
/// focus, and the rest goes to the focused area.
pub open spec fn key_done(a: App, b: App, key: Key, auth: Seq<char>, tasks: Seq<Task>) -> bool {
    if key.kind == KeyKind::Release {
        b == a && tasks.len() == 0
    } else if has_control(key) && key.code == KeyCode::Char('q') {
        b == (App { should_quit: true, ..a }) && tasks.len() == 0
    } else if a.modal is Some {
        modal_key_done(a, b, key, auth, tasks)
    } else if key.code == KeyCode::F(5) || (has_control(key) && key.code == KeyCode::Char('r')) {
        refresh_done(a, b, tasks)
    } else if key.code == KeyCode::Tab {
        b == (App { focus: focus_at((focus_index(a.focus) + 1) % 4), ..a }) && tasks.len() == 0
    } else if key.code == KeyCode::BackTab {
        b == (App { focus: focus_at((focus_index(a.focus) - 1) % 4), ..a }) && tasks.len() == 0
    } else if key.code == KeyCode::Enter && a.focus == FocusArea::Username {
        lookup_done(a, b, auth, tasks)
    } else if a.focus != FocusArea::Username && (key.code matches KeyCode::Char(c) && is_shortcut(c)) {
        shortcut_done(a, b, key.code->Char_0) && tasks.len() == 0
    } else if key.code == KeyCode::Enter && a.focus == FocusArea::Detail {
        edit_opened(a, b) && tasks.len() == 0
    } else {
        match a.focus {
            FocusArea::Username => b == (App { username: b.username, ..a }) && typed(a.username, b.username, key)
                && tasks.len() == 0,
            FocusArea::Actions => actions_key_done(a, b, key, auth, tasks),
            FocusArea::Awards => awards_key_done(a, b, key) && tasks.len() == 0,
            FocusArea::Detail => detail_key_done(a, b, key) && tasks.len() == 0,
        }
    }
}

impl App {
    /// The browser before the first sync; `loaded_from` is the settings file
    /// read, if any.
    pub fn new(loaded_from: Option<String>, columns: Vec<AwardColumn>) -> (r: App)
        ensures
            r.data is None,
            r.columns@ == columns@,
            r.synced_at is None,
            r.results_username is None,
            r.results@.len() == 0,
            r.duplicates@.len() == 0,
            r.visible@.len() == 0,
            r.username.value@.len() == 0,
            r.username.cursor == 0,
            r.status@ == match loaded_from {
                Some(p) => "Loading… · config "@ + p@,
                None => "Loading awards from Google Sheets..."@,
            },
            !r.busy,
            !r.loading,
            r.focus == FocusArea::Username,
            r.active_tab == AwardTab::All,
            r.actions_state == Some(0usize),
            r.awards_state is None,
            r.modal is None,
            !r.should_quit,
            r.pending_delete is None,
            r.reconcile_gen == 0,
            r.saved_audit is None,
            r.audit_fix_username is None,
    {
        let status = match &loaded_from {
            Some(p) => {
                let mut v = chars_of("Loading… · config ");
                extend_str(&mut v, p.as_str());
                string_of(&v)
            },
            None => owned("Loading awards from Google Sheets..."),
        };
        App {
            data: None,
            columns,
            synced_at: None,
            results_username: None,
            results: Vec::new(),
            duplicates: Vec::new(),
            visible: Vec::new(),
            username: TextInput::new(),
            status,
            busy: false,
            loading: false,
            focus: FocusArea::Username,
            active_tab: AwardTab::All,
            actions_state: Some(0),
            awards_state: None,
            modal: None,
            should_quit: false,
            pending_delete: None,
            reconcile_gen: 0,
            saved_audit: None,
            audit_fix_username: None,
        }
    }

    /// Refuse a new dialog while one is open or work runs; `true` when one may
    /// open.
    pub fn begin_dialog(&mut self) -> (r: bool)
        ensures
            r == idle(*old(self)),
            r ==> *final(self) == *old(self),
            !r ==> *final(self) == (App { status: final(self).status, ..*old(self) })
                && final(self).status@ == "Wait for the current sheet operation to finish"@,
    {
        if self.busy || self.loading || self.modal.is_some() {
            self.status = owned("Wait for the current sheet operation to finish");
            return false;
        }
        true
    }

    /// Start background work showing `status`, unless a dialog is open or work
    /// runs; `true` when it may start.
    pub fn begin_busy(&mut self, status: String) -> (r: bool)
        ensures
            r == idle(*old(self)),
            r ==> *final(self) == (App { busy: true, status, ..*old(self) }),
            !r ==> *final(self) == (App { status: final(self).status, ..*old(self) })
                && final(self).status@ == "Wait for the current sheet operation to finish"@,
    {
        if self.busy || self.loading || self.modal.is_some() {
            self.status = owned("Wait for the current sheet operation to finish");
            return false;
        }
        self.busy = true;
        self.status = status;
        true
    }

    /// Rebuild the rows of the active tab, highlighting `select` when shown.
    pub fn refresh_visible(&mut self, select: Option<&Award>)
        ensures
            visible_views(final(self).visible@) == tab_rows(
                old(self).active_tab,
                awards_view(old(self).results@),
                awards_view(old(self).duplicates@),
            ),
            final(self).awards_state == selection_after(
                visible_views(final(self).visible@),
                award_opt(select),
                old(self).awards_state,
            ),
            *final(self) == (App { visible: final(self).visible, awards_state: final(self).awards_state, ..*old(self) }),
    {
        self.visible = visible_for_tab(self.active_tab, &self.results, &self.duplicates);
        let found = match select {
            Some(t) => first_place(&self.visible, t),
            None => None,
        };
        let selected = match found {
            Some(i) => Some(i),
            None => {
                let current = match self.awards_state {
                    Some(k) => k,
                    None => 0,
                };
                if current < self.visible.len() {
                    Some(current)
                } else {
                    None
                }
            },
        };
        self.awards_state = selected;
    }

    /// When writes are possible, start a live-row lookup of the shown awards.
    fn spawn_row_reconcile(&mut self, username: &str, auth: &str) -> (r: Vec<Task>)
        ensures
            reconciled(old(self).reconcile_gen, *final(self), username@, auth@, r@),
            *final(self) == (App { reconcile_gen: final(self).reconcile_gen, ..*old(self) }),
    {
        let mut tasks: Vec<Task> = Vec::new();
        if !signed_in(auth) {
            return tasks;
        }
        self.reconcile_gen = if self.reconcile_gen == u64::MAX {
            0
        } else {
            self.reconcile_gen + 1
        };
        let results = clone_awards(&self.results);
        let duplicates = clone_awards(&self.duplicates);
        tasks.push(Task::Reconcile { gen: self.reconcile_gen, username: owned(username), results, duplicates });
        tasks
    }

    /// Show `username`'s awards (see `user_view_done`).
    pub fn apply_user_view(&mut self, username: &str, select: Option<&Award>, status: Option<String>, auth: &str) -> (r: Vec<Task>)
        ensures
            user_view_done(*old(self), *final(self), username@, award_opt(select), opt_text(status), auth@, r@),
    {
        let (res, dups) = match &self.data {
            None => {
                return Vec::new();
            },
            Some(data) => member_lists(data, &self.columns, username),
        };
        self.results_username = Some(owned(username));
        self.results = res;
        self.duplicates = dups;
        self.refresh_visible(select);
        self.status = match status {
            Some(s) => s,
            None => {
                let mut v = chars_of(username);
                extend_str(&mut v, " · ");
                extend_chars(&mut v, &usize_decimal(self.results.len()));
                extend_str(&mut v, " award(s)");
                if self.duplicates.len() > 0 {
                    extend_str(&mut v, " · ");
                    extend_chars(&mut v, &usize_decimal(self.duplicates.len()));
                    extend_str(&mut v, " duplicate(s)");
                }
                extend_str(&mut v, " · a/e/d · F5 refresh");
                string_of(&v)
            },
        };
        let tasks = self.spawn_row_reconcile(username, auth);
        proof {
            let a = *old(self);
            let d = a.data.unwrap();
            let res = member_results(d, a.columns@, username@);
            let dups = member_dups(d, a.columns@, username@);
            assert(awards_view(self.results@) == res);
            assert(awards_view(self.duplicates@) == dups);
            assert(visible_views(self.visible@) == tab_rows(a.active_tab, res, dups));
            assert(opt_text(self.results_username) == Some(username@));
            assert(*self == (App {
                results_username: self.results_username,
                results: self.results,
                duplicates: self.duplicates,
                visible: self.visible,
                awards_state: self.awards_state,
                status: self.status,
                reconcile_gen: self.reconcile_gen,
                ..a
            }));
            assert(self.status@ == match opt_text(status) {
                Some(s) => s,
                None => lookup_line(username@, res.len() as int, dups.len() as int),
            });
        }
        tasks
    }
}


impl App {
    /// Start a sync: the caller fetches the data and answers with
    /// `WorkerMsg::SyncDone`.
    pub fn start_sync(&mut self) -> (r: Task)
        ensures
            r is Sync,
            *final(self) == (App { loading: true, status: final(self).status, ..*old(self) }),
            final(self).status@ == "Syncing Badges / Ribbons / Foreign Awards..."@,
    {
        self.loading = true;
        self.status = owned("Syncing Badges / Ribbons / Foreign Awards...");
        Task::Sync
    }

    /// A finished sync (see `synced`); `now` is the time to show as the sync
    /// time.
    pub fn handle_sync_done(&mut self, result: Result<AwardsData, String>, auth: &str, now: String) -> (r: Vec<Task>)
        ensures
            synced(*old(self), *final(self), result, auth@, now, r@),
    {
        self.loading = false;
        match result {
            Ok(data) => {
                let n = data.index.len();
                self.data = Some(data);
                self.synced_at = Some(now);
                let mut v = chars_of("Ready · ");
                extend_chars(&mut v, &usize_decimal(n));
                extend_str(&mut v, " users · ");
                let note = auth_note(auth);
                extend_str(&mut v, note.as_str());
                let ready = string_of(&v);
                match &self.results_username {
                    Some(u) => {
                        let u2 = copy_string(u);
                        self.apply_user_view(u2.as_str(), None, Some(ready), auth)
                    },
                    None => {
                        self.status = ready;
                        Vec::new()
                    },
                }
            },
            Err(e) => {
                let mut v = chars_of("Sync failed: ");
                extend_str(&mut v, e.as_str());
                self.status = string_of(&v);
                Vec::new()
            },
        }
    }

    /// Live rows for the awards shown (see `rows_fixed`).
    pub fn handle_rows_fixed(&mut self, gen: u64, username: String, results: Vec<Award>, duplicates: Vec<Award>)
        ensures
            rows_fixed(*old(self), *final(self), gen, username, results, duplicates),
    {
        if gen != self.reconcile_gen {
            return;
        }
        let same = match &self.results_username {
            Some(u) => crate::text::str_eq(u.as_str(), username.as_str()),
            None => false,
        };
        if !same {
            return;
        }
        self.results = results;
        self.duplicates = duplicates;
        self.refresh_visible(None);
    }

    pub fn apply_add_result(&mut self, result: EditResult, username: String, auth: &str) -> (r: Vec<Task>)
        ensures
            add_applied(*old(self), *final(self), result, username@, auth@, r@),
    {
        let aw = match &result.award {
            Some(a) => a.clone(),
            None => {
                self.status = copy_string(&result.message);
                return Vec::new();
            },
        };
        match self.data.take() {
            None => {
                self.status = copy_string(&result.message);
                return Vec::new();
            },
            Some(mut d) => {
                file_award(&mut d, &aw);
                self.data = Some(d);
            },
        }
        self.apply_user_view(username.as_str(), Some(&aw), Some(copy_string(&result.message)), auth)
    }

    pub fn apply_edit_result(&mut self, result: EditResult, username: String, auth: &str) -> (r: Vec<Task>)
        ensures
            edit_applied(*old(self), *final(self), result, username@, auth@, r@),
    {
        let aw = match &result.award {
            Some(a) => a.clone(),
            None => {
                self.status = copy_string(&result.message);
                return Vec::new();
            },
        };
        match self.data.take() {
            None => {
                self.status = copy_string(&result.message);
                return Vec::new();
            },
            Some(mut d) => {
                file_award(&mut d, &aw);
                self.data = Some(d);
            },
        }
        let new_key = crate::parse::normalize_username(Some(aw.cell.as_str()));
        match &self.results_username {
            Some(viewed) => {
                let same = match &new_key {
                    Some(k) => crate::text::str_eq(k.as_str(), viewed.as_str()),
                    None => false,
                };
                if !same {
                    let v2 = copy_string(viewed);
                    let mut m = chars_of(result.message.as_str());
                    extend_str(&mut m, " · no longer under @");
                    extend_str(&mut m, v2.as_str());
                    return self.apply_user_view(v2.as_str(), None, Some(string_of(&m)), auth);
                }
            },
            None => {},
        }
        self.apply_user_view(username.as_str(), Some(&aw), Some(copy_string(&result.message)), auth)
    }

    pub fn apply_delete_result(&mut self, message: String, username: String, auth: &str) -> (r: Vec<Task>)
        ensures
            delete_applied(*old(self), *final(self), message@, username@, auth@, r@),
    {
        let aw = match self.pending_delete.take() {
            Some(a) => a,
            None => {
                self.status = message;
                return Vec::new();
            },
        };
        match self.data.take() {
            None => {
                self.status = message;
                Vec::new()
            },
            Some(mut d) => {
                remove_filed(&mut d, &aw);
                self.data = Some(d);
                self.apply_user_view(username.as_str(), None, Some(message), auth)
            },
        }
    }

    pub fn apply_rename_result(&mut self, ok: bool, awards: Vec<Award>, message: String, username: String, auth: &str) -> (r: Vec<Task>)
        ensures
            rename_applied(*old(self), *final(self), ok, awards_view(awards@), message@, username@, auth@, r@),
    {
        match self.data.take() {
            None => {
                self.status = message;
                Vec::new()
            },
            Some(mut d) => {
                file_awards(&mut d, &awards);
                self.data = Some(d);
                self.username = TextInput::with_value(copy_string(&username));
                if ok && awards.len() > 0 {
                    self.apply_user_view(username.as_str(), Some(&awards[0]), Some(message), auth)
                } else {
                    self.apply_user_view(username.as_str(), None, Some(message), auth)
                }
            },
        }
    }

    /// A write started from an audit finding finished (see
    /// `audit_write_done`).
    pub fn handle_audit_write_done(&mut self, kind: &str, result: EditResult) -> (r: Vec<Task>)
        ensures
            audit_write_done(*old(self), *final(self), kind@, result, r@),
    {
        let path = match &self.saved_audit {
            Some(m) => copy_string(&m.path),
            None => String::new(),
        };
        assert(path@ == saved_path(*old(self)));
        proof {
            reveal_strlit("edit");
            reveal_strlit("delete");
            reveal_strlit("rename");
            assert("edit"@.len() == 4);
            assert("delete"@[0] == 'd' && "delete"@.len() == 6);
            assert("rename"@[0] == 'r');
        }
        if !result.ok {
            let mut v = chars_of(kind);
            extend_str(&mut v, " failed: ");
            extend_str(&mut v, result.message.as_str());
            self.status = string_of(&v);
            if crate::text::str_eq(kind, "rename") && result.awards.len() > 0 {
                match self.data.take() {
                    Some(mut d) => {
                        file_awards(&mut d, &result.awards);
                        self.data = Some(d);
                    },
                    None => {},
                }
            }
            self.pending_delete = None;
            match self.saved_audit.take() {
                Some(saved) => {
                    self.modal = Some(Modal::Audit(saved));
                },
                None => {},
            }
            return Vec::new();
        }
        let mut tasks: Vec<Task> = Vec::new();
        match self.data.take() {
            Some(mut d) => {
                if crate::text::str_eq(kind, "edit") {
                    match &result.award {
                        Some(aw) => file_award(&mut d, aw),
                        None => {},
                    }
                } else if crate::text::str_eq(kind, "delete") {
                    match self.pending_delete.take() {
                        Some(aw) => remove_filed(&mut d, &aw),
                        None => {},
                    }
                } else if crate::text::str_eq(kind, "rename") {
                    file_awards(&mut d, &result.awards);
                }
                self.data = Some(d);
                tasks.push(Task::RefreshAudit { path });
            },
            None => {},
        }
        self.status = copy_string(&result.message);
        self.saved_audit = None;
        tasks
    }

    /// A finished write (see `write_done`).
    pub fn handle_write_done(&mut self, kind: &str, result: EditResult, username: String, auth: &str) -> (r: Vec<Task>)
        ensures
            write_done(*old(self), *final(self), kind@, result, username, auth@, r@),
    {
        self.busy = false;
        if self.audit_fix_username.take().is_some() {
            return self.handle_audit_write_done(kind, result);
        }
        if !result.ok {
            if crate::text::str_eq(kind, "rename") && result.awards.len() > 0 {
                let mut m = chars_of("rename failed: ");
                extend_str(&mut m, result.message.as_str());
                return self.apply_rename_result(false, result.awards, string_of(&m), username, auth);
            }
            let mut v = chars_of(kind);
            extend_str(&mut v, " failed: ");
            extend_str(&mut v, result.message.as_str());
            self.status = string_of(&v);
            return Vec::new();
        }
        if crate::text::str_eq(kind, "add") {
            self.apply_add_result(result, username, auth)
        } else if crate::text::str_eq(kind, "edit") {
            self.apply_edit_result(result, username, auth)
        } else if crate::text::str_eq(kind, "delete") {
            self.apply_delete_result(result.message, username, auth)
        } else if crate::text::str_eq(kind, "rename") {
            self.apply_rename_result(result.ok, result.awards, result.message, username, auth)
        } else {
            self.status = result.message;
            Vec::new()
        }
    }

    /// Open the audit browser on a report computed again from the cached data
    /// (after `Task::RefreshAudit`).
    pub fn reopen_audit(&mut self, path: String, body: &str, findings: Vec<AuditFinding>)
        ensures
            *final(self) == (App { modal: final(self).modal, ..*old(self) }),
            final(self).modal matches Some(Modal::Audit(m)) && fresh_audit(m, path@, body@, finding_views(findings@)),
    {
        self.modal = Some(Modal::Audit(AuditModal::new(path, body, findings)));
    }

    /// A finished background job (see `worker_done`).
    pub fn handle_worker_msg(&mut self, msg: WorkerMsg, auth: &str, now: String) -> (r: Vec<Task>)
        ensures
            worker_done(*old(self), *final(self), msg, auth@, now, r@),
    {
        match msg {
            WorkerMsg::SyncDone(result) => self.handle_sync_done(result, auth, now),
            WorkerMsg::RowsFixed { gen, username, results, duplicates } => {
                self.handle_rows_fixed(gen, username, results, duplicates);
                Vec::new()
            },
            WorkerMsg::WriteDone { kind, result, username } => self.handle_write_done(kind, result, username, auth),
            WorkerMsg::AuditDone(result) => {
                self.busy = false;
                match result {
                    Ok(outcome) => {
                        self.status = outcome.summary;
                        self.modal = Some(
                            Modal::Audit(AuditModal::new(outcome.path, outcome.body.as_str(), outcome.findings)),
                        );
                    },
                    Err(message) => {
                        let mut v = chars_of("Audit failed: ");
                        extend_str(&mut v, message.as_str());
                        self.status = string_of(&v);
                    },
                }
                Vec::new()
            },
        }
    }
}


impl App {
    /// The award the awards list highlights.
    pub fn selected_award(&self) -> (r: Option<&Award>)
        ensures
            match highlighted(*self) {
                Some(aw) => r matches Some(x) && *x == aw,
                None => r is None,
            },
    {
        match self.awards_state {
            Some(i) => if i < self.visible.len() {
                Some(&self.visible[i].award)
            } else {
                None
            },
            None => None,
        }
    }

    /// The highlighted entry of the actions menu (the first when none is).
    pub fn selected_action(&self) -> (r: crate::tui::Action)
        ensures
            r == match self.actions_state {
                Some(i) => if i < 9 {
                    crate::tui::action_at(i as int)
                } else {
                    crate::tui::Action::Lookup
                },
                None => crate::tui::Action::Lookup,
            },
    {
        crate::tui::selected_action(self.actions_state)
    }

    /// The entries of the actions menu.
    pub fn actions(&self) -> (r: Vec<crate::tui::Action>)
        ensures
            r@.len() == 9,
            forall|i: int| 0 <= i < 9 ==> r@[i] == crate::tui::action_at(i),
    {
        crate::tui::actions()
    }

    fn shown_awards(&self) -> (r: Vec<Award>)
        ensures
            awards_view(r@) == shown(*self),
    {
        let mut v = clone_awards(&self.results);
        let mut more = clone_awards(&self.duplicates);
        let ghost a = v@;
        let ghost b = more@;
        v.append(&mut more);
        assert(v@ == a + b);
        assert(awards_view(v@) =~= awards_view(a) + awards_view(b));
        v
    }

    /// Look up the member typed in the name field (see `lookup_done`).
    pub fn action_lookup(&mut self, auth: &str) -> (r: Vec<Task>)
        ensures
            lookup_done(*old(self), *final(self), auth@, r@),
    {
        let key = crate::index::lookup_key_of(self.username.value.as_str());
        if key.as_str().is_empty() {
            self.status = owned("Enter a username");
            return Vec::new();
        }
        if self.data.is_none() {
            self.status = owned("Still loading awards...");
            return Vec::new();
        }
        let tasks = self.apply_user_view(key.as_str(), None, None, auth);
        if self.visible.len() > 0 {
            self.focus = FocusArea::Awards;
        }
        tasks
    }

    /// Sync again unless something runs or a dialog is open.
    pub fn action_refresh(&mut self) -> (r: Vec<Task>)
        ensures
            refresh_done(*old(self), *final(self), r@),
    {
        let mut tasks: Vec<Task> = Vec::new();
        if self.busy || self.loading || self.modal.is_some() {
            self.status = owned("Wait for the current sheet operation to finish");
            return tasks;
        }
        tasks.push(self.start_sync());
        tasks
    }

    /// Run the duplicate audit over the current data; the caller answers with
    /// `WorkerMsg::AuditDone`.
    pub fn action_audit(&mut self) -> (r: Vec<Task>)
        ensures
            audit_started(*old(self), *final(self), r@),
    {
        let mut tasks: Vec<Task> = Vec::new();
        if self.begin_busy(owned("Running duplicate audit...")) {
            tasks.push(Task::Audit);
        }
        tasks
    }

    /// Open the add picker over the awards the shown member lacks.
    pub fn action_add(&mut self)
        ensures
            add_opened(*old(self), *final(self)),
    {
        if !self.begin_dialog() {
            return;
        }
        let u = match &self.results_username {
            Some(u) => copy_string(u),
            None => {
                self.status = owned("Look up a user before adding awards");
                return;
            },
        };
        let owned_source = self.shown_awards();
        let candidates = match &self.data {
            Some(d) => add_candidates(d.catalog.as_slice(), owned_source.as_slice(), u.as_str()),
            None => {
                self.status = owned("Still loading...");
                return;
            },
        };
        if candidates.len() == 0 {
            self.status = owned("No remaining awards to add for this user");
            return;
        }
        self.modal = Some(Modal::Add(AddModal::new(candidates)));
    }

    /// Open the paste-to-add dialog.
    pub fn action_paste_add(&mut self)
        ensures
            paste_opened(*old(self), *final(self)),
    {
        if !self.begin_dialog() {
            return;
        }
        self.modal = Some(Modal::PasteAdd(PasteAddModal { buffer: String::new(), error: None }));
    }

    /// Open the cell correction of the highlighted award.
    pub fn action_edit(&mut self)
        ensures
            edit_opened(*old(self), *final(self)),
    {
        if !self.begin_dialog() {
            return;
        }
        let award = match self.selected_award() {
            Some(a) => a.clone(),
            None => {
                self.status = owned("Select an award to edit");
                return;
            },
        };
        let value = if award.cell.as_str().is_empty() {
            copy_string(&award.name)
        } else {
            copy_string(&award.cell)
        };
        self.modal = Some(Modal::Edit(EditModal { award, input: TextInput::with_value(value) }));
    }

    /// Open the delete dialog for the highlighted award.
    pub fn action_delete(&mut self)
        ensures
            delete_opened(*old(self), *final(self)),
    {
        if !self.begin_dialog() {
            return;
        }
        let award = match self.selected_award() {
            Some(a) => a.clone(),
            None => {
                self.status = owned("Select an award to delete");
                return;
            },
        };
        let viewed_username = match &self.results_username {
            Some(u) => copy_string(u),
            None => owned("?"),
        };
        self.modal = Some(Modal::Delete(DeleteModal { award, input: TextInput::new(), viewed_username }));
    }

    /// Open the rename dialog for the shown member.
    pub fn action_rename(&mut self)
        ensures
            rename_opened(*old(self), *final(self)),
    {
        if !self.begin_dialog() {
            return;
        }
        let from = match &self.results_username {
            Some(u) => copy_string(u),
            None => {
                self.status = owned("Look up a user before renaming");
                return;
            },
        };
        let shown = self.shown_awards();
        let cell_count = match &self.data {
            Some(d) => rename_cell_count(shown.as_slice(), from.as_str(), &d.index),
            None => {
                self.status = owned("Still loading...");
                return;
            },
        };
        if cell_count == 0 {
            let mut v = chars_of("No sheet cells found for @");
            extend_str(&mut v, from.as_str());
            self.status = string_of(&v);
            return;
        }
        self.modal = Some(
            Modal::Rename(
                RenameModal {
                    from,
                    cell_count,
                    existing_new: 0,
                    input: TextInput::new(),
                    confirm: TextInput::new(),
                    step: RenameStep::Name,
                },
            ),
        );
    }

    /// Open the eligibility assistant for the shown member.
    pub fn action_assist(&mut self)
        ensures
            assist_opened(*old(self), *final(self)),
    {
        if !self.begin_dialog() {
            return;
        }
        let username = match &self.results_username {
            Some(u) => copy_string(u),
            None => {
                self.status = owned("Look up a user before Assist");
                return;
            },
        };
        if self.data.is_none() {
            self.status = owned("Still loading...");
            return;
        }
        proof {
            reveal_strlit("MCAB");
        }
        self.modal = Some(
            Modal::Assist(
                AssistModal {
                    username,
                    input: TextInput::with_value(owned("MCAB")),
                    step: AssistStep::Query,
                    report: String::new(),
                    can_grant: false,
                    grant: None,
                    scroll: 0,
                },
            ),
        );
    }

    /// Write an add for the shown member.
    pub fn commit_add(&mut self, award_def: AwardDef, suffix: String) -> (r: Vec<Task>)
        ensures
            write_started(
                *old(self),
                *final(self),
                "Writing "@ + award_def.base_name@ + "..."@,
                r@,
                (|t: Task|
                    t matches Task::Write(WriteTask::Add { username, award_def: d, suffix: x }) && username@
                        == member_or_empty(*old(self)) && d == award_def && x == suffix),
            ),
    {
        let mut v = chars_of("Writing ");
        extend_str(&mut v, award_def.base_name.as_str());
        extend_str(&mut v, "...");
        let mut tasks: Vec<Task> = Vec::new();
        if !self.begin_busy(string_of(&v)) {
            return tasks;
        }
        let username = match &self.results_username {
            Some(u) => copy_string(u),
            None => String::new(),
        };
        tasks.push(Task::Write(WriteTask::Add { username, award_def, suffix }));
        tasks
    }

    /// Write a cell correction.
    pub fn commit_edit(&mut self, award: Award, new_cell: String) -> (r: Vec<Task>)
        ensures
            write_started(
                *old(self),
                *final(self),
                "Updating sheet..."@,
                r@,
                (|t: Task|
                    t matches Task::Write(WriteTask::Edit { username, award: x, new_cell: c }) && username@
                        == member_or_empty(*old(self)) && x == award && c == new_cell),
            ),
    {
        let mut tasks: Vec<Task> = Vec::new();
        if !self.begin_busy(owned("Updating sheet...")) {
            return tasks;
        }
        let username = match &self.results_username {
            Some(u) => copy_string(u),
            None => String::new(),
        };
        tasks.push(Task::Write(WriteTask::Edit { username, award, new_cell }));
        tasks
    }

    /// Delete an award's row; the award is kept until the outcome comes back.
    pub fn commit_delete(&mut self, award: Award) -> (r: Vec<Task>)
        ensures
            write_started(
                *old(self),
                App { pending_delete: old(self).pending_delete, ..*final(self) },
                "Removing "@ + award@.name + "..."@,
                r@,
                (|t: Task|
                    t matches Task::Write(WriteTask::Delete { username, award: x }) && username@ == member_or_empty(
                        *old(self),
                    ) && x == award),
            ),
            final(self).pending_delete == if idle(*old(self)) {
                Some(award)
            } else {
                old(self).pending_delete
            },
    {
        let mut v = chars_of("Removing ");
        extend_str(&mut v, award.name.as_str());
        extend_str(&mut v, "...");
        let mut tasks: Vec<Task> = Vec::new();
        if !self.begin_busy(string_of(&v)) {
            return tasks;
        }
        self.pending_delete = Some(award.clone());
        let username = match &self.results_username {
            Some(u) => copy_string(u),
            None => String::new(),
        };
        tasks.push(Task::Write(WriteTask::Delete { username, award }));
        tasks
    }

    /// Rename the shown member across the sheet.
    pub fn commit_rename(&mut self, new_username: String) -> (r: Vec<Task>)
        ensures
            write_started(
                *old(self),
                *final(self),
                "Renaming @"@ + member_or_empty(*old(self)) + " → "@ + new_username@ + " across the sheet..."@,
                r@,
                (|t: Task|
                    t matches Task::Write(WriteTask::Rename { old_username, new_username: n }) && old_username@
                        == member_or_empty(*old(self)) && n == new_username),
            ),
    {
        let old_username = match &self.results_username {
            Some(u) => copy_string(u),
            None => String::new(),
        };
        let mut v = chars_of("Renaming @");
        extend_str(&mut v, old_username.as_str());
        extend_str(&mut v, " → ");
        extend_str(&mut v, new_username.as_str());
        extend_str(&mut v, " across the sheet...");
        let mut tasks: Vec<Task> = Vec::new();
        if !self.begin_busy(string_of(&v)) {
            return tasks;
        }
        tasks.push(Task::Write(WriteTask::Rename { old_username, new_username }));
        tasks
    }
}


fn copy_grant(g: &GrantPlan) -> (r: GrantPlan)
    ensures
        r@ == g@,
{
    match g {
        GrantPlan::UpgradeCell { base_name, new_cell } => GrantPlan::UpgradeCell {
            base_name: copy_string(base_name),
            new_cell: copy_string(new_cell),
        },
    }
}

impl App {
    /// Esc in a dialog (see `esc_done`).
    fn esc_modal(&mut self)
        ensures
            esc_done(*old(self), *final(self)),
    {
        match self.modal.take() {
            Some(Modal::Audit(mut m)) => {
                let choosing = match &m.view {
                    AuditView::ChooseUsername { .. } => true,
                    _ => false,
                };
                if choosing {
                    m.view = AuditView::List;
                    self.modal = Some(Modal::Audit(m));
                }
            },
            Some(other) => {
                let fix = match &other {
                    Modal::Edit(_) => true,
                    Modal::Delete(_) => true,
                    Modal::Rename(_) => true,
                    _ => false,
                };
                if fix && self.saved_audit.is_some() {
                    self.audit_fix_username = None;
                    self.pending_delete = None;
                    match self.saved_audit.take() {
                        Some(saved) => {
                            self.modal = Some(Modal::Audit(saved));
                        },
                        None => {},
                    }
                    self.status = owned("Fix cancelled");
                    return;
                }
                self.status = owned("Dialog cancelled");
            },
            None => {
                self.status = owned("Dialog cancelled");
            },
        }
    }

    /// Submit the paste dialog (see `paste_submitted`).
    pub fn submit_paste_add(&mut self, auth: &str) -> (r: Vec<Task>)
        requires
            old(self).modal is Some && old(self).modal.unwrap() is PasteAdd,
            submit_ready(*old(self)),
        ensures
            match old(self).modal {
                Some(Modal::PasteAdd(p)) => paste_submitted(*old(self), *final(self), p, auth@, r@),
                _ => true,
            },
    {
        let ex = match &self.modal {
            Some(Modal::PasteAdd(p)) => extract_paste_fields(p.buffer.as_str()),
            _ => {
                return Vec::new();
            },
        };
        let u = match &ex.username {
            Some(u) => copy_string(u),
            None => {
                match self.modal.take() {
                    Some(Modal::PasteAdd(mut p)) => {
                        p.error = Some(
                            owned("Couldn't find a username in that text — check it and try again, or Esc to cancel"),
                        );
                        self.modal = Some(Modal::PasteAdd(p));
                    },
                    other => {
                        self.modal = other;
                    },
                }
                return Vec::new();
            },
        };
        if self.data.is_none() {
            match self.modal.take() {
                Some(Modal::PasteAdd(mut p)) => {
                    p.error = Some(owned("Still loading awards..."));
                    self.modal = Some(Modal::PasteAdd(p));
                },
                other => {
                    self.modal = other;
                },
            }
            return Vec::new();
        }
        let ghost a = *old(self);
        let tasks = self.apply_user_view(u.as_str(), None, None, auth);
        let ghost st = self.status;
        let owned_source = self.shown_awards();
        let award_text: Option<&str> = match &ex.award_text {
            Some(t) => Some(t.as_str()),
            None => None,
        };
        let plan = match &self.data {
            Some(d) => plan_paste_add(award_text, d.catalog.as_slice(), owned_source.as_slice(), u.as_str()),
            None => {
                return tasks;
            },
        };
        match plan {
            PastePlan::NothingLeft => {
                self.modal = None;
                self.status = owned("No remaining awards to add for this user");
                assert(user_view_done(a, App { modal: a.modal, status: st, ..*self }, u@, None, None, auth@, tasks@));
            },
            PastePlan::Picker { candidates, filter, filtered } => {
                let mut add = AddModal::new(candidates);
                add.filter = TextInput::with_value(filter);
                add.state = if filtered.len() > 0 {
                    Some(0)
                } else {
                    None
                };
                add.filtered = filtered;
                self.modal = Some(Modal::Add(add));
            },
            PastePlan::Suffix { candidates, chosen, suffix } => {
                let mut add = AddModal::new(candidates);
                add.chosen = Some(chosen);
                add.step = AddStep::Suffix;
                add.suffix = TextInput::with_value(suffix);
                self.modal = Some(Modal::Add(add));
            },
        }
        tasks
    }

    fn paste_modal_key(&mut self, key: Key, auth: &str) -> (r: Vec<Task>)
        requires
            old(self).modal is Some && old(self).modal.unwrap() is PasteAdd,
            paste_ready(*old(self), key),
        ensures
            match old(self).modal {
                Some(Modal::PasteAdd(p)) => paste_key_done(*old(self), *final(self), p, key, auth@, r@),
                _ => true,
            },
    {
        match key.code {
            KeyCode::Enter => self.submit_paste_add(auth),
            KeyCode::Backspace => {
                match self.modal.take() {
                    Some(Modal::PasteAdd(mut p)) => {
                        let mut v = chars_of(p.buffer.as_str());
                        if v.len() > 0 {
                            v.pop();
                        }
                        p.buffer = string_of(&v);
                        self.modal = Some(Modal::PasteAdd(p));
                    },
                    other => {
                        self.modal = other;
                    },
                }
                Vec::new()
            },
            KeyCode::Char(c) => {
                match self.modal.take() {
                    Some(Modal::PasteAdd(mut p)) => {
                        crate::text::push_char(&mut p.buffer, c);
                        self.modal = Some(Modal::PasteAdd(p));
                    },
                    other => {
                        self.modal = other;
                    },
                }
                Vec::new()
            },
            _ => Vec::new(),
        }
    }

    fn add_modal_key(&mut self, key: Key) -> (r: Vec<Task>)
        requires
            old(self).modal is Some && old(self).modal.unwrap() is Add,
        ensures
            match old(self).modal {
                Some(Modal::Add(m)) => add_key_done(*old(self), *final(self), m, key, r@),
                _ => true,
            },
    {
        let mut m = match self.modal.take() {
            Some(Modal::Add(m)) => m,
            other => {
                self.modal = other;
                return Vec::new();
            },
        };
        match m.step {
            AddStep::Pick => match key.code {
                KeyCode::Up => {
                    m.state = move_list(m.state, m.filtered.len(), -1);
                    self.modal = Some(Modal::Add(m));
                    Vec::new()
                },
                KeyCode::Down => {
                    m.state = move_list(m.state, m.filtered.len(), 1);
                    self.modal = Some(Modal::Add(m));
                    Vec::new()
                },
                KeyCode::Enter => {
                    let idx = match m.state {
                        Some(k) => k,
                        None => 0,
                    };
                    if idx < m.filtered.len() {
                        m.chosen = Some(m.filtered[idx].clone());
                        m.step = AddStep::Suffix;
                        self.modal = Some(Modal::Add(m));
                    } else {
                        self.modal = Some(Modal::Add(m));
                        self.status = owned("Select an award first");
                    }
                    Vec::new()
                },
                _ => {
                    m.filter.handle_key(key);
                    m.reload();
                    self.modal = Some(Modal::Add(m));
                    Vec::new()
                },
            },
            AddStep::Suffix => match key.code {
                KeyCode::Enter => {
                    let chosen = match &m.chosen {
                        Some(c) => c.clone(),
                        None => {
                            self.modal = Some(Modal::Add(m));
                            return Vec::new();
                        },
                    };
                    let suffix = trimmed_string(m.suffix.value.as_str());
                    self.commit_add(chosen, suffix)
                },
                _ => {
                    m.suffix.handle_key(key);
                    self.modal = Some(Modal::Add(m));
                    Vec::new()
                },
            },
        }
    }

    fn edit_modal_key(&mut self, key: Key) -> (r: Vec<Task>)
        requires
            old(self).modal is Some && old(self).modal.unwrap() is Edit,
        ensures
            match old(self).modal {
                Some(Modal::Edit(e)) => edit_key_done(*old(self), *final(self), e, key, r@),
                _ => true,
            },
    {
        let mut e = match self.modal.take() {
            Some(Modal::Edit(e)) => e,
            other => {
                self.modal = other;
                return Vec::new();
            },
        };
        match key.code {
            KeyCode::Enter => {
                let cell = trimmed_string(e.input.value.as_str());
                self.commit_edit(e.award, cell)
            },
            _ => {
                e.input.handle_key(key);
                self.modal = Some(Modal::Edit(e));
                Vec::new()
            },
        }
    }

    fn delete_modal_key(&mut self, key: Key) -> (r: Vec<Task>)
        requires
            old(self).modal is Some && old(self).modal.unwrap() is Delete,
        ensures
            match old(self).modal {
                Some(Modal::Delete(m)) => delete_key_done(*old(self), *final(self), m, key, r@),
                _ => true,
            },
    {
        let mut m = match self.modal.take() {
            Some(Modal::Delete(m)) => m,
            other => {
                self.modal = other;
                return Vec::new();
            },
        };
        match key.code {
            KeyCode::Enter => {
                if confirm_word(m.input.value.as_str(), "delete") {
                    self.commit_delete(m.award)
                } else {
                    self.modal = Some(Modal::Delete(m));
                    self.status = owned("Type \"delete\" to confirm");
                    Vec::new()
                }
            },
            _ => {
                m.input.handle_key(key);
                self.modal = Some(Modal::Delete(m));
                Vec::new()
            },
        }
    }

    /// The awards the index files under the name typed in a rename.
    fn count_under_new_name(&self, typed: &str) -> (r: usize)
        ensures
            r == under_new_name(*self, typed@),
    {
        match &self.data {
            Some(d) => awards_under_new_name(&d.index, typed),
            None => 0,
        }
    }

    fn rename_modal_key(&mut self, key: Key) -> (r: Vec<Task>)
        requires
            old(self).modal is Some && old(self).modal.unwrap() is Rename,
        ensures
            match old(self).modal {
                Some(Modal::Rename(m)) => rename_key_done(*old(self), *final(self), m, key, r@),
                _ => true,
            },
    {
        let mut m = match self.modal.take() {
            Some(Modal::Rename(m)) => m,
            other => {
                self.modal = other;
                return Vec::new();
            },
        };
        match m.step {
            RenameStep::Name => match key.code {
                KeyCode::Enter => {
                    match check_new_username(m.input.value.as_str(), m.from.as_str()) {
                        Ok(_) => {
                            m.step = RenameStep::Confirm;
                            m.existing_new = self.count_under_new_name(m.input.value.as_str());
                            self.modal = Some(Modal::Rename(m));
                        },
                        Err(msg) => {
                            self.modal = Some(Modal::Rename(m));
                            self.status = owned(msg);
                        },
                    }
                    Vec::new()
                },
                _ => {
                    m.input.handle_key(key);
                    self.modal = Some(Modal::Rename(m));
                    Vec::new()
                },
            },
            RenameStep::Confirm => match key.code {
                KeyCode::Enter => {
                    if confirm_word(m.confirm.value.as_str(), "rename") {
                        let new_username = trimmed_string(m.input.value.as_str());
                        self.commit_rename(new_username)
                    } else {
                        m.existing_new = self.count_under_new_name(m.input.value.as_str());
                        self.modal = Some(Modal::Rename(m));
                        self.status = owned("Type \"rename\" to confirm");
                        Vec::new()
                    }
                },
                _ => {
                    m.confirm.handle_key(key);
                    m.existing_new = self.count_under_new_name(m.input.value.as_str());
                    self.modal = Some(Modal::Rename(m));
                    Vec::new()
                },
            },
        }
    }

    fn assist_awards_for_user(&self, username: &str) -> (r: Vec<Award>)
        ensures
            awards_view(r@) == assist_awards(*self, username@),
    {
        match &self.data {
            Some(d) => get_awards_for_username(&d.index, username),
            None => {
                let v: Vec<Award> = Vec::new();
                assert(awards_view(v@) =~= Seq::<AwardView>::empty());
                v
            },
        }
    }

    /// Run the open assistant's check (see `assist_checked`).
    pub fn run_assist_check(&mut self)
        requires
            old(self).modal is Some && old(self).modal.unwrap() is Assist,
        ensures
            match old(self).modal {
                Some(Modal::Assist(m)) => assist_checked(*old(self), *final(self), m),
                _ => true,
            },
    {
        let (username, query) = match &self.modal {
            Some(Modal::Assist(m)) => (copy_string(&m.username), trimmed_string(m.input.value.as_str())),
            _ => {
                return;
            },
        };
        if query.as_str().is_empty() {
            self.status = owned("Enter an award request (MCAB / MCIB / MCMB)");
            return;
        }
        let awards = self.assist_awards_for_user(username.as_str());
        let verdict = check_assist(username.as_str(), awards.as_slice(), query.as_str());
        let report = verdict.format_report(username.as_str());
        let (can_grant, grant) = match &verdict {
            AssistVerdict::Approve { grant, .. } => (true, Some(copy_grant(grant))),
            _ => (false, None),
        };
        match self.modal.take() {
            Some(Modal::Assist(mut m)) => {
                m.report = report;
                m.can_grant = can_grant;
                m.grant = grant;
                m.step = AssistStep::Result;
                m.scroll = 0;
                self.modal = Some(Modal::Assist(m));
            },
            other => {
                self.modal = other;
            },
        }
        self.status = if can_grant {
            owned("Eligible — Enter to grant on sheet, Esc to cancel")
        } else {
            owned("Assist result — Esc to close")
        };
    }

    /// Grant what the open assistant approved (see `assist_granted`).
    pub fn commit_assist_grant(&mut self) -> (r: Vec<Task>)
        requires
            old(self).modal is Some && old(self).modal.unwrap() is Assist,
        ensures
            match old(self).modal {
                Some(Modal::Assist(m)) => assist_granted(*old(self), *final(self), m, r@),
                _ => true,
            },
    {
        let (username, query) = match &self.modal {
            Some(Modal::Assist(m)) => (copy_string(&m.username), trimmed_string(m.input.value.as_str())),
            _ => {
                return Vec::new();
            },
        };
        if query.as_str().is_empty() {
            self.status = owned("Nothing to grant");
            return Vec::new();
        }
        let awards = self.assist_awards_for_user(username.as_str());
        let verdict = check_assist(username.as_str(), awards.as_slice(), query.as_str());
        match &verdict {
            AssistVerdict::Approve { grant, .. } => {
                let target = match find_grant_target(awards.as_slice(), grant, username.as_str()) {
                    Some(t) => t.clone(),
                    None => {
                        self.modal = None;
                        self.status = owned("Could not find a sheet row owned by this user to upgrade");
                        return Vec::new();
                    },
                };
                let new_cell = match grant {
                    GrantPlan::UpgradeCell { new_cell, .. } => copy_string(new_cell),
                };
                self.modal = None;
                self.commit_edit(target, new_cell)
            },
            _ => {
                let report = verdict.format_report(username.as_str());
                match self.modal.take() {
                    Some(Modal::Assist(mut m)) => {
                        m.report = report;
                        m.can_grant = false;
                        m.grant = None;
                        m.step = AssistStep::Result;
                        m.scroll = 0;
                        self.modal = Some(Modal::Assist(m));
                    },
                    other => {
                        self.modal = other;
                    },
                }
                self.status = owned("No longer eligible — see Assist result");
                Vec::new()
            },
        }
    }

    fn assist_modal_key(&mut self, key: Key) -> (r: Vec<Task>)
        requires
            old(self).modal is Some && old(self).modal.unwrap() is Assist,
        ensures
            match old(self).modal {
                Some(Modal::Assist(m)) => assist_key_done(*old(self), *final(self), m, key, r@),
                _ => true,
            },
    {
        let mut m = match self.modal.take() {
            Some(Modal::Assist(m)) => m,
            other => {
                self.modal = other;
                return Vec::new();
            },
        };
        match m.step {
            AssistStep::Query => match key.code {
                KeyCode::Enter => {
                    self.modal = Some(Modal::Assist(m));
                    self.run_assist_check();
                    Vec::new()
                },
                _ => {
                    m.input.handle_key(key);
                    self.modal = Some(Modal::Assist(m));
                    Vec::new()
                },
            },
            AssistStep::Result => {
                if key.code == KeyCode::Enter && m.can_grant {
                    self.modal = Some(Modal::Assist(m));
                    return self.commit_assist_grant();
                }
                if key.code == KeyCode::Up || key.code == KeyCode::Char('k') {
                    m.scroll = if m.scroll > 0 {
                        m.scroll - 1
                    } else {
                        0
                    };
                } else if key.code == KeyCode::Down || key.code == KeyCode::Char('j') {
                    m.scroll = if m.scroll < 65535 {
                        m.scroll + 1
                    } else {
                        65535
                    };
                }
                self.modal = Some(Modal::Assist(m));
                Vec::new()
            },
        }
    }
}


impl App {
    /// Open the fix of `finding` from the open audit browser (see
    /// `fix_opened`).
    pub fn open_fix_for_finding(&mut self, finding: AuditFinding)
        requires
            old(self).modal is Some && old(self).modal.unwrap() is Audit,
        ensures
            match old(self).modal {
                Some(Modal::Audit(m)) => fix_opened(*old(self), *final(self), m, finding@),
                _ => true,
            },
    {
        let (plan, status) = fix_for_finding(&finding);
        match plan {
            FixPlan::Delete { award, viewed_username } => {
                let m = match self.modal.take() {
                    Some(Modal::Audit(m)) => m,
                    other => {
                        self.modal = other;
                        return;
                    },
                };
                self.audit_fix_username = Some(copy_string(&viewed_username));
                self.saved_audit = Some(m);
                self.status = owned(status);
                self.modal = Some(Modal::Delete(DeleteModal { award, input: TextInput::new(), viewed_username }));
            },
            FixPlan::Edit { award, prefill, username } => {
                let m = match self.modal.take() {
                    Some(Modal::Audit(m)) => m,
                    other => {
                        self.modal = other;
                        return;
                    },
                };
                self.audit_fix_username = Some(username);
                self.saved_audit = Some(m);
                self.status = owned(status);
                self.modal = Some(Modal::Edit(EditModal { award, input: TextInput::with_value(prefill) }));
            },
            FixPlan::ChooseUsername { a, b } => {
                match self.modal.take() {
                    Some(Modal::Audit(mut m)) => {
                        m.view = AuditView::ChooseUsername { a, b };
                        self.modal = Some(Modal::Audit(m));
                    },
                    other => {
                        self.modal = other;
                    },
                }
                self.status = owned(status);
            },
            FixPlan::NoFix => {
                match &finding {
                    AuditFinding::UnparseableCell { .. } => {
                        self.status = owned(status);
                    },
                    _ => {},
                }
            },
        }
    }

    /// Open the rename of `from`, chosen of two similar names in the open
    /// audit browser (see `rename_chosen`).
    pub fn open_rename_for_finding(&mut self, from: String)
        requires
            old(self).modal is Some && old(self).modal.unwrap() is Audit,
        ensures
            match old(self).modal {
                Some(Modal::Audit(m)) => rename_chosen(*old(self), *final(self), m, from@),
                _ => true,
            },
    {
        let mut m = match self.modal.take() {
            Some(Modal::Audit(m)) => m,
            other => {
                self.modal = other;
                return;
            },
        };
        m.view = AuditView::List;
        let none: Vec<Award> = Vec::new();
        assert(awards_view(none@) =~= Seq::<AwardView>::empty());
        let cell_count = match &self.data {
            Some(d) => rename_cell_count(none.as_slice(), from.as_str(), &d.index),
            None => 0,
        };
        if cell_count == 0 {
            let mut v = chars_of("No sheet cells found for @");
            extend_str(&mut v, from.as_str());
            self.status = string_of(&v);
            self.modal = Some(Modal::Audit(m));
            return;
        }
        self.audit_fix_username = Some(copy_string(&from));
        self.saved_audit = Some(m);
        self.modal = Some(
            Modal::Rename(
                RenameModal {
                    from,
                    cell_count,
                    existing_new: 0,
                    input: TextInput::new(),
                    confirm: TextInput::new(),
                    step: RenameStep::Name,
                },
            ),
        );
    }

    /// A key other than Esc in the open audit browser (see `audit_key_done`).
    pub fn handle_audit_modal_key(&mut self, key: Key)
        requires
            old(self).modal is Some && old(self).modal.unwrap() is Audit,
        ensures
            match old(self).modal {
                Some(Modal::Audit(m)) => audit_key_done(*old(self), *final(self), m, key),
                _ => true,
            },
    {
        let mut m = match self.modal.take() {
            Some(Modal::Audit(m)) => m,
            other => {
                self.modal = other;
                return;
            },
        };
        let up = key.code == KeyCode::Up || key.code == KeyCode::Char('k');
        let down = key.code == KeyCode::Down || key.code == KeyCode::Char('j');
        let shown_rows = m.list.rows_for_render().len();
        assert(shown_rows == crate::tui::list_rows(m.list@).len());
        let mut choice: Option<String> = None;
        let mut open: Option<AuditFinding> = None;
        match &m.view {
            AuditView::Report => {
                if up {
                    m.scroll = if m.scroll >= 1 { m.scroll - 1 } else { 0 };
                } else if down {
                    m.scroll = if m.scroll <= 65534 { m.scroll + 1 } else { 65535 };
                } else if key.code == KeyCode::PageUp {
                    m.scroll = if m.scroll >= 10 { m.scroll - 10 } else { 0 };
                } else if key.code == KeyCode::PageDown {
                    m.scroll = if m.scroll <= 65525 { m.scroll + 10 } else { 65535 };
                } else if key.code == KeyCode::Home {
                    m.scroll = 0;
                } else if key.code == KeyCode::End {
                    let n = m.lines.len();
                    let last: usize = if n == 0 { 0 } else { n - 1 };
                    m.scroll = last as u16;
                } else if key.code == KeyCode::Tab {
                    m.view = AuditView::List;
                }
            },
            AuditView::List => {
                if up {
                    m.list_state = move_audit_row(&m.list, m.list_state, -1);
                } else if down {
                    m.list_state = move_audit_row(&m.list, m.list_state, 1);
                } else if key.code == KeyCode::PageUp {
                    m.list_state = move_audit_row(&m.list, m.list_state, -5);
                } else if key.code == KeyCode::PageDown {
                    m.list_state = move_audit_row(&m.list, m.list_state, 5);
                } else if key.code == KeyCode::Tab {
                    m.view = AuditView::Report;
                } else if key.code == KeyCode::Enter {
                    match m.list_state {
                        Some(row) => match m.list.finding_at_row(row) {
                            Some(f) => {
                                open = Some(copy_finding(f));
                            },
                            None => {},
                        },
                        None => {},
                    }
                }
            },
            AuditView::ChooseUsername { a, b } => {
                if key.code == KeyCode::Char('1') {
                    choice = Some(copy_string(a));
                } else if key.code == KeyCode::Char('2') {
                    choice = Some(copy_string(b));
                }
            },
        }
        self.modal = Some(Modal::Audit(m));
        match open {
            Some(f) => {
                self.open_fix_for_finding(f);
            },
            None => match choice {
                Some(from) => {
                    self.open_rename_for_finding(from);
                },
                None => {},
            },
        }
    }

    /// A key while a dialog is open (see `modal_key_done`).
    pub fn handle_modal_key(&mut self, key: Key, auth: &str) -> (r: Vec<Task>)
        requires
            paste_ready(*old(self), key),
        ensures
            modal_key_done(*old(self), *final(self), key, auth@, r@),
    {
        if key.code == KeyCode::Esc {
            self.esc_modal();
            return Vec::new();
        }
        match &self.modal {
            Some(Modal::Audit(_)) => {
                self.handle_audit_modal_key(key);
                Vec::new()
            },
            Some(Modal::PasteAdd(_)) => self.paste_modal_key(key, auth),
            Some(Modal::Add(_)) => self.add_modal_key(key),
            Some(Modal::Edit(_)) => self.edit_modal_key(key),
            Some(Modal::Delete(_)) => self.delete_modal_key(key),
            Some(Modal::Rename(_)) => self.rename_modal_key(key),
            Some(Modal::Assist(_)) => self.assist_modal_key(key),
            None => Vec::new(),
        }
    }

    /// Text pasted into the terminal: added to the paste dialog's buffer when
    /// that dialog is open, ignored otherwise.
    pub fn handle_paste(&mut self, text: &str)
        ensures
            match old(self).modal {
                Some(Modal::PasteAdd(p)) => with_modal(*old(self), *final(self), final(self).modal.unwrap()) && (
                final(self).modal matches Some(Modal::PasteAdd(q)) && q.error == p.error && q.buffer@ == p.buffer@
                    + text@),
                _ => *final(self) == *old(self),
            },
    {
        match self.modal.take() {
            Some(Modal::PasteAdd(mut p)) => {
                let mut v = chars_of(p.buffer.as_str());
                extend_str(&mut v, text);
                p.buffer = string_of(&v);
                self.modal = Some(Modal::PasteAdd(p));
            },
            other => {
                self.modal = other;
            },
        }
    }
}


impl App {
    /// Run the menu entry `action` (see `activated`).
    pub fn activate_action(&mut self, action: Action, auth: &str) -> (r: Vec<Task>)
        ensures
            activated(*old(self), *final(self), action, auth@, r@),
    {
        match action {
            Action::Lookup => self.action_lookup(auth),
            Action::Add => {
                self.action_add();
                Vec::new()
            },
            Action::PasteAdd => {
                self.action_paste_add();
                Vec::new()
            },
            Action::Edit => {
                self.action_edit();
                Vec::new()
            },
            Action::Delete => {
                self.action_delete();
                Vec::new()
            },
            Action::Rename => {
                self.action_rename();
                Vec::new()
            },
            Action::Assist => {
                self.action_assist();
                Vec::new()
            },
            Action::Refresh => self.action_refresh(),
            Action::Audit => self.action_audit(),
        }
    }

    /// Show the tab `delta` steps away, wrapping.
    pub fn move_tab(&mut self, delta: isize)
        ensures
            tab_shown(*old(self), *final(self), tab_at((tab_index(old(self).active_tab) + delta) % 5)),
    {
        self.active_tab = step_tab(self.active_tab, delta);
        self.refresh_visible(None);
    }

    /// Move the awards highlight by `delta`, wrapping.
    pub fn move_award(&mut self, delta: isize)
        ensures
            *final(self) == (App {
                awards_state: moved(old(self).awards_state, old(self).visible@.len(), delta as int),
                ..*old(self)
            }),
    {
        self.awards_state = move_list(self.awards_state, self.visible.len(), delta);
    }

    /// Move the actions highlight by `delta`, wrapping.
    pub fn move_action(&mut self, delta: isize)
        ensures
            *final(self) == (App { actions_state: moved(old(self).actions_state, 9, delta as int), ..*old(self) }),
    {
        self.actions_state = move_list(self.actions_state, 9, delta);
    }

    /// Move the focus by `delta` areas, wrapping.
    pub fn cycle_focus(&mut self, delta: isize)
        ensures
            *final(self) == (App { focus: focus_at((focus_index(old(self).focus) + delta) % 4), ..*old(self) }),
    {
        self.focus = crate::tui::cycle_focus(self.focus, delta);
    }

    fn handle_actions_key(&mut self, key: Key, auth: &str) -> (r: Vec<Task>)
        ensures
            actions_key_done(*old(self), *final(self), key, auth@, r@),
    {
        if key.code == KeyCode::Up {
            self.move_action(-1);
            Vec::new()
        } else if key.code == KeyCode::Down {
            self.move_action(1);
            Vec::new()
        } else if key.code == KeyCode::Enter {
            let action = self.selected_action();
            self.activate_action(action, auth)
        } else {
            Vec::new()
        }
    }

    fn handle_awards_key(&mut self, key: Key)
        ensures
            awards_key_done(*old(self), *final(self), key),
    {
        match key.code {
            KeyCode::Up => self.move_award(-1),
            KeyCode::Down => self.move_award(1),
            KeyCode::Char(c) => {
                if c == '[' {
                    self.move_tab(-1);
                } else if c == ']' {
                    self.move_tab(1);
                } else {
                    match tab_for_digit(c) {
                        Some(t) => {
                            self.active_tab = t;
                            self.refresh_visible(None);
                        },
                        None => {},
                    }
                }
            },
            KeyCode::Enter => self.action_edit(),
            _ => {},
        }
    }

    fn handle_detail_key(&mut self, key: Key)
        ensures
            detail_key_done(*old(self), *final(self), key),
    {
        match key.code {
            KeyCode::Enter => self.action_edit(),
            KeyCode::Char(c) => {
                if c == 'e' {
                    self.action_edit();
                } else if c == 'd' {
                    self.action_delete();
                }
            },
            KeyCode::Up => self.move_award(-1),
            KeyCode::Down => self.move_award(1),
            _ => {},
        }
    }

    /// A key press (see `key_done`); `auth` is the credentials' state, which
    /// decides whether a lookup also starts a live-row check.
    pub fn handle_key(&mut self, key: Key, auth: &str) -> (r: Vec<Task>)
        requires
            key.kind != KeyKind::Release ==> paste_ready(*old(self), key),
        ensures
            key_done(*old(self), *final(self), key, auth@, r@),
    {
        if key.kind == KeyKind::Release {
            return Vec::new();
        }
        let control = key.modifiers & 2u8 != 0;
        assert(control == has_control(key));
        if control && key.code == KeyCode::Char('q') {
            self.should_quit = true;
            return Vec::new();
        }
        if self.modal.is_some() {
            return self.handle_modal_key(key, auth);
        }
        if key.code == KeyCode::F(5) || (control && key.code == KeyCode::Char('r')) {
            return self.action_refresh();
        }
        if key.code == KeyCode::Tab {
            self.cycle_focus(1);
            return Vec::new();
        }
        if key.code == KeyCode::BackTab {
            self.cycle_focus(-1);
            return Vec::new();
        }
        if key.code == KeyCode::Enter && self.focus == FocusArea::Username {
            return self.action_lookup(auth);
        }
        if self.focus != FocusArea::Username {
            match key.code {
                KeyCode::Char(c) => {
                    if c == 'a' {
                        self.action_add();
                        return Vec::new();
                    } else if c == 'p' {
                        self.action_paste_add();
                        return Vec::new();
                    } else if c == 'e' {
                        self.action_edit();
                        return Vec::new();
                    } else if c == 'd' {
                        self.action_delete();
                        return Vec::new();
                    } else if c == 'n' {
                        self.action_rename();
                        return Vec::new();
                    } else if c == 'c' {
                        self.action_assist();
                        return Vec::new();
                    }
                },
                _ => {},
            }
        }
        if key.code == KeyCode::Enter && self.focus == FocusArea::Detail {
            self.action_edit();
            return Vec::new();
        }
        match self.focus {
            FocusArea::Username => {
                self.username.handle_key(key);
                Vec::new()
            },
            FocusArea::Actions => self.handle_actions_key(key, auth),
            FocusArea::Awards => {
                self.handle_awards_key(key);
                Vec::new()
            },
            FocusArea::Detail => {
                self.handle_detail_key(key);
                Vec::new()
            },
        }
    }
}


impl App {
    /// Whether `key` may be handed to `handle_key` (`paste_ready`): false only
    /// when it would submit a pasted request whose award text cannot be split.
    pub fn paste_ready_now(&self, key: Key) -> (r: bool)
        ensures
            r == paste_ready(*self, key),
    {
        if key.code != KeyCode::Enter {
            return true;
        }
        match &self.modal {
            Some(Modal::PasteAdd(p)) => {
                let ex = extract_paste_fields(p.buffer.as_str());
                match (&ex.username, &ex.award_text) {
                    (Some(u), Some(t)) => match &self.data {
                        Some(d) => {
                            let (mut shown, mut dups) = member_lists(d, &self.columns, u.as_str());
                            let ghost r0 = shown@;
                            let ghost d0 = dups@;
                            shown.append(&mut dups);
                            assert(awards_view(shown@) =~= awards_view(r0) + awards_view(d0));
                            let c = add_candidates(d.catalog.as_slice(), shown.as_slice(), u.as_str());
                            c.len() == 0 || crate::parse::has_ascii_last_space(t.as_str())
                        },
                        None => true,
                    },
                    _ => true,
                }
            },
            _ => true,
        }
    }
}

} // verus!
