//! Duplicate audits over the fetched sheet rows: the problems around one member
//! (`find_duplicates_for_user`) and the whole-database report
//! (`collect_sheet_audit`), its text rendering and its flat list of findings.
//!
//! Grouping keeps first-seen order; every list the report shows is then sorted
//! stably by the keys the report documents.
use vstd::prelude::*;
use crate::text::{
    chars_eq, chars_of, copy_string, decimal, decimal_string, extend_str, join, join_strings,
    lower_chars, lower_seq, seq_le, str_eq, string_of, strings_view, trim, trim_chars,
};
use crate::meta::{
    col_fits, col_index, col_to_index, csv_index_to_sheet_row, meta_of, offset_of, sheet_meta,
    SheetMeta, SheetMetaView,
};
use crate::parse::{
    cell_at, cell_format_issues, cell_text, clean, clean_chars, format_issues, normalize_username,
    similar_names, username_key, usernames_similar,
};
use crate::index::{lookup_key, seq_le_exec};
use crate::sort::{order_of, sorted_stable, stable_sort, views, SortOrder};
use crate::trusted::{debug_text, debug_text_of};
use crate::types::{
    hits_view, key_pos, lemma_key_pos, lemma_key_pos_unique, rows_of, rows_view, AwardColumn,
    AwardsData, DuplicateHit, DuplicateHitView,
};

verus! {

// ---------------------------------------------------------------------------
// Shared pieces
// ---------------------------------------------------------------------------

/// The configured columns as `(sheet, col)` pairs.
pub open spec fn cols_view(cols: Seq<AwardColumn>) -> Seq<(Seq<char>, Seq<char>)> {
    cols.map_values(|c: AwardColumn| (c.sheet@, c.col@))
}

/// Every configured column name converts to an index.
pub open spec fn columns_fit(cols: Seq<AwardColumn>) -> bool {
    forall|i: int| 0 <= i < cols.len() ==> col_fits(#[trigger] cols[i].col@)
}

/// Every tab's row numbers fit a sheet row number.
pub open spec fn rows_fit(tabs: Seq<(Seq<char>, Seq<Seq<Seq<char>>>)>) -> bool {
    forall|i: int| 0 <= i < tabs.len() ==> (#[trigger] tabs[i]).1.len() + 9 <= i32::MAX
}

/// Whether every tab's row numbers fit a sheet row number (`rows_fit`).
pub fn rows_fit_check(tabs: &crate::types::SheetRows) -> (r: bool)
    ensures
        r == rows_fit(tabs@),
{
    let mut i: usize = 0;
    while i < tabs.len()
        invariant
            i <= tabs@.len(),
            forall|j: int| 0 <= j < i ==> (#[trigger] tabs@[j]).1.len() + 9 <= i32::MAX,
        decreases tabs@.len() - i,
    {
        if tabs.row_count_at(i) > 2147483638 {
            assert(!((tabs@[i as int]).1.len() + 9 <= i32::MAX));
            return false;
        }
        i += 1;
    }
    true
}

/// Whether every configured column name fits the machine word (`columns_fit`).
pub fn columns_fit_check(columns: &[AwardColumn]) -> (r: bool)
    ensures
        r == columns_fit(columns@),
{
    let mut i: usize = 0;
    while i < columns.len()
        invariant
            i <= columns@.len(),
            forall|j: int| 0 <= j < i ==> col_fits(#[trigger] columns@[j].col@),
        decreases columns@.len() - i,
    {
        if !crate::meta::col_fits_check(columns[i].col.as_str()) {
            return false;
        }
        i += 1;
    }
    true
}

/// `v` appended to the group of `k` (a new last group when `k` is new).
pub open spec fn add_to<K, V>(m: Seq<(K, Seq<V>)>, k: K, v: V) -> Seq<(K, Seq<V>)> {
    match key_pos(m, k) {
        Some(i) => m.update(i, (k, m[i].1.push(v))),
        None => m.push((k, seq![v])),
    }
}

/// Strictly before in code-point order.
pub open spec fn seq_lt(a: Seq<char>, b: Seq<char>) -> bool {
    seq_le(a, b) && a != b
}

/// Award name of a column: the trimmed cell in the tab's name row.
pub open spec fn column_base(rows: Seq<Seq<Seq<char>>>, m: SheetMetaView, col: Seq<char>) -> Seq<char> {
    trim(cell_at(rows, m.name_row - 1, col_index(col)))
}

pub(crate) fn column_base_of(rows: &Vec<Vec<String>>, m: &SheetMeta, col_idx: usize) -> (r: String)
    requires
        m.name_row >= 1,
    ensures
        r@ == trim(cell_at(rows_view(rows@), m.name_row - 1, col_idx as int)),
{
    let n = m.name_row - 1;
    if n < rows.len() {
        let t = cell_text(&rows[n], col_idx);
        assert(t@ == cell_at(rows_view(rows@), n as int, col_idx as int));
        string_of(&trim_chars(&chars_of(t)))
    } else {
        proof {
            reveal_strlit("");
        }
        let e = chars_of("");
        assert(trim(Seq::<char>::empty()) =~= Seq::<char>::empty()) by {
            reveal_with_fuel(crate::text::trim_start, 2);
            reveal_with_fuel(crate::text::trim_end, 2);
        }
        string_of(&e)
    }
}

proof fn lemma_meta_facts(sheet: Seq<char>)
    requires
        meta_of(sheet) is Some,
    ensures
        meta_of(sheet).unwrap().name_row >= 1,
        meta_of(sheet).unwrap().data_start_row >= 1,
        0 <= meta_of(sheet).unwrap().row_offset <= 8,
        offset_of(sheet) == meta_of(sheet).unwrap().row_offset,
{
}

/// `a` and `b` are both in one string and equal: `String`'s `==` by views.
fn same_text(a: &String, b: &String) -> (r: bool)
    ensures
        r == (a@ == b@),
{
    str_eq(a.as_str(), b.as_str())
}

fn lt_text(a: &String, b: &String) -> (r: bool)
    ensures
        r == seq_lt(a@, b@),
{
    let av = chars_of(a.as_str());
    let bv = chars_of(b.as_str());
    seq_le_exec(&av, &bv) && !chars_eq(&av, &bv)
}

fn lower_text(a: &String) -> (r: Vec<char>)
    ensures
        r@ == lower_seq(a@),
{
    lower_chars(&chars_of(a.as_str()))
}

// ---------------------------------------------------------------------------
// One member's problems
// ---------------------------------------------------------------------------

pub open spec fn make_hit(
    category: Seq<char>,
    base_name: Seq<char>,
    sheet: Seq<char>,
    col: Seq<char>,
    row: i32,
    cell: Seq<char>,
    user: Seq<char>,
    reason: Seq<char>,
) -> DuplicateHitView {
    DuplicateHitView { category, base_name, sheet, col, row, cell, cell_username: user, reason }
}

/// Two hits flag the same cell for the same reason.
pub open spec fn same_hit(a: DuplicateHitView, b: DuplicateHitView) -> bool {
    a.sheet == b.sheet && a.col == b.col && a.row == b.row && a.reason == b.reason
}

/// `h` appended unless the same cell is already flagged for the same reason.
pub open spec fn add_hit(hits: Seq<DuplicateHitView>, h: DuplicateHitView) -> Seq<DuplicateHitView> {
    if exists|i: int| 0 <= i < hits.len() && same_hit(#[trigger] hits[i], h) {
        hits
    } else {
        hits.push(h)
    }
}

/// The member's own cells by column, and the hits so far.
pub struct DupState {
    /// Keyed by `(sheet, col, category, award name)`.
    pub exact: Seq<((Seq<char>, Seq<char>, Seq<char>, Seq<char>), Seq<(i32, Seq<char>, Seq<char>)>)>,
    pub hits: Seq<DuplicateHitView>,
}

/// One cleaned cell of a column, looked at for the member `key`.
pub open spec fn dup_cell(
    st: DupState,
    key: Seq<char>,
    sheet: Seq<char>,
    col: Seq<char>,
    m: SheetMetaView,
    base: Seq<char>,
    cell: Seq<char>,
    row: i32,
) -> DupState {
    if cell.len() == 0 {
        st
    } else {
        match username_key(cell) {
            None => st,
            Some(u) => {
                let bad = format_issues(cell).len() > 0;
                let mal = make_hit(m.category, base, sheet, col, row, cell, u, "malformed_cell"@);
                if u == key {
                    DupState {
                        exact: add_to(st.exact, (sheet, col, m.category, base), (row, cell, u)),
                        hits: if bad {
                            add_hit(st.hits, mal)
                        } else {
                            st.hits
                        },
                    }
                } else if similar_names(u, key) {
                    let h1 = add_hit(
                        st.hits,
                        make_hit(m.category, base, sheet, col, row, cell, u, "similar_username"@),
                    );
                    DupState {
                        exact: st.exact,
                        hits: if bad {
                            add_hit(h1, mal)
                        } else {
                            h1
                        },
                    }
                } else {
                    st
                }
            },
        }
    }
}

/// The state after the member rows of a column up to (not including) CSV row `r`.
pub open spec fn dup_rows(
    st0: DupState,
    rows: Seq<Seq<Seq<char>>>,
    key: Seq<char>,
    sheet: Seq<char>,
    col: Seq<char>,
    m: SheetMetaView,
    base: Seq<char>,
    r: int,
) -> DupState
    decreases r,
{
    if r <= 0 || r <= m.data_start_row - 1 {
        st0
    } else {
        dup_cell(
            dup_rows(st0, rows, key, sheet, col, m, base, r - 1),
            key,
            sheet,
            col,
            m,
            base,
            clean(cell_at(rows, r - 1, col_index(col))),
            (r + m.row_offset) as i32,
        )
    }
}

/// One configured column scanned for the member `key`.
pub open spec fn dup_column(
    st: DupState,
    tabs: Seq<(Seq<char>, Seq<Seq<Seq<char>>>)>,
    key: Seq<char>,
    sheet: Seq<char>,
    col: Seq<char>,
) -> DupState {
    match meta_of(sheet) {
        None => st,
        Some(m) => match rows_of(tabs, sheet) {
            None => st,
            Some(rows) => {
                let base = column_base(rows, m, col);
                if base.len() == 0 {
                    st
                } else {
                    dup_rows(st, rows, key, sheet, col, m, base, rows.len() as int)
                }
            },
        },
    }
}

/// All configured columns scanned, in order.
pub open spec fn dup_columns(
    tabs: Seq<(Seq<char>, Seq<Seq<Seq<char>>>)>,
    key: Seq<char>,
    cols: Seq<(Seq<char>, Seq<char>)>,
) -> DupState
    decreases cols.len(),
{
    if cols.len() == 0 {
        DupState { exact: seq![], hits: seq![] }
    } else {
        dup_column(dup_columns(tabs, key, cols.drop_last()), tabs, key, cols.last().0, cols.last().1)
    }
}

/// Every cell of the group reads the same ignoring ASCII case.
pub open spec fn identical_cells(es: Seq<(i32, Seq<char>, Seq<char>)>) -> bool {
    forall|i: int, j: int|
        0 <= i < es.len() && 0 <= j < es.len() ==> lower_seq(#[trigger] es[i].1) == lower_seq(
            #[trigger] es[j].1,
        )
}

/// The first `n` entries of a group flagged with `reason`.
pub open spec fn entry_hits(
    hits: Seq<DuplicateHitView>,
    es: Seq<(i32, Seq<char>, Seq<char>)>,
    category: Seq<char>,
    base: Seq<char>,
    sheet: Seq<char>,
    col: Seq<char>,
    reason: Seq<char>,
    n: int,
) -> Seq<DuplicateHitView>
    decreases n,
{
    if n <= 0 {
        hits
    } else {
        add_hit(
            entry_hits(hits, es, category, base, sheet, col, reason, n - 1),
            make_hit(category, base, sheet, col, es[n - 1].0, es[n - 1].1, es[n - 1].2, reason),
        )
    }
}

/// Hits for the member's own duplicate cells in one column.
pub open spec fn group_hits(
    hits: Seq<DuplicateHitView>,
    k: (Seq<char>, Seq<char>, Seq<char>, Seq<char>),
    es: Seq<(i32, Seq<char>, Seq<char>)>,
) -> Seq<DuplicateHitView> {
    if es.len() < 2 {
        hits
    } else {
        entry_hits(
            hits,
            es,
            k.2,
            k.3,
            k.0,
            k.1,
            if identical_cells(es) {
                "duplicate_identical"@
            } else {
                "duplicate_conflict"@
            },
            es.len() as int,
        )
    }
}

/// Hits for the first `n` columns holding the member.
pub open spec fn all_group_hits(
    hits: Seq<DuplicateHitView>,
    exact: Seq<((Seq<char>, Seq<char>, Seq<char>, Seq<char>), Seq<(i32, Seq<char>, Seq<char>)>)>,
    n: int,
) -> Seq<DuplicateHitView>
    decreases n,
{
    if n <= 0 {
        hits
    } else {
        group_hits(all_group_hits(hits, exact, n - 1), exact[n - 1].0, exact[n - 1].1)
    }
}

/// Hits ordered by reason, then award name ignoring case, then row.
pub struct HitOrder;

impl SortOrder<DuplicateHit> for HitOrder {
    open spec fn le(a: DuplicateHitView, b: DuplicateHitView) -> bool {
        seq_lt(a.reason, b.reason) || (a.reason == b.reason && (seq_lt(
            lower_seq(a.base_name),
            lower_seq(b.base_name),
        ) || (lower_seq(a.base_name) == lower_seq(b.base_name) && a.row <= b.row)))
    }

    fn le_exec(a: &DuplicateHit, b: &DuplicateHit) -> (r: bool) {
        if lt_text(&a.reason, &b.reason) {
            return true;
        }
        if !same_text(&a.reason, &b.reason) {
            return false;
        }
        let al = lower_text(&a.base_name);
        let bl = lower_text(&b.base_name);
        if seq_le_exec(&al, &bl) && !chars_eq(&al, &bl) {
            return true;
        }
        chars_eq(&al, &bl) && a.row <= b.row
    }
}

/// Everything flagged around one member, ordered by reason, award and row.
pub open spec fn duplicates_for(
    tabs: Seq<(Seq<char>, Seq<Seq<Seq<char>>>)>,
    cols: Seq<(Seq<char>, Seq<char>)>,
    username: Seq<char>,
) -> Seq<DuplicateHitView> {
    let key = lookup_key(username);
    if key.len() == 0 {
        seq![]
    } else {
        let st = dup_columns(tabs, key, cols);
        sorted_stable(
            all_group_hits(st.hits, st.exact, st.exact.len() as int),
            order_of::<DuplicateHit, HitOrder>(),
        )
    }
}

pub open spec fn recs_view(v: Seq<(i32, String, String)>) -> Seq<(i32, Seq<char>, Seq<char>)> {
    v.map_values(|e: (i32, String, String)| (e.0, e.1@, e.2@))
}

pub open spec fn key4_view(k: (String, String, String, String)) -> (Seq<char>, Seq<char>, Seq<char>, Seq<char>) {
    (k.0@, k.1@, k.2@, k.3@)
}

pub open spec fn exact_view(
    v: Seq<((String, String, String, String), Vec<(i32, String, String)>)>,
) -> Seq<((Seq<char>, Seq<char>, Seq<char>, Seq<char>), Seq<(i32, Seq<char>, Seq<char>)>)> {
    v.map_values(
        |e: ((String, String, String, String), Vec<(i32, String, String)>)| (key4_view(e.0), recs_view(e.1@)),
    )
}

pub open spec fn dup_state(exact: Seq<((String, String, String, String), Vec<(i32, String, String)>)>, hits: Seq<DuplicateHit>) -> DupState {
    DupState { exact: exact_view(exact), hits: hits_view(hits) }
}

fn new_hit(
    category: &str,
    base: &String,
    sheet: &String,
    col: &String,
    row: i32,
    cell: &String,
    user: &String,
    reason: &str,
) -> (r: DuplicateHit)
    ensures
        r@ == make_hit(category@, base@, sheet@, col@, row, cell@, user@, reason@),
{
    DuplicateHit {
        category: crate::text::owned(category),
        base_name: copy_string(base),
        sheet: copy_string(sheet),
        col: copy_string(col),
        row,
        cell: copy_string(cell),
        cell_username: copy_string(user),
        reason: crate::text::owned(reason),
    }
}

/// Appends `hit` unless the same cell is already flagged for the same reason.
fn push_hit(hits: &mut Vec<DuplicateHit>, hit: DuplicateHit)
    ensures
        hits_view(final(hits)@) == add_hit(hits_view(old(hits)@), hit@),
{
    let ghost hv = hits_view(hits@);
    let mut i: usize = 0;
    while i < hits.len()
        invariant
            i <= hits.len(),
            hv == hits_view(hits@),
            forall|k: int| 0 <= k < i ==> !same_hit(#[trigger] hv[k], hit@),
        decreases hits.len() - i,
    {
        let h = &hits[i];
        assert(hv[i as int] == h@);
        if same_text(&h.sheet, &hit.sheet) && same_text(&h.col, &hit.col) && h.row == hit.row
            && same_text(&h.reason, &hit.reason) {
            assert(same_hit(hv[i as int], hit@));
            return;
        }
        i += 1;
    }
    let ghost h = hit@;
    hits.push(hit);
    assert(hits_view(hits@) =~= hv.push(h));
}

/// Appends `rec` to the group of `key`.
fn add_exact(
    exact: &mut Vec<((String, String, String, String), Vec<(i32, String, String)>)>,
    key: (String, String, String, String),
    rec: (i32, String, String),
)
    ensures
        exact_view(final(exact)@) == add_to(exact_view(old(exact)@), key4_view(key), (rec.0, rec.1@, rec.2@)),
{
    let ghost ev = exact_view(exact@);
    let ghost k = key4_view(key);
    let ghost rv = (rec.0, rec.1@, rec.2@);
    proof {
        lemma_key_pos(ev, k);
    }
    let mut i: usize = 0;
    while i < exact.len()
        invariant
            i <= exact.len(),
            ev == exact_view(exact@),
            k == key4_view(key),
            rv == (rec.0, rec.1@, rec.2@),
            ev == exact_view(old(exact)@),
            forall|j: int| 0 <= j < i ==> ev[j].0 != k,
        decreases exact.len() - i,
    {
        let e = &exact[i].0;
        if same_text(&e.0, &key.0) && same_text(&e.1, &key.1) && same_text(&e.2, &key.2) && same_text(&e.3, &key.3) {
            assert(ev[i as int].0 == k);
            proof {
                lemma_key_pos_unique(ev, k, i as int);
            }
            let (kk, mut recs) = exact.remove(i);
            let ghost before = recs@;
            assert(recs_view(before) == ev[i as int].1);
            recs.push(rec);
            assert(recs@ =~= before.push(rec));
            assert(recs_view(recs@) =~= recs_view(before).push(rv));
            exact.insert(i, (kk, recs));
            assert(exact_view(exact@) =~= ev.update(i as int, (k, ev[i as int].1.push(rv))));
            return;
        }
        i += 1;
    }
    let mut recs: Vec<(i32, String, String)> = Vec::new();
    recs.push(rec);
    assert(recs_view(recs@) =~= seq![rv]);
    exact.push((key, recs));
    assert(exact_view(exact@) =~= ev.push((k, seq![rv])));
}

/// Scans the member rows of one column for the member `key`.
fn scan_column_for_user(
    exact: &mut Vec<((String, String, String, String), Vec<(i32, String, String)>)>,
    hits: &mut Vec<DuplicateHit>,
    rows: &Vec<Vec<String>>,
    key: &String,
    sheet: &String,
    col: &String,
    m: &SheetMeta,
    base: &String,
)
    requires
        col_fits(col@),
        rows@.len() + 9 <= i32::MAX,
        meta_of(sheet@) == Some(m@),
    ensures
        dup_state(final(exact)@, final(hits)@) == dup_rows(
            dup_state(old(exact)@, old(hits)@),
            rows_view(rows@),
            key@,
            sheet@,
            col@,
            m@,
            base@,
            rows@.len() as int,
        ),
{
    proof {
        lemma_meta_facts(sheet@);
    }
    let ghost st0 = dup_state(exact@, hits@);
    let ghost rv = rows_view(rows@);
    let col_idx = col_to_index(col.as_str());
    let start = m.data_start_row - 1;
    if start >= rows.len() {
        return;
    }
    let mut r = start;
    while r < rows.len()
        invariant
            start <= r <= rows.len(),
            start == m.data_start_row - 1,
            rows@.len() + 9 <= i32::MAX,
            rv == rows_view(rows@),
            col_idx == col_index(col@),
            meta_of(sheet@) == Some(m@),
            m.data_start_row >= 1,
            0 <= m.row_offset <= 8,
            offset_of(sheet@) == m.row_offset,
            dup_state(exact@, hits@) == dup_rows(st0, rv, key@, sheet@, col@, m@, base@, r as int),
        decreases rows.len() - r,
    {
        let raw = cell_text(&rows[r], col_idx);
        assert(raw@ == cell_at(rv, r as int, col_idx as int));
        let cleaned = clean_chars(raw);
        if cleaned.len() > 0 {
            let cell = string_of(&cleaned);
            if let Some(u) = normalize_username(Some(cell.as_str())) {
                let row = csv_index_to_sheet_row(sheet.as_str(), r);
                let issues = cell_format_issues(cell.as_str());
                assert(strings_view(issues@).len() == issues@.len());
                if same_text(&u, key) {
                    add_exact(
                        exact,
                        (copy_string(sheet), copy_string(col), crate::text::owned(m.category), copy_string(base)),
                        (row, copy_string(&cell), copy_string(&u)),
                    );
                    if issues.len() > 0 {
                        push_hit(hits, new_hit(m.category, base, sheet, col, row, &cell, &u, "malformed_cell"));
                    }
                } else if usernames_similar(u.as_str(), key.as_str()) {
                    push_hit(hits, new_hit(m.category, base, sheet, col, row, &cell, &u, "similar_username"));
                    if issues.len() > 0 {
                        push_hit(hits, new_hit(m.category, base, sheet, col, row, &cell, &u, "malformed_cell"));
                    }
                }
            }
        }
        r += 1;
    }
}

fn identical_group(es: &Vec<(i32, String, String)>) -> (r: bool)
    requires
        es@.len() >= 1,
    ensures
        r == identical_cells(recs_view(es@)),
{
    let ghost ev = recs_view(es@);
    let first = lower_text(&es[0].1);
    assert(first@ == lower_seq(ev[0].1));
    let mut i: usize = 1;
    while i < es.len()
        invariant
            1 <= i <= es.len(),
            ev == recs_view(es@),
            first@ == lower_seq(ev[0].1),
            forall|k: int| 0 <= k < i ==> lower_seq(#[trigger] ev[k].1) == first@,
        decreases es.len() - i,
    {
        let l = lower_text(&es[i].1);
        assert(l@ == lower_seq(ev[i as int].1));
        if !chars_eq(&l, &first) {
            assert(!identical_cells(ev)) by {
                assert(lower_seq(ev[i as int].1) != lower_seq(ev[0].1));
            }
            return false;
        }
        i += 1;
    }
    assert forall|a: int, b: int| 0 <= a < ev.len() && 0 <= b < ev.len() implies lower_seq(
        #[trigger] ev[a].1,
    ) == lower_seq(#[trigger] ev[b].1) by {}
    true
}

/// Flags every cell of a group of the member's own duplicates.
fn push_group_hits(
    hits: &mut Vec<DuplicateHit>,
    es: &Vec<(i32, String, String)>,
    category: &str,
    base: &String,
    sheet: &String,
    col: &String,
    reason: &str,
)
    ensures
        hits_view(final(hits)@) == entry_hits(
            hits_view(old(hits)@),
            recs_view(es@),
            category@,
            base@,
            sheet@,
            col@,
            reason@,
            es@.len() as int,
        ),
{
    let ghost h0 = hits_view(hits@);
    let ghost ev = recs_view(es@);
    let mut i: usize = 0;
    while i < es.len()
        invariant
            i <= es.len(),
            ev == recs_view(es@),
            hits_view(hits@) == entry_hits(h0, ev, category@, base@, sheet@, col@, reason@, i as int),
        decreases es.len() - i,
    {
        let e = &es[i];
        assert(ev[i as int] == (e.0, e.1@, e.2@));
        push_hit(hits, new_hit(category, base, sheet, col, e.0, &e.1, &e.2, reason));
        i += 1;
    }
}

/// Duplicates, look-alike usernames and malformed cells around one member, in
/// the configured award `columns`, ordered by reason, award name and row.
pub fn find_duplicates_for_user(data: &AwardsData, columns: &[AwardColumn], username: &str) -> (r: Vec<DuplicateHit>)
    requires
        columns_fit(columns@),
        rows_fit(data.sheet_rows@),
    ensures
        hits_view(r@) == duplicates_for(data.sheet_rows@, cols_view(columns@), username@),
{
    let key = match normalize_username(Some(username)) {
        Some(k) => k,
        None => {
            let t = crate::text::trim_str(username);
            let s = crate::text::strip_leading_chars(&t, '@');
            string_of(&lower_chars(&s))
        },
    };
    if key.as_str().is_empty() {
        let r: Vec<DuplicateHit> = Vec::new();
        assert(hits_view(r@) =~= Seq::<DuplicateHitView>::empty());
        return r;
    }
    let ghost tabs = data.sheet_rows@;
    let ghost cv = cols_view(columns@);
    let mut exact: Vec<((String, String, String, String), Vec<(i32, String, String)>)> = Vec::new();
    let mut hits: Vec<DuplicateHit> = Vec::new();
    assert(exact_view(exact@) =~= Seq::<((Seq<char>, Seq<char>, Seq<char>, Seq<char>), Seq<(i32, Seq<char>, Seq<char>)>)>::empty());
    assert(hits_view(hits@) =~= Seq::<DuplicateHitView>::empty());
    assert(dup_state(exact@, hits@) == dup_columns(tabs, key@, cv.subrange(0, 0)));
    let mut i: usize = 0;
    while i < columns.len()
        invariant
            i <= columns.len(),
            tabs == data.sheet_rows@,
            cv == cols_view(columns@),
            columns_fit(columns@),
            rows_fit(tabs),
            dup_state(exact@, hits@) == dup_columns(tabs, key@, cv.subrange(0, i as int)),
        decreases columns.len() - i,
    {
        let entry = &columns[i];
        assert(cv.subrange(0, i + 1).drop_last() =~= cv.subrange(0, i as int));
        assert(cv.subrange(0, i + 1).last() == (entry.sheet@, entry.col@));
        assert(col_fits(columns@[i as int].col@));
        if let Some(m) = sheet_meta(entry.sheet.as_str()) {
            if let Some(rows) = data.sheet_rows.get(entry.sheet.as_str()) {
                proof {
                    lemma_meta_facts(entry.sheet@);
                    lemma_key_pos(tabs, entry.sheet@);
                }
                let col_idx = col_to_index(entry.col.as_str());
                let base = column_base_of(rows, &m, col_idx);
                if !base.as_str().is_empty() {
                    scan_column_for_user(&mut exact, &mut hits, rows, &key, &entry.sheet, &entry.col, &m, &base);
                }
            }
        }
        i += 1;
    }
    assert(cv.subrange(0, columns.len() as int) =~= cv);
    let ghost st = dup_state(exact@, hits@);
    let ghost ev = exact_view(exact@);
    let mut j: usize = 0;
    while j < exact.len()
        invariant
            j <= exact.len(),
            ev == exact_view(exact@),
            st.exact == ev,
            hits_view(hits@) == all_group_hits(st.hits, ev, j as int),
        decreases exact.len() - j,
    {
        let es = &exact[j].1;
        let k = &exact[j].0;
        assert(ev[j as int] == (key4_view(*k), recs_view(es@)));
        if es.len() >= 2 {
            let reason = if identical_group(es) { "duplicate_identical" } else { "duplicate_conflict" };
            push_group_hits(&mut hits, es, k.2.as_str(), &k.3, &k.0, &k.1, reason);
        }
        j += 1;
    }
    let sorted = stable_sort::<DuplicateHit, HitOrder>(hits);
    assert(views(sorted@) == hits_view(sorted@));
    sorted
}

// ---------------------------------------------------------------------------
// The whole-database report
// ---------------------------------------------------------------------------

/// A member holding the same award more than once in one column. `kind` is
/// `identical` when every copy reads the same ignoring case, else `conflict`.
#[derive(Debug, Clone)]
pub struct AuditDuplicateGroup {
    pub user: String,
    pub sheet: String,
    pub col: String,
    pub base_name: String,
    pub kind: String,
    pub rows: Vec<(i32, String)>,
}

/// Two usernames in one award column that look like typos of each other.
#[derive(Debug, Clone)]
pub struct AuditSimilarPair {
    pub a: String,
    pub b: String,
    pub sheet: String,
    pub col: String,
    pub base_name: String,
}

/// A cell with entry problems (see `cell_format_issues`).
#[derive(Debug, Clone)]
pub struct AuditMalformed {
    pub sheet: String,
    pub col: String,
    pub base_name: String,
    pub row: i32,
    pub cell: String,
    pub issues: Vec<String>,
}

/// A filled cell with no username in it; `cell` is the raw text, quoted.
#[derive(Debug, Clone)]
pub struct AuditUnparsed {
    pub sheet: String,
    pub col: String,
    pub base_name: String,
    pub row: i32,
    pub cell: String,
}

/// The whole-database audit.
#[derive(Debug, Clone)]
pub struct AuditReport {
    pub cells: usize,
    pub columns: usize,
    pub duplicate_groups: Vec<AuditDuplicateGroup>,
    pub similar_pairs: Vec<AuditSimilarPair>,
    pub malformed: Vec<AuditMalformed>,
    pub unparsed: Vec<AuditUnparsed>,
}

pub struct GroupView {
    pub user: Seq<char>,
    pub sheet: Seq<char>,
    pub col: Seq<char>,
    pub base_name: Seq<char>,
    pub kind: Seq<char>,
    pub rows: Seq<(i32, Seq<char>)>,
}

pub struct PairView {
    pub a: Seq<char>,
    pub b: Seq<char>,
    pub sheet: Seq<char>,
    pub col: Seq<char>,
    pub base_name: Seq<char>,
}

pub struct MalformedView {
    pub sheet: Seq<char>,
    pub col: Seq<char>,
    pub base_name: Seq<char>,
    pub row: i32,
    pub cell: Seq<char>,
    pub issues: Seq<Seq<char>>,
}

pub struct UnparsedView {
    pub sheet: Seq<char>,
    pub col: Seq<char>,
    pub base_name: Seq<char>,
    pub row: i32,
    pub cell: Seq<char>,
}

pub struct ReportView {
    pub cells: usize,
    pub columns: usize,
    pub groups: Seq<GroupView>,
    pub pairs: Seq<PairView>,
    pub malformed: Seq<MalformedView>,
    pub unparsed: Seq<UnparsedView>,
}

pub open spec fn cell_rows_view(v: Seq<(i32, String)>) -> Seq<(i32, Seq<char>)> {
    v.map_values(|e: (i32, String)| (e.0, e.1@))
}

impl View for AuditDuplicateGroup {
    type V = GroupView;

    open spec fn view(&self) -> GroupView {
        GroupView {
            user: self.user@,
            sheet: self.sheet@,
            col: self.col@,
            base_name: self.base_name@,
            kind: self.kind@,
            rows: cell_rows_view(self.rows@),
        }
    }
}

impl View for AuditSimilarPair {
    type V = PairView;

    open spec fn view(&self) -> PairView {
        PairView { a: self.a@, b: self.b@, sheet: self.sheet@, col: self.col@, base_name: self.base_name@ }
    }
}

impl View for AuditMalformed {
    type V = MalformedView;

    open spec fn view(&self) -> MalformedView {
        MalformedView {
            sheet: self.sheet@,
            col: self.col@,
            base_name: self.base_name@,
            row: self.row,
            cell: self.cell@,
            issues: strings_view(self.issues@),
        }
    }
}

impl View for AuditUnparsed {
    type V = UnparsedView;

    open spec fn view(&self) -> UnparsedView {
        UnparsedView { sheet: self.sheet@, col: self.col@, base_name: self.base_name@, row: self.row, cell: self.cell@ }
    }
}

impl View for AuditReport {
    type V = ReportView;

    open spec fn view(&self) -> ReportView {
        ReportView {
            cells: self.cells,
            columns: self.columns,
            groups: views(self.duplicate_groups@),
            pairs: views(self.similar_pairs@),
            malformed: views(self.malformed@),
            unparsed: views(self.unparsed@),
        }
    }
}

/// Member cells by `(sheet, col, award name)`, with the malformed and unparsed
/// cells met so far.
pub struct AuditScan {
    pub by_col: Seq<((Seq<char>, Seq<char>, Seq<char>), Seq<(i32, Seq<char>, Seq<char>)>)>,
    pub malformed: Seq<MalformedView>,
    pub unparsed: Seq<UnparsedView>,
}

/// One raw cell of a column.
pub open spec fn audit_cell(
    st: AuditScan,
    sheet: Seq<char>,
    col: Seq<char>,
    base: Seq<char>,
    raw: Seq<char>,
    row: i32,
) -> AuditScan {
    let cell = clean(raw);
    if raw.len() == 0 || cell.len() == 0 {
        st
    } else {
        match username_key(cell) {
            None => AuditScan {
                unparsed: st.unparsed.push(
                    UnparsedView { sheet, col, base_name: base, row, cell: debug_text_of(raw) },
                ),
                ..st
            },
            Some(u) => {
                let issues = format_issues(cell);
                AuditScan {
                    by_col: add_to(st.by_col, (sheet, col, base), (row, cell, u)),
                    malformed: if issues.len() > 0 {
                        st.malformed.push(
                            MalformedView { sheet, col, base_name: base, row, cell, issues },
                        )
                    } else {
                        st.malformed
                    },
                    unparsed: st.unparsed,
                }
            },
        }
    }
}

/// The scan after the member rows of a column before CSV row `r`.
pub open spec fn audit_rows(
    st0: AuditScan,
    rows: Seq<Seq<Seq<char>>>,
    sheet: Seq<char>,
    col: Seq<char>,
    m: SheetMetaView,
    base: Seq<char>,
    r: int,
) -> AuditScan
    decreases r,
{
    if r <= 0 || r <= m.data_start_row - 1 {
        st0
    } else {
        audit_cell(
            audit_rows(st0, rows, sheet, col, m, base, r - 1),
            sheet,
            col,
            base,
            cell_at(rows, r - 1, col_index(col)),
            (r + m.row_offset) as i32,
        )
    }
}

pub open spec fn audit_column(
    st: AuditScan,
    tabs: Seq<(Seq<char>, Seq<Seq<Seq<char>>>)>,
    sheet: Seq<char>,
    col: Seq<char>,
) -> AuditScan {
    match meta_of(sheet) {
        None => st,
        Some(m) => match rows_of(tabs, sheet) {
            None => st,
            Some(rows) => {
                let base = column_base(rows, m, col);
                if base.len() == 0 {
                    st
                } else {
                    audit_rows(st, rows, sheet, col, m, base, rows.len() as int)
                }
            },
        },
    }
}

pub open spec fn audit_columns(
    tabs: Seq<(Seq<char>, Seq<Seq<Seq<char>>>)>,
    cols: Seq<(Seq<char>, Seq<char>)>,
) -> AuditScan
    decreases cols.len(),
{
    if cols.len() == 0 {
        AuditScan { by_col: seq![], malformed: seq![], unparsed: seq![] }
    } else {
        audit_column(audit_columns(tabs, cols.drop_last()), tabs, cols.last().0, cols.last().1)
    }
}

/// Number of member cells in the first `n` columns.
pub open spec fn recs_total(
    by_col: Seq<((Seq<char>, Seq<char>, Seq<char>), Seq<(i32, Seq<char>, Seq<char>)>)>,
    n: int,
) -> nat
    decreases n,
{
    if n <= 0 {
        0
    } else {
        recs_total(by_col, n - 1) + by_col[n - 1].1.len()
    }
}

/// The rows of one column grouped by member, in first-seen order.
pub open spec fn user_groups(recs: Seq<(i32, Seq<char>, Seq<char>)>) -> Seq<(Seq<char>, Seq<(i32, Seq<char>)>)>
    decreases recs.len(),
{
    if recs.len() == 0 {
        seq![]
    } else {
        add_to(user_groups(recs.drop_last()), recs.last().2, (recs.last().0, recs.last().1))
    }
}

pub open spec fn identical_rows(rows: Seq<(i32, Seq<char>)>) -> bool {
    forall|i: int, j: int|
        0 <= i < rows.len() && 0 <= j < rows.len() ==> lower_seq(#[trigger] rows[i].1) == lower_seq(
            #[trigger] rows[j].1,
        )
}

/// Duplicate groups of one column from its first `n` member groups.
pub open spec fn col_groups(
    gs: Seq<GroupView>,
    k: (Seq<char>, Seq<char>, Seq<char>),
    ug: Seq<(Seq<char>, Seq<(i32, Seq<char>)>)>,
    n: int,
) -> Seq<GroupView>
    decreases n,
{
    if n <= 0 {
        gs
    } else {
        let prev = col_groups(gs, k, ug, n - 1);
        let (user, rows) = ug[n - 1];
        if rows.len() < 2 {
            prev
        } else {
            prev.push(
                GroupView {
                    user,
                    sheet: k.0,
                    col: k.1,
                    base_name: k.2,
                    kind: if identical_rows(rows) {
                        "identical"@
                    } else {
                        "conflict"@
                    },
                    rows,
                },
            )
        }
    }
}

pub open spec fn all_groups(
    by_col: Seq<((Seq<char>, Seq<char>, Seq<char>), Seq<(i32, Seq<char>, Seq<char>)>)>,
    n: int,
) -> Seq<GroupView>
    decreases n,
{
    if n <= 0 {
        seq![]
    } else {
        let ug = user_groups(by_col[n - 1].1);
        col_groups(all_groups(by_col, n - 1), by_col[n - 1].0, ug, ug.len() as int)
    }
}

/// Consecutive repeats removed (`Vec::dedup`).
pub open spec fn dedup(s: Seq<Seq<char>>) -> Seq<Seq<char>>
    decreases s.len(),
{
    if s.len() == 0 {
        s
    } else {
        let prev = dedup(s.drop_last());
        if prev.len() > 0 && prev.last() == s.last() {
            prev
        } else {
            prev.push(s.last())
        }
    }
}

/// Text in `String` order (code points).
pub struct TextOrder;

impl SortOrder<String> for TextOrder {
    open spec fn le(a: Seq<char>, b: Seq<char>) -> bool {
        seq_le(a, b)
    }

    fn le_exec(a: &String, b: &String) -> (r: bool) {
        seq_le_exec(&chars_of(a.as_str()), &chars_of(b.as_str()))
    }
}

/// The distinct members of a column, sorted.
pub open spec fn column_users(recs: Seq<(i32, Seq<char>, Seq<char>)>) -> Seq<Seq<char>> {
    dedup(
        sorted_stable(
            recs.map_values(|e: (i32, Seq<char>, Seq<char>)| e.2),
            order_of::<String, TextOrder>(),
        ),
    )
}

pub open spec fn same_pair(x: PairView, y: PairView) -> bool {
    x.sheet == y.sheet && x.col == y.col && x.a == y.a && x.b == y.b
}

/// `p` appended unless the same pair of the same column is listed.
pub open spec fn add_pair(ps: Seq<PairView>, p: PairView) -> Seq<PairView> {
    if exists|i: int| 0 <= i < ps.len() && same_pair(#[trigger] ps[i], p) {
        ps
    } else {
        ps.push(p)
    }
}

/// Pairs of `us[i]` with `us[i + 1 .. j]`.
pub open spec fn pairs_row(
    ps: Seq<PairView>,
    k: (Seq<char>, Seq<char>, Seq<char>),
    us: Seq<Seq<char>>,
    i: int,
    j: int,
) -> Seq<PairView>
    decreases j - i,
{
    if j <= i + 1 {
        ps
    } else {
        let prev = pairs_row(ps, k, us, i, j - 1);
        if similar_names(us[i], us[j - 1]) {
            add_pair(prev, PairView { a: us[i], b: us[j - 1], sheet: k.0, col: k.1, base_name: k.2 })
        } else {
            prev
        }
    }
}

/// Pairs whose first member is among `us[0 .. i]`.
pub open spec fn pairs_upto(
    ps: Seq<PairView>,
    k: (Seq<char>, Seq<char>, Seq<char>),
    us: Seq<Seq<char>>,
    i: int,
) -> Seq<PairView>
    decreases i,
{
    if i <= 0 {
        ps
    } else {
        pairs_row(pairs_upto(ps, k, us, i - 1), k, us, i - 1, us.len() as int)
    }
}

pub open spec fn all_pairs(
    by_col: Seq<((Seq<char>, Seq<char>, Seq<char>), Seq<(i32, Seq<char>, Seq<char>)>)>,
    n: int,
) -> Seq<PairView>
    decreases n,
{
    if n <= 0 {
        seq![]
    } else {
        let us = column_users(by_col[n - 1].1);
        pairs_upto(all_pairs(by_col, n - 1), by_col[n - 1].0, us, us.len() as int)
    }
}

/// Larger groups first, then member, then award name ignoring case.
pub struct GroupOrder;

impl SortOrder<AuditDuplicateGroup> for GroupOrder {
    open spec fn le(a: GroupView, b: GroupView) -> bool {
        a.rows.len() > b.rows.len() || (a.rows.len() == b.rows.len() && (seq_lt(a.user, b.user) || (
        a.user == b.user && seq_le(lower_seq(a.base_name), lower_seq(b.base_name)))))
    }

    fn le_exec(a: &AuditDuplicateGroup, b: &AuditDuplicateGroup) -> (r: bool) {
        if a.rows.len() != b.rows.len() {
            return a.rows.len() > b.rows.len();
        }
        if lt_text(&a.user, &b.user) {
            return true;
        }
        same_text(&a.user, &b.user) && seq_le_exec(&lower_text(&a.base_name), &lower_text(&b.base_name))
    }
}

/// Award name ignoring case, then the two usernames.
pub struct PairOrder;

impl SortOrder<AuditSimilarPair> for PairOrder {
    open spec fn le(x: PairView, y: PairView) -> bool {
        seq_lt(lower_seq(x.base_name), lower_seq(y.base_name)) || (lower_seq(x.base_name) == lower_seq(
            y.base_name,
        ) && (seq_lt(x.a, y.a) || (x.a == y.a && seq_le(x.b, y.b))))
    }

    fn le_exec(x: &AuditSimilarPair, y: &AuditSimilarPair) -> (r: bool) {
        let xl = lower_text(&x.base_name);
        let yl = lower_text(&y.base_name);
        if seq_le_exec(&xl, &yl) && !chars_eq(&xl, &yl) {
            return true;
        }
        if !chars_eq(&xl, &yl) {
            return false;
        }
        if lt_text(&x.a, &y.a) {
            return true;
        }
        same_text(&x.a, &y.a) && seq_le_exec(&chars_of(x.b.as_str()), &chars_of(y.b.as_str()))
    }
}

/// The audit of the configured award columns.
pub open spec fn sheet_audit(
    tabs: Seq<(Seq<char>, Seq<Seq<Seq<char>>>)>,
    cols: Seq<(Seq<char>, Seq<char>)>,
) -> ReportView {
    let st = audit_columns(tabs, cols);
    ReportView {
        cells: recs_total(st.by_col, st.by_col.len() as int) as usize,
        columns: st.by_col.len() as usize,
        groups: sorted_stable(all_groups(st.by_col, st.by_col.len() as int), order_of::<AuditDuplicateGroup, GroupOrder>()),
        pairs: sorted_stable(all_pairs(st.by_col, st.by_col.len() as int), order_of::<AuditSimilarPair, PairOrder>()),
        malformed: st.malformed,
        unparsed: st.unparsed,
    }
}

pub open spec fn by_col_view(
    v: Seq<((String, String, String), Vec<(i32, String, String)>)>,
) -> Seq<((Seq<char>, Seq<char>, Seq<char>), Seq<(i32, Seq<char>, Seq<char>)>)> {
    v.map_values(
        |e: ((String, String, String), Vec<(i32, String, String)>)| ((e.0.0@, e.0.1@, e.0.2@), recs_view(e.1@)),
    )
}

pub open spec fn scan_state(
    by_col: Seq<((String, String, String), Vec<(i32, String, String)>)>,
    malformed: Seq<AuditMalformed>,
    unparsed: Seq<AuditUnparsed>,
) -> AuditScan {
    AuditScan { by_col: by_col_view(by_col), malformed: views(malformed), unparsed: views(unparsed) }
}

/// Appends `rec` to the group of `key`.
fn add_rec(
    by_col: &mut Vec<((String, String, String), Vec<(i32, String, String)>)>,
    key: (String, String, String),
    rec: (i32, String, String),
)
    ensures
        by_col_view(final(by_col)@) == add_to(
            by_col_view(old(by_col)@),
            (key.0@, key.1@, key.2@),
            (rec.0, rec.1@, rec.2@),
        ),
{
    let ghost ev = by_col_view(by_col@);
    let ghost k = (key.0@, key.1@, key.2@);
    let ghost rv = (rec.0, rec.1@, rec.2@);
    proof {
        lemma_key_pos(ev, k);
    }
    let mut i: usize = 0;
    while i < by_col.len()
        invariant
            i <= by_col.len(),
            ev == by_col_view(by_col@),
            ev == by_col_view(old(by_col)@),
            k == (key.0@, key.1@, key.2@),
            rv == (rec.0, rec.1@, rec.2@),
            forall|j: int| 0 <= j < i ==> ev[j].0 != k,
        decreases by_col.len() - i,
    {
        let e = &by_col[i].0;
        if same_text(&e.0, &key.0) && same_text(&e.1, &key.1) && same_text(&e.2, &key.2) {
            assert(ev[i as int].0 == k);
            proof {
                lemma_key_pos_unique(ev, k, i as int);
            }
            let (kk, mut recs) = by_col.remove(i);
            let ghost before = recs@;
            assert(recs_view(before) == ev[i as int].1);
            recs.push(rec);
            assert(recs@ =~= before.push(rec));
            assert(recs_view(recs@) =~= recs_view(before).push(rv));
            by_col.insert(i, (kk, recs));
            assert(by_col_view(by_col@) =~= ev.update(i as int, (k, ev[i as int].1.push(rv))));
            return;
        }
        i += 1;
    }
    let mut recs: Vec<(i32, String, String)> = Vec::new();
    recs.push(rec);
    assert(recs_view(recs@) =~= seq![rv]);
    by_col.push((key, recs));
    assert(by_col_view(by_col@) =~= ev.push((k, seq![rv])));
}

/// Scans the member rows of one column for the report.
fn audit_scan_column(
    by_col: &mut Vec<((String, String, String), Vec<(i32, String, String)>)>,
    malformed: &mut Vec<AuditMalformed>,
    unparsed: &mut Vec<AuditUnparsed>,
    rows: &Vec<Vec<String>>,
    sheet: &String,
    col: &String,
    m: &SheetMeta,
    base: &String,
)
    requires
        col_fits(col@),
        rows@.len() + 9 <= i32::MAX,
        meta_of(sheet@) == Some(m@),
    ensures
        scan_state(final(by_col)@, final(malformed)@, final(unparsed)@) == audit_rows(
            scan_state(old(by_col)@, old(malformed)@, old(unparsed)@),
            rows_view(rows@),
            sheet@,
            col@,
            m@,
            base@,
            rows@.len() as int,
        ),
{
    proof {
        lemma_meta_facts(sheet@);
    }
    let ghost st0 = scan_state(by_col@, malformed@, unparsed@);
    let ghost rv = rows_view(rows@);
    let col_idx = col_to_index(col.as_str());
    let start = m.data_start_row - 1;
    if start >= rows.len() {
        return;
    }
    let mut r = start;
    while r < rows.len()
        invariant
            start <= r <= rows.len(),
            start == m.data_start_row - 1,
            rows@.len() + 9 <= i32::MAX,
            rv == rows_view(rows@),
            col_idx == col_index(col@),
            meta_of(sheet@) == Some(m@),
            m.data_start_row >= 1,
            0 <= m.row_offset <= 8,
            offset_of(sheet@) == m.row_offset,
            scan_state(by_col@, malformed@, unparsed@) == audit_rows(st0, rv, sheet@, col@, m@, base@, r as int),
        decreases rows.len() - r,
    {
        let raw = cell_text(&rows[r], col_idx);
        assert(raw@ == cell_at(rv, r as int, col_idx as int));
        let rawv = chars_of(raw);
        let cleaned = clean_chars(raw);
        if rawv.len() > 0 && cleaned.len() > 0 {
            let cell = string_of(&cleaned);
            let row = csv_index_to_sheet_row(sheet.as_str(), r);
            match normalize_username(Some(cell.as_str())) {
                None => {
                    let ghost before = unparsed@;
                    unparsed.push(AuditUnparsed {
                        sheet: copy_string(sheet),
                        col: copy_string(col),
                        base_name: copy_string(base),
                        row,
                        cell: debug_text(raw),
                    });
                    assert(views(unparsed@) =~= views(before).push(unparsed@.last()@));
                },
                Some(u) => {
                    add_rec(by_col, (copy_string(sheet), copy_string(col), copy_string(base)), (row, copy_string(&cell), u));
                    let issues = cell_format_issues(cell.as_str());
                    if issues.len() > 0 {
                        let ghost before = malformed@;
                        malformed.push(AuditMalformed {
                            sheet: copy_string(sheet),
                            col: copy_string(col),
                            base_name: copy_string(base),
                            row,
                            cell,
                            issues,
                        });
                        assert(views(malformed@) =~= views(before).push(malformed@.last()@));
                    }
                },
            }
        }
        r += 1;
    }
}

pub open spec fn ug_view(v: Seq<(String, Vec<(i32, String)>)>) -> Seq<(Seq<char>, Seq<(i32, Seq<char>)>)> {
    v.map_values(|e: (String, Vec<(i32, String)>)| (e.0@, cell_rows_view(e.1@)))
}

/// The rows of one column grouped by member.
fn user_groups_of(recs: &Vec<(i32, String, String)>) -> (r: Vec<(String, Vec<(i32, String)>)>)
    ensures
        ug_view(r@) == user_groups(recs_view(recs@)),
{
    let ghost rv = recs_view(recs@);
    let mut out: Vec<(String, Vec<(i32, String)>)> = Vec::new();
    assert(ug_view(out@) =~= user_groups(rv.subrange(0, 0)));
    let mut i: usize = 0;
    while i < recs.len()
        invariant
            i <= recs.len(),
            rv == recs_view(recs@),
            ug_view(out@) == user_groups(rv.subrange(0, i as int)),
        decreases recs.len() - i,
    {
        let e = &recs[i];
        assert(rv.subrange(0, i + 1).drop_last() =~= rv.subrange(0, i as int));
        assert(rv.subrange(0, i + 1).last() == (e.0, e.1@, e.2@));
        let ghost gv = ug_view(out@);
        let ghost item = (e.0, e.1@);
        proof {
            lemma_key_pos(gv, e.2@);
        }
        let mut j: usize = 0;
        let mut found = false;
        while j < out.len() && !found
            invariant
                j <= out.len(),
                gv == ug_view(out@),
                found ==> j < out.len() && gv[j as int].0 == e.2@,
                forall|q: int| 0 <= q < j ==> gv[q].0 != e.2@,
            decreases out.len() - j + (if found { 0int } else { 1int }),
        {
            if same_text(&out[j].0, &e.2) {
                found = true;
            } else {
                j += 1;
            }
        }
        if found {
            assert(gv[j as int].0 == e.2@);
            proof {
                lemma_key_pos_unique(gv, e.2@, j as int);
            }
            let (u, mut rows) = out.remove(j);
            let ghost before = rows@;
            assert(cell_rows_view(before) == gv[j as int].1);
            rows.push((e.0, copy_string(&e.1)));
            assert(cell_rows_view(rows@) =~= cell_rows_view(before).push(item));
            out.insert(j, (u, rows));
            assert(ug_view(out@) =~= gv.update(j as int, (e.2@, gv[j as int].1.push(item))));
        } else {
            let mut rows: Vec<(i32, String)> = Vec::new();
            rows.push((e.0, copy_string(&e.1)));
            assert(cell_rows_view(rows@) =~= seq![item]);
            out.push((copy_string(&e.2), rows));
            assert(ug_view(out@) =~= gv.push((e.2@, seq![item])));
        }
        i += 1;
    }
    assert(rv.subrange(0, recs.len() as int) =~= rv);
    out
}

fn identical_rows_of(rows: &Vec<(i32, String)>) -> (r: bool)
    requires
        rows@.len() >= 1,
    ensures
        r == identical_rows(cell_rows_view(rows@)),
{
    let ghost ev = cell_rows_view(rows@);
    let first = lower_text(&rows[0].1);
    let mut i: usize = 1;
    while i < rows.len()
        invariant
            1 <= i <= rows.len(),
            ev == cell_rows_view(rows@),
            first@ == lower_seq(ev[0].1),
            forall|k: int| 0 <= k < i ==> lower_seq(#[trigger] ev[k].1) == first@,
        decreases rows.len() - i,
    {
        let l = lower_text(&rows[i].1);
        assert(l@ == lower_seq(ev[i as int].1));
        if !chars_eq(&l, &first) {
            assert(!identical_rows(ev)) by {
                assert(lower_seq(ev[i as int].1) != lower_seq(ev[0].1));
            }
            return false;
        }
        i += 1;
    }
    assert forall|a: int, b: int| 0 <= a < ev.len() && 0 <= b < ev.len() implies lower_seq(
        #[trigger] ev[a].1,
    ) == lower_seq(#[trigger] ev[b].1) by {}
    true
}

fn copy_rows(v: &Vec<(i32, String)>) -> (r: Vec<(i32, String)>)
    ensures
        cell_rows_view(r@) == cell_rows_view(v@),
{
    let mut r: Vec<(i32, String)> = Vec::new();
    let mut i: usize = 0;
    while i < v.len()
        invariant
            i <= v.len(),
            cell_rows_view(r@) == cell_rows_view(v@).subrange(0, i as int),
        decreases v.len() - i,
    {
        let ghost before = r@;
        r.push((v[i].0, copy_string(&v[i].1)));
        assert(cell_rows_view(r@) =~= cell_rows_view(before).push((v@[i as int].0, v@[i as int].1@)));
        i += 1;
        assert(cell_rows_view(r@) =~= cell_rows_view(v@).subrange(0, i as int));
    }
    assert(cell_rows_view(v@).subrange(0, v.len() as int) =~= cell_rows_view(v@));
    r
}

/// Appends the duplicate groups of one column.
fn push_col_groups(groups: &mut Vec<AuditDuplicateGroup>, key: &(String, String, String), recs: &Vec<(i32, String, String)>)
    ensures
        views(final(groups)@) == col_groups(
            views(old(groups)@),
            (key.0@, key.1@, key.2@),
            user_groups(recs_view(recs@)),
            user_groups(recs_view(recs@)).len() as int,
        ),
{
    let ug = user_groups_of(recs);
    let ghost g0 = views(groups@);
    let ghost uv = ug_view(ug@);
    let ghost k = (key.0@, key.1@, key.2@);
    let mut i: usize = 0;
    while i < ug.len()
        invariant
            i <= ug.len(),
            uv == ug_view(ug@),
            uv == user_groups(recs_view(recs@)),
            k == (key.0@, key.1@, key.2@),
            views(groups@) == col_groups(g0, k, uv, i as int),
        decreases ug.len() - i,
    {
        let (user, rows) = (&ug[i].0, &ug[i].1);
        assert(uv[i as int] == (user@, cell_rows_view(rows@)));
        if rows.len() >= 2 {
            let kind = if identical_rows_of(rows) { "identical" } else { "conflict" };
            let g = AuditDuplicateGroup {
                user: copy_string(user),
                sheet: copy_string(&key.0),
                col: copy_string(&key.1),
                base_name: copy_string(&key.2),
                kind: crate::text::owned(kind),
                rows: copy_rows(rows),
            };
            let ghost before = groups@;
            let ghost gv = g@;
            groups.push(g);
            assert(views(groups@) =~= views(before).push(gv));
        }
        i += 1;
    }
}

/// The distinct members of a column, sorted.
fn column_users_of(recs: &Vec<(i32, String, String)>) -> (r: Vec<String>)
    ensures
        strings_view(r@) == column_users(recs_view(recs@)),
{
    let ghost names = recs_view(recs@).map_values(|e: (i32, Seq<char>, Seq<char>)| e.2);
    let mut all: Vec<String> = Vec::new();
    let mut i: usize = 0;
    while i < recs.len()
        invariant
            i <= recs.len(),
            names == recs_view(recs@).map_values(|e: (i32, Seq<char>, Seq<char>)| e.2),
            views(all@) == names.subrange(0, i as int),
        decreases recs.len() - i,
    {
        let ghost before = all@;
        all.push(copy_string(&recs[i].2));
        assert(views(all@) =~= views(before).push(recs@[i as int].2@));
        i += 1;
        assert(views(all@) =~= names.subrange(0, i as int));
    }
    assert(names.subrange(0, recs.len() as int) =~= names);
    let sorted = stable_sort::<String, TextOrder>(all);
    let ghost sv = views(sorted@);
    let mut out: Vec<String> = Vec::new();
    let mut j: usize = 0;
    assert(strings_view(out@) =~= dedup(sv.subrange(0, 0)));
    while j < sorted.len()
        invariant
            j <= sorted.len(),
            sv == views(sorted@),
            strings_view(out@) == dedup(sv.subrange(0, j as int)),
        decreases sorted.len() - j,
    {
        assert(sv.subrange(0, j + 1).drop_last() =~= sv.subrange(0, j as int));
        assert(sv.subrange(0, j + 1).last() == sorted@[j as int]@);
        let dup = out.len() > 0 && same_text(&out[out.len() - 1], &sorted[j]);
        if !dup {
            let ghost before = out@;
            out.push(copy_string(&sorted[j]));
            assert(strings_view(out@) =~= strings_view(before).push(sorted@[j as int]@));
        }
        j += 1;
    }
    assert(sv.subrange(0, sorted.len() as int) =~= sv);
    assert(strings_view(out@) == views(out@));
    out
}

/// Appends `p` unless the same pair of the same column is listed.
fn push_pair(pairs: &mut Vec<AuditSimilarPair>, p: AuditSimilarPair)
    ensures
        views(final(pairs)@) == add_pair(views(old(pairs)@), p@),
{
    let ghost pv = views(pairs@);
    let mut i: usize = 0;
    while i < pairs.len()
        invariant
            i <= pairs.len(),
            pv == views(pairs@),
            forall|k: int| 0 <= k < i ==> !same_pair(#[trigger] pv[k], p@),
        decreases pairs.len() - i,
    {
        let q = &pairs[i];
        assert(pv[i as int] == q@);
        if same_text(&q.sheet, &p.sheet) && same_text(&q.col, &p.col) && same_text(&q.a, &p.a) && same_text(&q.b, &p.b) {
            assert(same_pair(pv[i as int], p@));
            return;
        }
        i += 1;
    }
    let ghost x = p@;
    pairs.push(p);
    assert(views(pairs@) =~= pv.push(x));
}

/// Appends the look-alike pairs of one column.
fn push_col_pairs(pairs: &mut Vec<AuditSimilarPair>, key: &(String, String, String), recs: &Vec<(i32, String, String)>)
    ensures
        views(final(pairs)@) == pairs_upto(
            views(old(pairs)@),
            (key.0@, key.1@, key.2@),
            column_users(recs_view(recs@)),
            column_users(recs_view(recs@)).len() as int,
        ),
{
    let us = column_users_of(recs);
    let ghost uv = strings_view(us@);
    let ghost k = (key.0@, key.1@, key.2@);
    let ghost p0 = views(pairs@);
    let mut i: usize = 0;
    while i < us.len()
        invariant
            i <= us.len(),
            uv == strings_view(us@),
            uv == column_users(recs_view(recs@)),
            k == (key.0@, key.1@, key.2@),
            views(pairs@) == pairs_upto(p0, k, uv, i as int),
        decreases us.len() - i,
    {
        let ghost row0 = views(pairs@);
        let mut j: usize = i + 1;
        while j < us.len()
            invariant
                i < us.len(),
                i + 1 <= j <= us.len(),
                uv == strings_view(us@),
                k == (key.0@, key.1@, key.2@),
                views(pairs@) == pairs_row(row0, k, uv, i as int, j as int),
            decreases us.len() - j,
        {
            assert(uv[i as int] == us@[i as int]@ && uv[j as int] == us@[j as int]@);
            if usernames_similar(us[i].as_str(), us[j].as_str()) {
                push_pair(pairs, AuditSimilarPair {
                    a: copy_string(&us[i]),
                    b: copy_string(&us[j]),
                    sheet: copy_string(&key.0),
                    col: copy_string(&key.1),
                    base_name: copy_string(&key.2),
                });
            }
            j += 1;
        }
        i += 1;
    }
}

/// Audit every configured award column: duplicate members, look-alike
/// usernames, malformed and unparseable cells.
pub fn collect_sheet_audit(data: &AwardsData, columns: &[AwardColumn]) -> (r: AuditReport)
    requires
        columns_fit(columns@),
        rows_fit(data.sheet_rows@),
        recs_total(
            audit_columns(data.sheet_rows@, cols_view(columns@)).by_col,
            audit_columns(data.sheet_rows@, cols_view(columns@)).by_col.len() as int,
        ) <= usize::MAX,
    ensures
        r@ == sheet_audit(data.sheet_rows@, cols_view(columns@)),
{
    let ghost tabs = data.sheet_rows@;
    let ghost cv = cols_view(columns@);
    let mut by_col: Vec<((String, String, String), Vec<(i32, String, String)>)> = Vec::new();
    let mut malformed: Vec<AuditMalformed> = Vec::new();
    let mut unparsed: Vec<AuditUnparsed> = Vec::new();
    assert(by_col_view(by_col@) =~= Seq::<((Seq<char>, Seq<char>, Seq<char>), Seq<(i32, Seq<char>, Seq<char>)>)>::empty());
    assert(views(malformed@) =~= Seq::<MalformedView>::empty());
    assert(views(unparsed@) =~= Seq::<UnparsedView>::empty());
    assert(scan_state(by_col@, malformed@, unparsed@) == audit_columns(tabs, cv.subrange(0, 0)));
    let mut i: usize = 0;
    while i < columns.len()
        invariant
            i <= columns.len(),
            tabs == data.sheet_rows@,
            cv == cols_view(columns@),
            columns_fit(columns@),
            rows_fit(tabs),
            scan_state(by_col@, malformed@, unparsed@) == audit_columns(tabs, cv.subrange(0, i as int)),
        decreases columns.len() - i,
    {
        let entry = &columns[i];
        assert(cv.subrange(0, i + 1).drop_last() =~= cv.subrange(0, i as int));
        assert(cv.subrange(0, i + 1).last() == (entry.sheet@, entry.col@));
        assert(col_fits(columns@[i as int].col@));
        if let Some(m) = sheet_meta(entry.sheet.as_str()) {
            if let Some(rows) = data.sheet_rows.get(entry.sheet.as_str()) {
                proof {
                    lemma_meta_facts(entry.sheet@);
                    lemma_key_pos(tabs, entry.sheet@);
                }
                let col_idx = col_to_index(entry.col.as_str());
                let base = column_base_of(rows, &m, col_idx);
                if !base.as_str().is_empty() {
                    audit_scan_column(&mut by_col, &mut malformed, &mut unparsed, rows, &entry.sheet, &entry.col, &m, &base);
                }
            }
        }
        i += 1;
    }
    assert(cv.subrange(0, columns.len() as int) =~= cv);
    let ghost bv = by_col_view(by_col@);
    let mut groups: Vec<AuditDuplicateGroup> = Vec::new();
    let mut pairs: Vec<AuditSimilarPair> = Vec::new();
    let mut cells: usize = 0;
    assert(views(groups@) =~= all_groups(bv, 0));
    assert(views(pairs@) =~= all_pairs(bv, 0));
    let mut j: usize = 0;
    while j < by_col.len()
        invariant
            j <= by_col.len(),
            bv == by_col_view(by_col@),
            recs_total(bv, bv.len() as int) <= usize::MAX,
            views(groups@) == all_groups(bv, j as int),
            views(pairs@) == all_pairs(bv, j as int),
            cells == recs_total(bv, j as int),
        decreases by_col.len() - j,
    {
        let key = &by_col[j].0;
        let recs = &by_col[j].1;
        assert(bv[j as int] == ((key.0@, key.1@, key.2@), recs_view(recs@)));
        push_col_groups(&mut groups, key, recs);
        push_col_pairs(&mut pairs, key, recs);
        proof {
            lemma_recs_total_mono(bv, j as int + 1, bv.len() as int);
        }
        cells = cells + recs.len();
        j += 1;
    }
    let groups = stable_sort::<AuditDuplicateGroup, GroupOrder>(groups);
    let pairs = stable_sort::<AuditSimilarPair, PairOrder>(pairs);
    AuditReport { cells, columns: by_col.len(), duplicate_groups: groups, similar_pairs: pairs, malformed, unparsed }
}

proof fn lemma_recs_total_mono(
    by_col: Seq<((Seq<char>, Seq<char>, Seq<char>), Seq<(i32, Seq<char>, Seq<char>)>)>,
    a: int,
    b: int,
)
    requires
        0 <= a <= b,
    ensures
        recs_total(by_col, a) <= recs_total(by_col, b),
    decreases b - a,
{
    if a < b {
        lemma_recs_total_mono(by_col, a, b - 1);
    }
}

// ---------------------------------------------------------------------------
// The text report
// ---------------------------------------------------------------------------

/// `n` dashes.
pub open spec fn dashes(n: int) -> Seq<char> {
    Seq::new(n as nat, |i: int| '-')
}

/// A section heading: the title, a dash underline as long as the title's UTF-8
/// length, the blurb and a blank line.
pub open spec fn section(title: Seq<char>, blurb: Seq<char>) -> Seq<Seq<char>> {
    seq![title, dashes(crate::parse::byte_len(title)), blurb, Seq::<char>::empty()]
}

/// The lines of `f` over the first `n` items, one after another.
pub open spec fn concat_lines<A>(s: Seq<A>, f: spec_fn(A) -> Seq<Seq<char>>, n: int) -> Seq<Seq<char>>
    decreases n,
{
    if n <= 0 {
        seq![]
    } else {
        concat_lines(s, f, n - 1) + f(s[n - 1])
    }
}

/// The lines of every item, or `(none)` and a blank line when there are none.
pub open spec fn block<A>(s: Seq<A>, f: spec_fn(A) -> Seq<Seq<char>>) -> Seq<Seq<char>> {
    if s.len() == 0 {
        seq!["(none)"@, Seq::<char>::empty()]
    } else {
        concat_lines(s, f, s.len() as int)
    }
}

/// The groups of one kind, in order.
pub open spec fn groups_of_kind(gs: Seq<GroupView>, kind: Seq<char>) -> Seq<GroupView>
    decreases gs.len(),
{
    if gs.len() == 0 {
        gs
    } else if gs.last().kind == kind {
        groups_of_kind(gs.drop_last(), kind).push(gs.last())
    } else {
        groups_of_kind(gs.drop_last(), kind)
    }
}

pub open spec fn sheet_line(sheet: Seq<char>, col: Seq<char>) -> Seq<char> {
    "  Sheet:  "@ + sheet + "  Column: "@ + col
}

pub open spec fn identical_lines(g: GroupView) -> Seq<Seq<char>> {
    seq![
        "@"@ + g.user,
        "  Award:  "@ + g.base_name,
        sheet_line(g.sheet, g.col),
        "  Rows:   "@ + join(g.rows.map_values(|r: (i32, Seq<char>)| decimal(r.0 as int)), ", "@),
        "  Cell:   "@ + g.rows[0].1,
        Seq::<char>::empty(),
    ]
}

pub open spec fn conflict_lines(g: GroupView) -> Seq<Seq<char>> {
    seq!["@"@ + g.user, "  Award:  "@ + g.base_name, sheet_line(g.sheet, g.col)] + g.rows.map_values(
        |r: (i32, Seq<char>)| "  Row "@ + decimal(r.0 as int) + ": "@ + r.1,
    ) + seq![Seq::<char>::empty()]
}

pub open spec fn pair_lines(p: PairView) -> Seq<Seq<char>> {
    seq![p.a + "  ~  "@ + p.b, "  Award:  "@ + p.base_name, sheet_line(p.sheet, p.col), Seq::<char>::empty()]
}

pub open spec fn malformed_lines(m: MalformedView) -> Seq<Seq<char>> {
    seq![
        "@"@ + (match username_key(m.cell) {
            Some(u) => u,
            None => "?"@,
        }) + "  ["@ + join(m.issues, ", "@) + "]"@,
        "  Award:  "@ + m.base_name,
        sheet_line(m.sheet, m.col) + "  Row: "@ + decimal(m.row as int),
        "  Cell:   "@ + m.cell,
        Seq::<char>::empty(),
    ]
}

pub open spec fn unparsed_lines(u: UnparsedView) -> Seq<Seq<char>> {
    seq![
        sheet_line(u.sheet, u.col) + "  Row: "@ + decimal(u.row as int),
        "  Award:  "@ + u.base_name,
        "  Cell:   "@ + u.cell,
        Seq::<char>::empty(),
    ]
}

pub open spec fn summary_lines(r: ReportView, generated_at: Seq<char>) -> Seq<Seq<char>> {
    seq![
        "Decorations Database — duplicate audit"@,
        "Generated: "@ + generated_at,
        "Mode: read-only (no sheet writes)"@,
        Seq::<char>::empty(),
        "SUMMARY"@,
        "======="@,
        "Award columns scanned: "@ + decimal(r.columns as int),
        "Filled cells:          "@ + decimal(r.cells as int),
        "Identical copies:      "@ + decimal(groups_of_kind(r.groups, "identical"@).len() as int) + " groups"@,
        "Conflicting rows:      "@ + decimal(groups_of_kind(r.groups, "conflict"@).len() as int) + " groups"@,
        "Similar usernames:     "@ + decimal(r.pairs.len() as int) + " pairs (same award column)"@,
        "Malformed cells:       "@ + decimal(r.malformed.len() as int),
        "Unparseable cells:     "@ + decimal(r.unparsed.len() as int),
        Seq::<char>::empty(),
    ]
}

pub open spec fn report_lines(r: ReportView, generated_at: Seq<char>) -> Seq<Seq<char>> {
    summary_lines(r, generated_at)
        + section("1. Identical copies"@, "Same username appears more than once in the same award column with the same text."@)
        + block(groups_of_kind(r.groups, "identical"@), |g: GroupView| identical_lines(g))
        + section("2. Conflicting rows"@, "Same username appears more than once in the same award column with different cell text."@)
        + block(groups_of_kind(r.groups, "conflict"@), |g: GroupView| conflict_lines(g))
        + section("3. Similar usernames"@, "Two usernames in the same award column look like typos of each other."@)
        + block(r.pairs, |p: PairView| pair_lines(p))
        + section("4. Malformed cells"@, "Missing space before a dash, or extra internal spaces. Trailing space is ignored."@)
        + block(r.malformed, |m: MalformedView| malformed_lines(m))
        + section("5. Unparseable cells"@, "Could not extract a username from the cell."@)
        + block(r.unparsed, |u: UnparsedView| unparsed_lines(u))
        + seq!["End of report."@, Seq::<char>::empty()]
}

/// The plain-text audit report.
pub open spec fn audit_report_text(r: ReportView, generated_at: Seq<char>) -> Seq<char> {
    join(report_lines(r, generated_at), "\n"@)
}

/// Every identical group names a row (its first row's cell is shown).
pub open spec fn report_renderable(r: ReportView) -> bool {
    forall|i: int| 0 <= i < r.groups.len() && (#[trigger] r.groups[i]).kind == "identical"@ ==> r.groups[i].rows.len() > 0
}

fn push_text(lines: &mut Vec<String>, v: &Vec<char>)
    ensures
        strings_view(final(lines)@) == strings_view(old(lines)@).push(v@),
{
    let ghost before = lines@;
    lines.push(string_of(v));
    assert(strings_view(lines@) =~= strings_view(before).push(v@));
}

fn push_str(lines: &mut Vec<String>, s: &str)
    ensures
        strings_view(final(lines)@) == strings_view(old(lines)@).push(s@),
{
    let ghost before = lines@;
    lines.push(crate::text::owned(s));
    assert(strings_view(lines@) =~= strings_view(before).push(s@));
}

fn push_blank(lines: &mut Vec<String>)
    ensures
        strings_view(final(lines)@) == strings_view(old(lines)@).push(Seq::<char>::empty()),
{
    let ghost before = lines@;
    lines.push(String::new());
    assert(strings_view(lines@) =~= strings_view(before).push(Seq::<char>::empty()));
}

fn cat2(a: &str, b: &str) -> (r: Vec<char>)
    ensures
        r@ == a@ + b@,
{
    let mut v: Vec<char> = Vec::new();
    extend_str(&mut v, a);
    extend_str(&mut v, b);
    v
}

fn cat4(a: &str, b: &str, c: &str, d: &str) -> (r: Vec<char>)
    ensures
        r@ == a@ + b@ + c@ + d@,
{
    let mut v = cat2(a, b);
    extend_str(&mut v, c);
    extend_str(&mut v, d);
    v
}

/// Appends a section heading.
fn push_section(lines: &mut Vec<String>, title: &str, blurb: &str)
    ensures
        strings_view(final(lines)@) == strings_view(old(lines)@) + section(title@, blurb@),
{
    let ghost start = strings_view(lines@);
    push_str(lines, title);
    let n = crate::parse::byte_len_of(&chars_of(title));
    let mut d: Vec<char> = Vec::new();
    let mut i: u128 = 0;
    while i < n
        invariant
            i <= n,
            d@ == dashes(i as int),
        decreases n - i,
    {
        d.push('-');
        i += 1;
        assert(d@ =~= dashes(i as int));
    }
    push_text(lines, &d);
    push_str(lines, blurb);
    push_blank(lines);
    assert(strings_view(lines@) =~= start + section(title@, blurb@));
}

fn push_none(lines: &mut Vec<String>)
    ensures
        strings_view(final(lines)@) == strings_view(old(lines)@) + seq!["(none)"@, Seq::<char>::empty()],
{
    let ghost start = strings_view(lines@);
    push_str(lines, "(none)");
    push_blank(lines);
    assert(strings_view(lines@) =~= start + seq!["(none)"@, Seq::<char>::empty()]);
}

fn sheet_line_of(sheet: &String, col: &String) -> (r: Vec<char>)
    ensures
        r@ == sheet_line(sheet@, col@),
{
    cat4("  Sheet:  ", sheet.as_str(), "  Column: ", col.as_str())
}

fn push_identical(lines: &mut Vec<String>, g: &AuditDuplicateGroup)
    requires
        g@.rows.len() > 0,
    ensures
        strings_view(final(lines)@) == strings_view(old(lines)@) + identical_lines(g@),
{
    let ghost start = strings_view(lines@);
    push_text(lines, &cat2("@", g.user.as_str()));
    push_text(lines, &cat2("  Award:  ", g.base_name.as_str()));
    push_text(lines, &sheet_line_of(&g.sheet, &g.col));
    let mut nums: Vec<String> = Vec::new();
    let ghost want = cell_rows_view(g.rows@).map_values(|r: (i32, Seq<char>)| decimal(r.0 as int));
    let mut i: usize = 0;
    while i < g.rows.len()
        invariant
            i <= g.rows.len(),
            want == cell_rows_view(g.rows@).map_values(|r: (i32, Seq<char>)| decimal(r.0 as int)),
            strings_view(nums@) == want.subrange(0, i as int),
        decreases g.rows.len() - i,
    {
        let ghost before = nums@;
        nums.push(decimal_string(g.rows[i].0 as i64));
        assert(strings_view(nums@) =~= strings_view(before).push(want[i as int]));
        i += 1;
        assert(strings_view(nums@) =~= want.subrange(0, i as int));
    }
    assert(want.subrange(0, g.rows.len() as int) =~= want);
    let joined = join_strings(&nums, ", ");
    push_text(lines, &cat2("  Rows:   ", joined.as_str()));
    push_text(lines, &cat2("  Cell:   ", g.rows[0].1.as_str()));
    push_blank(lines);
    assert(strings_view(lines@) =~= start + identical_lines(g@));
}

fn push_conflict(lines: &mut Vec<String>, g: &AuditDuplicateGroup)
    ensures
        strings_view(final(lines)@) == strings_view(old(lines)@) + conflict_lines(g@),
{
    let ghost start = strings_view(lines@);
    push_text(lines, &cat2("@", g.user.as_str()));
    push_text(lines, &cat2("  Award:  ", g.base_name.as_str()));
    push_text(lines, &sheet_line_of(&g.sheet, &g.col));
    let ghost mid = strings_view(lines@);
    let ghost want = cell_rows_view(g.rows@).map_values(
        |r: (i32, Seq<char>)| "  Row "@ + decimal(r.0 as int) + ": "@ + r.1,
    );
    let mut i: usize = 0;
    while i < g.rows.len()
        invariant
            i <= g.rows.len(),
            want == cell_rows_view(g.rows@).map_values(
                |r: (i32, Seq<char>)| "  Row "@ + decimal(r.0 as int) + ": "@ + r.1,
            ),
            strings_view(lines@) == mid + want.subrange(0, i as int),
        decreases g.rows.len() - i,
    {
        let mut v = cat2("  Row ", "");
        let d = crate::text::decimal_chars(g.rows[i].0 as i64);
        crate::text::extend_chars(&mut v, &d);
        extend_str(&mut v, ": ");
        extend_str(&mut v, g.rows[i].1.as_str());
        proof {
            reveal_strlit("");
        }
        assert(v@ =~= want[i as int]);
        let ghost before = strings_view(lines@);
        push_text(lines, &v);
        i += 1;
        assert(strings_view(lines@) =~= mid + want.subrange(0, i as int));
    }
    assert(want.subrange(0, g.rows.len() as int) =~= want);
    push_blank(lines);
    assert(strings_view(lines@) =~= start + conflict_lines(g@));
}

fn push_pair_lines(lines: &mut Vec<String>, p: &AuditSimilarPair)
    ensures
        strings_view(final(lines)@) == strings_view(old(lines)@) + pair_lines(p@),
{
    let ghost start = strings_view(lines@);
    let mut v = cat2(p.a.as_str(), "  ~  ");
    extend_str(&mut v, p.b.as_str());
    push_text(lines, &v);
    push_text(lines, &cat2("  Award:  ", p.base_name.as_str()));
    push_text(lines, &sheet_line_of(&p.sheet, &p.col));
    push_blank(lines);
    assert(strings_view(lines@) =~= start + pair_lines(p@));
}

fn push_malformed_lines(lines: &mut Vec<String>, m: &AuditMalformed)
    ensures
        strings_view(final(lines)@) == strings_view(old(lines)@) + malformed_lines(m@),
{
    let ghost start = strings_view(lines@);
    let who = match normalize_username(Some(m.cell.as_str())) {
        Some(u) => u,
        None => crate::text::owned("?"),
    };
    let issue = join_strings(&m.issues, ", ");
    let mut v = cat4("@", who.as_str(), "  [", issue.as_str());
    extend_str(&mut v, "]");
    push_text(lines, &v);
    push_text(lines, &cat2("  Award:  ", m.base_name.as_str()));
    let mut s = sheet_line_of(&m.sheet, &m.col);
    extend_str(&mut s, "  Row: ");
    crate::text::extend_chars(&mut s, &crate::text::decimal_chars(m.row as i64));
    push_text(lines, &s);
    push_text(lines, &cat2("  Cell:   ", m.cell.as_str()));
    push_blank(lines);
    assert(strings_view(lines@) =~= start + malformed_lines(m@));
}

fn push_unparsed_lines(lines: &mut Vec<String>, u: &AuditUnparsed)
    ensures
        strings_view(final(lines)@) == strings_view(old(lines)@) + unparsed_lines(u@),
{
    let ghost start = strings_view(lines@);
    let mut s = sheet_line_of(&u.sheet, &u.col);
    extend_str(&mut s, "  Row: ");
    crate::text::extend_chars(&mut s, &crate::text::decimal_chars(u.row as i64));
    push_text(lines, &s);
    push_text(lines, &cat2("  Award:  ", u.base_name.as_str()));
    push_text(lines, &cat2("  Cell:   ", u.cell.as_str()));
    push_blank(lines);
    assert(strings_view(lines@) =~= start + unparsed_lines(u@));
}

/// The groups of `kind`, in order.
fn select_groups<'a>(gs: &'a Vec<AuditDuplicateGroup>, kind: &str) -> (r: Vec<&'a AuditDuplicateGroup>)
    ensures
        r@.map_values(|g: &AuditDuplicateGroup| g@) == groups_of_kind(views(gs@), kind@),
{
    let ghost gv = views(gs@);
    let mut out: Vec<&'a AuditDuplicateGroup> = Vec::new();
    let mut i: usize = 0;
    assert(out@.map_values(|g: &AuditDuplicateGroup| g@) =~= groups_of_kind(gv.subrange(0, 0), kind@));
    while i < gs.len()
        invariant
            i <= gs.len(),
            gv == views(gs@),
            out@.map_values(|g: &AuditDuplicateGroup| g@) == groups_of_kind(gv.subrange(0, i as int), kind@),
        decreases gs.len() - i,
    {
        assert(gv.subrange(0, i + 1).drop_last() =~= gv.subrange(0, i as int));
        assert(gv.subrange(0, i + 1).last() == gs@[i as int]@);
        if same_text(&gs[i].kind, &crate::text::owned(kind)) {
            let ghost before = out@;
            out.push(&gs[i]);
            assert(out@.map_values(|g: &AuditDuplicateGroup| g@) =~= before.map_values(|g: &AuditDuplicateGroup| g@).push(gs@[i as int]@));
        }
        i += 1;
    }
    assert(gv.subrange(0, gs.len() as int) =~= gv);
    out
}

/// Whether every identical group names a row (`report_renderable`), so the
/// report can be written out.
pub fn report_is_renderable(report: &AuditReport) -> (r: bool)
    ensures
        r == report_renderable(report@),
{
    let ghost gs = report@.groups;
    let mut i: usize = 0;
    while i < report.duplicate_groups.len()
        invariant
            i <= report.duplicate_groups@.len(),
            gs == report@.groups,
            gs.len() == report.duplicate_groups@.len(),
            forall|j: int| 0 <= j < i && (#[trigger] gs[j]).kind == "identical"@ ==> gs[j].rows.len() > 0,
        decreases report.duplicate_groups.len() - i,
    {
        let g = &report.duplicate_groups[i];
        assert(gs[i as int] == g@);
        if crate::text::str_eq(g.kind.as_str(), "identical") && g.rows.len() == 0 {
            assert(cell_rows_view(g.rows@).len() == 0);
            return false;
        }
        assert(cell_rows_view(g.rows@).len() == g.rows@.len());
        i += 1;
    }
    true
}

/// Render the audit as plain text for record keeping.
pub fn format_audit_report(report: &AuditReport, generated_at: &str) -> (r: String)
    requires
        report_renderable(report@),
    ensures
        r@ == audit_report_text(report@, generated_at@),
        crate::text::starts_with(
            r@,
            "Decorations Database — duplicate audit"@ + "\n"@ + "Generated: "@ + generated_at@ + "\n"@,
        ),
        crate::text::ends_with(r@, "\nEnd of report.\n"@),
{
    proof {
        crate::laws::law_audit_report_text_bounds(report@, generated_at@);
    }
    let ghost rv = report@;
    let identical = select_groups(&report.duplicate_groups, "identical");
    let conflict = select_groups(&report.duplicate_groups, "conflict");
    let ghost idv = identical@.map_values(|g: &AuditDuplicateGroup| g@);
    let ghost cfv = conflict@.map_values(|g: &AuditDuplicateGroup| g@);
    let mut lines: Vec<String> = Vec::new();
    push_str(&mut lines, "Decorations Database — duplicate audit");
    push_text(&mut lines, &cat2("Generated: ", generated_at));
    push_str(&mut lines, "Mode: read-only (no sheet writes)");
    push_blank(&mut lines);
    push_str(&mut lines, "SUMMARY");
    push_str(&mut lines, "=======");
    push_text(&mut lines, &{
        let mut v = chars_of("Award columns scanned: ");
        crate::text::extend_chars(&mut v, &crate::text::usize_decimal(report.columns));
        v
    });
    push_text(&mut lines, &{
        let mut v = chars_of("Filled cells:          ");
        crate::text::extend_chars(&mut v, &crate::text::usize_decimal(report.cells));
        v
    });
    push_text(&mut lines, &{
        let mut v = chars_of("Identical copies:      ");
        crate::text::extend_chars(&mut v, &crate::text::usize_decimal(identical.len()));
        extend_str(&mut v, " groups");
        v
    });
    push_text(&mut lines, &{
        let mut v = chars_of("Conflicting rows:      ");
        crate::text::extend_chars(&mut v, &crate::text::usize_decimal(conflict.len()));
        extend_str(&mut v, " groups");
        v
    });
    push_text(&mut lines, &{
        let mut v = chars_of("Similar usernames:     ");
        crate::text::extend_chars(&mut v, &crate::text::usize_decimal(report.similar_pairs.len()));
        extend_str(&mut v, " pairs (same award column)");
        v
    });
    push_text(&mut lines, &{
        let mut v = chars_of("Malformed cells:       ");
        crate::text::extend_chars(&mut v, &crate::text::usize_decimal(report.malformed.len()));
        v
    });
    push_text(&mut lines, &{
        let mut v = chars_of("Unparseable cells:     ");
        crate::text::extend_chars(&mut v, &crate::text::usize_decimal(report.unparsed.len()));
        v
    });
    push_blank(&mut lines);
    assert(strings_view(lines@) =~= summary_lines(rv, generated_at@));

    let ghost s1 = strings_view(lines@);
    push_section(&mut lines, "1. Identical copies", "Same username appears more than once in the same award column with the same text.");
    if identical.len() == 0 {
        push_none(&mut lines);
    } else {
        let ghost base = strings_view(lines@);
        let mut i: usize = 0;
        while i < identical.len()
            invariant
                i <= identical.len(),
                idv == identical@.map_values(|g: &AuditDuplicateGroup| g@),
                idv == groups_of_kind(rv.groups, "identical"@),
                rv == report@,
                report_renderable(rv),
                strings_view(lines@) == base + concat_lines(idv, |g: GroupView| identical_lines(g), i as int),
            decreases identical.len() - i,
        {
            proof {
                lemma_groups_of_kind_member(rv.groups, "identical"@, i as int);
            }
            assert(idv[i as int] == identical@[i as int]@);
            push_identical(&mut lines, identical[i]);
            i += 1;
        }
    }
    assert(strings_view(lines@) =~= s1 + section("1. Identical copies"@, "Same username appears more than once in the same award column with the same text."@) + block(idv, |g: GroupView| identical_lines(g)));

    let ghost s2 = strings_view(lines@);
    push_section(&mut lines, "2. Conflicting rows", "Same username appears more than once in the same award column with different cell text.");
    if conflict.len() == 0 {
        push_none(&mut lines);
    } else {
        let ghost base = strings_view(lines@);
        let mut i: usize = 0;
        while i < conflict.len()
            invariant
                i <= conflict.len(),
                cfv == conflict@.map_values(|g: &AuditDuplicateGroup| g@),
                strings_view(lines@) == base + concat_lines(cfv, |g: GroupView| conflict_lines(g), i as int),
            decreases conflict.len() - i,
        {
            assert(cfv[i as int] == conflict@[i as int]@);
            push_conflict(&mut lines, conflict[i]);
            i += 1;
        }
    }
    assert(strings_view(lines@) =~= s2 + section("2. Conflicting rows"@, "Same username appears more than once in the same award column with different cell text."@) + block(cfv, |g: GroupView| conflict_lines(g)));

    let ghost s3 = strings_view(lines@);
    push_section(&mut lines, "3. Similar usernames", "Two usernames in the same award column look like typos of each other.");
    if report.similar_pairs.len() == 0 {
        push_none(&mut lines);
    } else {
        let ghost base = strings_view(lines@);
        let mut i: usize = 0;
        while i < report.similar_pairs.len()
            invariant
                i <= report.similar_pairs.len(),
                rv == report@,
                strings_view(lines@) == base + concat_lines(rv.pairs, |p: PairView| pair_lines(p), i as int),
            decreases report.similar_pairs.len() - i,
        {
            assert(rv.pairs[i as int] == report.similar_pairs@[i as int]@);
            push_pair_lines(&mut lines, &report.similar_pairs[i]);
            i += 1;
        }
    }
    assert(strings_view(lines@) =~= s3 + section("3. Similar usernames"@, "Two usernames in the same award column look like typos of each other."@) + block(rv.pairs, |p: PairView| pair_lines(p)));

    let ghost s4 = strings_view(lines@);
    push_section(&mut lines, "4. Malformed cells", "Missing space before a dash, or extra internal spaces. Trailing space is ignored.");
    if report.malformed.len() == 0 {
        push_none(&mut lines);
    } else {
        let ghost base = strings_view(lines@);
        let mut i: usize = 0;
        while i < report.malformed.len()
            invariant
                i <= report.malformed.len(),
                rv == report@,
                strings_view(lines@) == base + concat_lines(rv.malformed, |m: MalformedView| malformed_lines(m), i as int),
            decreases report.malformed.len() - i,
        {
            assert(rv.malformed[i as int] == report.malformed@[i as int]@);
            push_malformed_lines(&mut lines, &report.malformed[i]);
            i += 1;
        }
    }
    assert(strings_view(lines@) =~= s4 + section("4. Malformed cells"@, "Missing space before a dash, or extra internal spaces. Trailing space is ignored."@) + block(rv.malformed, |m: MalformedView| malformed_lines(m)));

    let ghost s5 = strings_view(lines@);
    push_section(&mut lines, "5. Unparseable cells", "Could not extract a username from the cell.");
    if report.unparsed.len() == 0 {
        push_none(&mut lines);
    } else {
        let ghost base = strings_view(lines@);
        let mut i: usize = 0;
        while i < report.unparsed.len()
            invariant
                i <= report.unparsed.len(),
                rv == report@,
                strings_view(lines@) == base + concat_lines(rv.unparsed, |u: UnparsedView| unparsed_lines(u), i as int),
            decreases report.unparsed.len() - i,
        {
            assert(rv.unparsed[i as int] == report.unparsed@[i as int]@);
            push_unparsed_lines(&mut lines, &report.unparsed[i]);
            i += 1;
        }
    }
    assert(strings_view(lines@) =~= s5 + section("5. Unparseable cells"@, "Could not extract a username from the cell."@) + block(rv.unparsed, |u: UnparsedView| unparsed_lines(u)));

    push_str(&mut lines, "End of report.");
    push_blank(&mut lines);
    assert(strings_view(lines@) =~= report_lines(rv, generated_at@));
    join_strings(&lines, "\n")
}

proof fn lemma_groups_of_kind_member(gs: Seq<GroupView>, kind: Seq<char>, i: int)
    requires
        0 <= i < groups_of_kind(gs, kind).len(),
    ensures
        groups_of_kind(gs, kind)[i].kind == kind,
        exists|j: int| 0 <= j < gs.len() && gs[j] == groups_of_kind(gs, kind)[i],
    decreases gs.len(),
{
    if gs.len() > 0 {
        let prev = groups_of_kind(gs.drop_last(), kind);
        if gs.last().kind == kind && i == prev.len() {
            assert(gs[gs.len() - 1] == groups_of_kind(gs, kind)[i]);
        } else {
            lemma_groups_of_kind_member(gs.drop_last(), kind, i);
            let j = choose|j: int| 0 <= j < gs.drop_last().len() && gs.drop_last()[j] == prev[i];
            assert(gs[j] == groups_of_kind(gs, kind)[i]);
        }
    }
}

// ---------------------------------------------------------------------------
// Findings
// ---------------------------------------------------------------------------

/// One individually selectable issue of an [`AuditReport`].
#[derive(Debug, Clone, PartialEq, Eq)]
pub enum AuditFinding {
    DuplicateRow {
        user: String,
        sheet: String,
        col: String,
        base_name: String,
        /// `identical` or `conflict`, as the group's kind.
        kind: String,
        row: i32,
        cell: String,
    },
    SimilarUsernames { a: String, b: String, sheet: String, col: String, base_name: String },
    MalformedCell {
        user: String,
        sheet: String,
        col: String,
        base_name: String,
        row: i32,
        cell: String,
        issues: Vec<String>,
    },
    UnparseableCell { sheet: String, col: String, base_name: String, row: i32, cell: String },
}

pub enum FindingView {
    DuplicateRow {
        user: Seq<char>,
        sheet: Seq<char>,
        col: Seq<char>,
        base_name: Seq<char>,
        kind: Seq<char>,
        row: i32,
        cell: Seq<char>,
    },
    SimilarUsernames { a: Seq<char>, b: Seq<char>, sheet: Seq<char>, col: Seq<char>, base_name: Seq<char> },
    MalformedCell {
        user: Seq<char>,
        sheet: Seq<char>,
        col: Seq<char>,
        base_name: Seq<char>,
        row: i32,
        cell: Seq<char>,
        issues: Seq<Seq<char>>,
    },
    UnparseableCell { sheet: Seq<char>, col: Seq<char>, base_name: Seq<char>, row: i32, cell: Seq<char> },
}

impl View for AuditFinding {
    type V = FindingView;

    open spec fn view(&self) -> FindingView {
        match self {
            AuditFinding::DuplicateRow { user, sheet, col, base_name, kind, row, cell } => FindingView::DuplicateRow {
                user: user@,
                sheet: sheet@,
                col: col@,
                base_name: base_name@,
                kind: kind@,
                row: *row,
                cell: cell@,
            },
            AuditFinding::SimilarUsernames { a, b, sheet, col, base_name } => FindingView::SimilarUsernames {
                a: a@,
                b: b@,
                sheet: sheet@,
                col: col@,
                base_name: base_name@,
            },
            AuditFinding::MalformedCell { user, sheet, col, base_name, row, cell, issues } => FindingView::MalformedCell {
                user: user@,
                sheet: sheet@,
                col: col@,
                base_name: base_name@,
                row: *row,
                cell: cell@,
                issues: strings_view(issues@),
            },
            AuditFinding::UnparseableCell { sheet, col, base_name, row, cell } => FindingView::UnparseableCell {
                sheet: sheet@,
                col: col@,
                base_name: base_name@,
                row: *row,
                cell: cell@,
            },
        }
    }
}

/// One finding per row of a duplicate group.
pub open spec fn group_findings(g: GroupView) -> Seq<FindingView> {
    g.rows.map_values(
        |r: (i32, Seq<char>)|
            FindingView::DuplicateRow {
                user: g.user,
                sheet: g.sheet,
                col: g.col,
                base_name: g.base_name,
                kind: g.kind,
                row: r.0,
                cell: r.1,
            },
    )
}

pub open spec fn dup_findings(gs: Seq<GroupView>, n: int) -> Seq<FindingView>
    decreases n,
{
    if n <= 0 {
        seq![]
    } else {
        dup_findings(gs, n - 1) + group_findings(gs[n - 1])
    }
}

pub open spec fn pair_finding(p: PairView) -> FindingView {
    FindingView::SimilarUsernames { a: p.a, b: p.b, sheet: p.sheet, col: p.col, base_name: p.base_name }
}

pub open spec fn malformed_finding(m: MalformedView) -> FindingView {
    FindingView::MalformedCell {
        user: match username_key(m.cell) {
            Some(u) => u,
            None => Seq::empty(),
        },
        sheet: m.sheet,
        col: m.col,
        base_name: m.base_name,
        row: m.row,
        cell: m.cell,
        issues: m.issues,
    }
}

pub open spec fn unparsed_finding(u: UnparsedView) -> FindingView {
    FindingView::UnparseableCell { sheet: u.sheet, col: u.col, base_name: u.base_name, row: u.row, cell: u.cell }
}

/// The report's findings in section order: each duplicate group row, then each
/// similar pair, malformed cell and unparseable cell.
pub open spec fn report_findings(r: ReportView) -> Seq<FindingView> {
    dup_findings(r.groups, r.groups.len() as int) + r.pairs.map_values(|p: PairView| pair_finding(p))
        + r.malformed.map_values(|m: MalformedView| malformed_finding(m)) + r.unparsed.map_values(
        |u: UnparsedView| unparsed_finding(u),
    )
}

/// Number of duplicate rows over the first `n` groups.
pub open spec fn group_rows_total(gs: Seq<GroupView>, n: int) -> nat
    decreases n,
{
    if n <= 0 {
        0
    } else {
        group_rows_total(gs, n - 1) + gs[n - 1].rows.len()
    }
}

pub open spec fn finding_views(v: Seq<AuditFinding>) -> Seq<FindingView> {
    v.map_values(|f: AuditFinding| f@)
}

fn push_finding(out: &mut Vec<AuditFinding>, f: AuditFinding)
    ensures
        finding_views(final(out)@) == finding_views(old(out)@).push(f@),
{
    let ghost before = out@;
    let ghost fv = f@;
    out.push(f);
    assert(finding_views(out@) =~= finding_views(before).push(fv));
}

/// A copy of `f` with the same view.
pub fn copy_finding(f: &AuditFinding) -> (r: AuditFinding)
    ensures
        r@ == f@,
{
    match f {
        AuditFinding::DuplicateRow { user, sheet, col, base_name, kind, row, cell } => AuditFinding::DuplicateRow {
            user: copy_string(user),
            sheet: copy_string(sheet),
            col: copy_string(col),
            base_name: copy_string(base_name),
            kind: copy_string(kind),
            row: *row,
            cell: copy_string(cell),
        },
        AuditFinding::SimilarUsernames { a, b, sheet, col, base_name } => AuditFinding::SimilarUsernames {
            a: copy_string(a),
            b: copy_string(b),
            sheet: copy_string(sheet),
            col: copy_string(col),
            base_name: copy_string(base_name),
        },
        AuditFinding::MalformedCell { user, sheet, col, base_name, row, cell, issues } => AuditFinding::MalformedCell {
            user: copy_string(user),
            sheet: copy_string(sheet),
            col: copy_string(col),
            base_name: copy_string(base_name),
            row: *row,
            cell: copy_string(cell),
            issues: copy_strings(issues),
        },
        AuditFinding::UnparseableCell { sheet, col, base_name, row, cell } => AuditFinding::UnparseableCell {
            sheet: copy_string(sheet),
            col: copy_string(col),
            base_name: copy_string(base_name),
            row: *row,
            cell: copy_string(cell),
        },
    }
}

fn copy_strings(v: &Vec<String>) -> (r: Vec<String>)
    ensures
        strings_view(r@) == strings_view(v@),
{
    let mut r: Vec<String> = Vec::new();
    let mut i: usize = 0;
    while i < v.len()
        invariant
            i <= v.len(),
            strings_view(r@) == strings_view(v@).subrange(0, i as int),
        decreases v.len() - i,
    {
        let ghost before = r@;
        r.push(copy_string(&v[i]));
        assert(strings_view(r@) =~= strings_view(before).push(v@[i as int]@));
        i += 1;
        assert(strings_view(r@) =~= strings_view(v@).subrange(0, i as int));
    }
    assert(strings_view(v@).subrange(0, v.len() as int) =~= strings_view(v@));
    r
}

/// Flatten a report into individually selectable findings, in the report's
/// section order.
pub fn flatten_audit_findings(report: &AuditReport) -> (r: Vec<AuditFinding>)
    ensures
        finding_views(r@) == report_findings(report@),
{
    let ghost rv = report@;
    let mut out: Vec<AuditFinding> = Vec::new();
    let mut i: usize = 0;
    assert(finding_views(out@) =~= dup_findings(rv.groups, 0));
    while i < report.duplicate_groups.len()
        invariant
            i <= report.duplicate_groups.len(),
            rv == report@,
            finding_views(out@) == dup_findings(rv.groups, i as int),
        decreases report.duplicate_groups.len() - i,
    {
        let g = &report.duplicate_groups[i];
        assert(rv.groups[i as int] == g@);
        let ghost start = finding_views(out@);
        let ghost want = group_findings(g@);
        let mut k: usize = 0;
        while k < g.rows.len()
            invariant
                k <= g.rows.len(),
                want == group_findings(g@),
                finding_views(out@) == start + want.subrange(0, k as int),
            decreases g.rows.len() - k,
        {
            push_finding(&mut out, AuditFinding::DuplicateRow {
                user: copy_string(&g.user),
                sheet: copy_string(&g.sheet),
                col: copy_string(&g.col),
                base_name: copy_string(&g.base_name),
                kind: copy_string(&g.kind),
                row: g.rows[k].0,
                cell: copy_string(&g.rows[k].1),
            });
            assert(want[k as int] == finding_views(out@).last());
            k += 1;
            assert(finding_views(out@) =~= start + want.subrange(0, k as int));
        }
        assert(want.subrange(0, g.rows.len() as int) =~= want);
        i += 1;
    }
    let ghost d = finding_views(out@);
    let mut j: usize = 0;
    while j < report.similar_pairs.len()
        invariant
            j <= report.similar_pairs.len(),
            rv == report@,
            finding_views(out@) == d + rv.pairs.map_values(|p: PairView| pair_finding(p)).subrange(0, j as int),
        decreases report.similar_pairs.len() - j,
    {
        let p = &report.similar_pairs[j];
        assert(rv.pairs[j as int] == p@);
        push_finding(&mut out, AuditFinding::SimilarUsernames {
            a: copy_string(&p.a),
            b: copy_string(&p.b),
            sheet: copy_string(&p.sheet),
            col: copy_string(&p.col),
            base_name: copy_string(&p.base_name),
        });
        j += 1;
        assert(finding_views(out@) =~= d + rv.pairs.map_values(|p: PairView| pair_finding(p)).subrange(0, j as int));
    }
    let ghost e = finding_views(out@);
    let mut j: usize = 0;
    while j < report.malformed.len()
        invariant
            j <= report.malformed.len(),
            rv == report@,
            finding_views(out@) == e + rv.malformed.map_values(|m: MalformedView| malformed_finding(m)).subrange(0, j as int),
        decreases report.malformed.len() - j,
    {
        let m = &report.malformed[j];
        assert(rv.malformed[j as int] == m@);
        let user = match normalize_username(Some(m.cell.as_str())) {
            Some(u) => u,
            None => String::new(),
        };
        push_finding(&mut out, AuditFinding::MalformedCell {
            user,
            sheet: copy_string(&m.sheet),
            col: copy_string(&m.col),
            base_name: copy_string(&m.base_name),
            row: m.row,
            cell: copy_string(&m.cell),
            issues: copy_strings(&m.issues),
        });
        j += 1;
        assert(finding_views(out@) =~= e + rv.malformed.map_values(|m: MalformedView| malformed_finding(m)).subrange(0, j as int));
    }
    let ghost f = finding_views(out@);
    let mut j: usize = 0;
    while j < report.unparsed.len()
        invariant
            j <= report.unparsed.len(),
            rv == report@,
            finding_views(out@) == f + rv.unparsed.map_values(|u: UnparsedView| unparsed_finding(u)).subrange(0, j as int),
        decreases report.unparsed.len() - j,
    {
        let u = &report.unparsed[j];
        assert(rv.unparsed[j as int] == u@);
        push_finding(&mut out, AuditFinding::UnparseableCell {
            sheet: copy_string(&u.sheet),
            col: copy_string(&u.col),
            base_name: copy_string(&u.base_name),
            row: u.row,
            cell: copy_string(&u.cell),
        });
        j += 1;
        assert(finding_views(out@) =~= f + rv.unparsed.map_values(|u: UnparsedView| unparsed_finding(u)).subrange(0, j as int));
    }
    assert(rv.pairs.map_values(|p: PairView| pair_finding(p)).subrange(0, rv.pairs.len() as int) =~= rv.pairs.map_values(|p: PairView| pair_finding(p)));
    assert(rv.malformed.map_values(|m: MalformedView| malformed_finding(m)).subrange(0, rv.malformed.len() as int) =~= rv.malformed.map_values(|m: MalformedView| malformed_finding(m)));
    assert(rv.unparsed.map_values(|u: UnparsedView| unparsed_finding(u)).subrange(0, rv.unparsed.len() as int) =~= rv.unparsed.map_values(|u: UnparsedView| unparsed_finding(u)));
    assert(finding_views(out@) =~= report_findings(rv));
    out
}

/// The member a finding concerns: `None` exactly for an unparseable cell.
pub fn finding_username(finding: &AuditFinding) -> (r: Option<&str>)
    ensures
        match finding@ {
            FindingView::DuplicateRow { user, .. } => r matches Some(u) && u@ == user,
            FindingView::SimilarUsernames { a, .. } => r matches Some(u) && u@ == a,
            FindingView::MalformedCell { user, .. } => r matches Some(u) && u@ == user,
            FindingView::UnparseableCell { .. } => r is None,
        },
{
    match finding {
        AuditFinding::DuplicateRow { user, .. } => Some(user.as_str()),
        AuditFinding::SimilarUsernames { a, .. } => Some(a.as_str()),
        AuditFinding::MalformedCell { user, .. } => Some(user.as_str()),
        AuditFinding::UnparseableCell { .. } => None,
    }
}

proof fn lemma_dup_findings_len(gs: Seq<GroupView>, n: int)
    requires
        0 <= n <= gs.len(),
    ensures
        dup_findings(gs, n).len() == group_rows_total(gs, n),
    decreases n,
{
    if n > 0 {
        lemma_dup_findings_len(gs, n - 1);
    }
}

/// Flattening yields one finding per duplicate row and one per similar pair,
/// malformed cell and unparseable cell.
pub proof fn law_flatten_counts(r: ReportView)
    ensures
        report_findings(r).len() == group_rows_total(r.groups, r.groups.len() as int) + r.pairs.len()
            + r.malformed.len() + r.unparsed.len(),
{
    lemma_dup_findings_len(r.groups, r.groups.len() as int);
}

/// The award a clerk-facing hit stands for: its location, and a warning name
/// that says why it was flagged.
pub open spec fn hit_label(h: DuplicateHitView) -> Seq<char> {
    if h.reason == "duplicate_identical"@ {
        "duplicate copy"@
    } else if h.reason == "duplicate_conflict"@ {
        "conflicting rows"@
    } else if h.reason == "duplicate_in_column"@ {
        "duplicate row"@
    } else if h.reason == "similar_username"@ {
        "similar to @"@ + h.cell_username
    } else if h.reason == "malformed_cell"@ {
        "malformed cell"@
    } else {
        h.reason
    }
}

pub open spec fn warning_name(base_name: Seq<char>, label: Seq<char>) -> Seq<char> {
    "⚠ "@ + base_name + " ("@ + label + ")"@
}

fn warning_name_of(base_name: &String, label: &str) -> (r: String)
    ensures
        r@ == warning_name(base_name@, label@),
{
    let mut v = cat4("⚠ ", base_name.as_str(), " (", label);
    extend_str(&mut v, ")");
    string_of(&v)
}

impl DuplicateHit {
    pub fn to_award(&self) -> (r: crate::types::Award)
        ensures
            r@ == (crate::types::AwardView {
                category: self@.category,
                name: warning_name(self@.base_name, hit_label(self@)),
                sheet: self@.sheet,
                col: self@.col,
                row: self@.row,
                cell: self@.cell,
                base_name: self@.base_name,
            }),
    {
        let label: String = if same_text(&self.reason, &crate::text::owned("duplicate_identical")) {
            crate::text::owned("duplicate copy")
        } else if same_text(&self.reason, &crate::text::owned("duplicate_conflict")) {
            crate::text::owned("conflicting rows")
        } else if same_text(&self.reason, &crate::text::owned("duplicate_in_column")) {
            crate::text::owned("duplicate row")
        } else if same_text(&self.reason, &crate::text::owned("similar_username")) {
            string_of(&cat2("similar to @", self.cell_username.as_str()))
        } else if same_text(&self.reason, &crate::text::owned("malformed_cell")) {
            crate::text::owned("malformed cell")
        } else {
            copy_string(&self.reason)
        };
        crate::types::Award {
            category: copy_string(&self.category),
            name: warning_name_of(&self.base_name, label.as_str()),
            sheet: copy_string(&self.sheet),
            col: copy_string(&self.col),
            row: self.row,
            cell: copy_string(&self.cell),
            base_name: copy_string(&self.base_name),
        }
    }
}

/// Category of a tab, or empty for an unknown tab.
pub open spec fn sheet_category(sheet: Seq<char>) -> Seq<char> {
    match meta_of(sheet) {
        Some(m) => m.category,
        None => Seq::empty(),
    }
}

/// The single sheet row a finding targets, as an award for the edit and delete
/// flows.
pub open spec fn finding_award(f: FindingView) -> Option<crate::types::AwardView> {
    match f {
        FindingView::DuplicateRow { sheet, col, base_name, kind, row, cell, .. } => Some(
            crate::types::AwardView {
                category: sheet_category(sheet),
                name: warning_name(
                    base_name,
                    if kind == "identical"@ {
                        "duplicate copy"@
                    } else {
                        "conflicting rows"@
                    },
                ),
                sheet,
                col,
                row,
                cell,
                base_name,
            },
        ),
        FindingView::MalformedCell { sheet, col, base_name, row, cell, .. } => Some(
            crate::types::AwardView {
                category: sheet_category(sheet),
                name: warning_name(base_name, "malformed cell"@),
                sheet,
                col,
                row,
                cell,
                base_name,
            },
        ),
        _ => None,
    }
}

fn category_of_sheet(sheet: &String) -> (r: String)
    ensures
        r@ == sheet_category(sheet@),
{
    match sheet_meta(sheet.as_str()) {
        Some(m) => crate::text::owned(m.category),
        None => String::new(),
    }
}

impl AuditFinding {
    /// The single sheet row this finding targets; `None` for kinds without one.
    pub fn to_award(&self) -> (r: Option<crate::types::Award>)
        ensures
            match r {
                Some(a) => finding_award(self@) == Some(a@),
                None => finding_award(self@) is None,
            },
    {
        match self {
            AuditFinding::DuplicateRow { sheet, col, base_name, kind, row, cell, .. } => {
                let label = if same_text(kind, &crate::text::owned("identical")) {
                    "duplicate copy"
                } else {
                    "conflicting rows"
                };
                Some(crate::types::Award {
                    category: category_of_sheet(sheet),
                    name: warning_name_of(base_name, label),
                    sheet: copy_string(sheet),
                    col: copy_string(col),
                    row: *row,
                    cell: copy_string(cell),
                    base_name: copy_string(base_name),
                })
            },
            AuditFinding::MalformedCell { sheet, col, base_name, row, cell, .. } => Some(crate::types::Award {
                category: category_of_sheet(sheet),
                name: warning_name_of(base_name, "malformed cell"),
                sheet: copy_string(sheet),
                col: copy_string(col),
                row: *row,
                cell: copy_string(cell),
                base_name: copy_string(base_name),
            }),
            _ => None,
        }
    }
}

} // verus!
