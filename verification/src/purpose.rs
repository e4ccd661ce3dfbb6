//! What the library's operations are for, stated over their inputs: the
//! problems a member's lookup must report, how the audit decides identical
//! copies, how a ribbon's device is shown, the order awards are listed in, and
//! which lines of a pasted request are read.
use vstd::prelude::*;
use crate::audit::{
    add_hit, all_group_hits, dup_cell, dup_column, dup_columns, dup_rows, duplicates_for, entry_hits, group_hits,
    make_hit, DupState, HitOrder,
};
use crate::meta::{col_index, meta_of, SheetMetaView};
use crate::parse::{cell_at, clean, format_issues, username_key};
use crate::types::{rows_of, DuplicateHit, DuplicateHitView};

verus! {

// ---------------------------------------------------------------------------
// A member's own malformed cells are reported
// ---------------------------------------------------------------------------

/// Some hit flags the cell at `sheet`/`col`/`row` for `reason`.
pub open spec fn flags(hits: Seq<DuplicateHitView>, sheet: Seq<char>, col: Seq<char>, row: i32, reason: Seq<char>) -> bool {
    exists|j: int|
        0 <= j < hits.len() && (#[trigger] hits[j]).sheet == sheet && hits[j].col == col && hits[j].row == row
            && hits[j].reason == reason
}

proof fn lemma_add_hit_keeps(h: Seq<DuplicateHitView>, x: DuplicateHitView)
    ensures
        forall|sheet: Seq<char>, col: Seq<char>, row: i32, reason: Seq<char>|
            #[trigger] flags(h, sheet, col, row, reason) ==> flags(add_hit(h, x), sheet, col, row, reason),
        flags(add_hit(h, x), x.sheet, x.col, x.row, x.reason),
{
    let r = add_hit(h, x);
    assert forall|sheet: Seq<char>, col: Seq<char>, row: i32, reason: Seq<char>|
        #[trigger] flags(h, sheet, col, row, reason) implies flags(r, sheet, col, row, reason) by {
        let j = choose|j: int|
            0 <= j < h.len() && (#[trigger] h[j]).sheet == sheet && h[j].col == col && h[j].row == row && h[j].reason
                == reason;
        if r != h {
            assert(r[j] == h[j]);
        }
    }
    if r == h {
        let j = choose|j: int| 0 <= j < h.len() && crate::audit::same_hit(#[trigger] h[j], x);
        assert(h[j].sheet == x.sheet);
    } else {
        assert(r[h.len() as int] == x);
    }
}

proof fn lemma_dup_cell_keeps(
    st: DupState,
    key: Seq<char>,
    sheet: Seq<char>,
    col: Seq<char>,
    m: SheetMetaView,
    base: Seq<char>,
    cell: Seq<char>,
    row: i32,
)
    ensures
        forall|s: Seq<char>, c: Seq<char>, w: i32, reason: Seq<char>|
            #[trigger] flags(st.hits, s, c, w, reason) ==> flags(dup_cell(st, key, sheet, col, m, base, cell, row).hits, s, c, w, reason),
        cell.len() > 0 && username_key(cell) == Some(key) && format_issues(cell).len() > 0 ==> flags(
            dup_cell(st, key, sheet, col, m, base, cell, row).hits,
            sheet,
            col,
            row,
            "malformed_cell"@,
        ),
        cell.len() > 0 && lookalike(cell, key) ==> flags(
            dup_cell(st, key, sheet, col, m, base, cell, row).hits,
            sheet,
            col,
            row,
            "similar_username"@,
        ),
{
    if cell.len() > 0 {
        if let Some(u) = username_key(cell) {
            let mal = make_hit(m.category, base, sheet, col, row, cell, u, "malformed_cell"@);
            let sim = make_hit(m.category, base, sheet, col, row, cell, u, "similar_username"@);
            lemma_add_hit_keeps(st.hits, mal);
            lemma_add_hit_keeps(st.hits, sim);
            lemma_add_hit_keeps(add_hit(st.hits, sim), mal);
            if lookalike(cell, key) {
                reveal_strlit("similar_username");
                reveal_strlit("malformed_cell");
                assert(sim.reason == "similar_username"@);
            }
        }
    }
}

/// The cell names a different member whose username looks like a typo of
/// `key`.
pub open spec fn lookalike(cell: Seq<char>, key: Seq<char>) -> bool {
    username_key(cell) matches Some(u) && u != key && crate::parse::similar_names(u, key)
}

proof fn lemma_dup_rows_flags(
    st0: DupState,
    rows: Seq<Seq<Seq<char>>>,
    key: Seq<char>,
    sheet: Seq<char>,
    col: Seq<char>,
    m: SheetMetaView,
    base: Seq<char>,
    r: int,
)
    ensures
        forall|s: Seq<char>, c: Seq<char>, w: i32, reason: Seq<char>|
            #[trigger] flags(st0.hits, s, c, w, reason) ==> flags(dup_rows(st0, rows, key, sheet, col, m, base, r).hits, s, c, w, reason),
        forall|i: int|
            m.data_start_row - 1 <= i < r && 0 <= i && clean(#[trigger] cell_at(rows, i, col_index(col))).len() > 0
                && username_key(clean(cell_at(rows, i, col_index(col)))) == Some(key) && format_issues(
                clean(cell_at(rows, i, col_index(col))),
            ).len() > 0 ==> flags(
                dup_rows(st0, rows, key, sheet, col, m, base, r).hits,
                sheet,
                col,
                (i + 1 + m.row_offset) as i32,
                "malformed_cell"@,
            ),
        forall|i: int|
            m.data_start_row - 1 <= i < r && 0 <= i && clean(#[trigger] cell_at(rows, i, col_index(col))).len() > 0
                && lookalike(clean(cell_at(rows, i, col_index(col))), key) ==> flags(
                dup_rows(st0, rows, key, sheet, col, m, base, r).hits,
                sheet,
                col,
                (i + 1 + m.row_offset) as i32,
                "similar_username"@,
            ),
    decreases r,
{
    if !(r <= 0 || r <= m.data_start_row - 1) {
        lemma_dup_rows_flags(st0, rows, key, sheet, col, m, base, r - 1);
        let prev = dup_rows(st0, rows, key, sheet, col, m, base, r - 1);
        let cell = clean(cell_at(rows, r - 1, col_index(col)));
        let row = (r + m.row_offset) as i32;
        lemma_dup_cell_keeps(prev, key, sheet, col, m, base, cell, row);
        assert(dup_rows(st0, rows, key, sheet, col, m, base, r) == dup_cell(prev, key, sheet, col, m, base, cell, row));
        assert forall|i: int|
            m.data_start_row - 1 <= i < r && 0 <= i && clean(#[trigger] cell_at(rows, i, col_index(col))).len() > 0
                && username_key(clean(cell_at(rows, i, col_index(col)))) == Some(key) && format_issues(
                clean(cell_at(rows, i, col_index(col))),
            ).len() > 0 implies flags(
                dup_rows(st0, rows, key, sheet, col, m, base, r).hits,
                sheet,
                col,
                (i + 1 + m.row_offset) as i32,
                "malformed_cell"@,
            ) by {
            if i < r - 1 {
                assert(flags(prev.hits, sheet, col, (i + 1 + m.row_offset) as i32, "malformed_cell"@));
            }
        }
        assert forall|i: int|
            m.data_start_row - 1 <= i < r && 0 <= i && clean(#[trigger] cell_at(rows, i, col_index(col))).len() > 0
                && lookalike(clean(cell_at(rows, i, col_index(col))), key) implies flags(
                dup_rows(st0, rows, key, sheet, col, m, base, r).hits,
                sheet,
                col,
                (i + 1 + m.row_offset) as i32,
                "similar_username"@,
            ) by {
            if i < r - 1 {
                assert(flags(prev.hits, sheet, col, (i + 1 + m.row_offset) as i32, "similar_username"@));
            }
        }
    }
}

proof fn lemma_dup_columns_flags(
    tabs: Seq<(Seq<char>, Seq<Seq<Seq<char>>>)>,
    key: Seq<char>,
    cols: Seq<(Seq<char>, Seq<char>)>,
)
    ensures
        forall|c: int, i: int|
            0 <= c < cols.len() && (#[trigger] member_malformed(tabs, key, cols[c].0, cols[c].1, i)) ==> flags(
                dup_columns(tabs, key, cols).hits,
                cols[c].0,
                cols[c].1,
                (i + 1 + meta_of(cols[c].0)->0.row_offset) as i32,
                "malformed_cell"@,
            ),
        forall|c: int, i: int|
            0 <= c < cols.len() && (#[trigger] member_lookalike(tabs, key, cols[c].0, cols[c].1, i)) ==> flags(
                dup_columns(tabs, key, cols).hits,
                cols[c].0,
                cols[c].1,
                (i + 1 + meta_of(cols[c].0)->0.row_offset) as i32,
                "similar_username"@,
            ),
    decreases cols.len(),
{
    if cols.len() > 0 {
        let d = cols.drop_last();
        lemma_dup_columns_flags(tabs, key, d);
        let st = dup_columns(tabs, key, d);
        let sheet = cols.last().0;
        let col = cols.last().1;
        let out = dup_columns(tabs, key, cols);
        assert(out == dup_column(st, tabs, key, sheet, col));
        // What the earlier columns flagged stays flagged.
        let keeps = forall|s: Seq<char>, c: Seq<char>, w: i32, reason: Seq<char>|
            #[trigger] flags(st.hits, s, c, w, reason) ==> flags(out.hits, s, c, w, reason);
        match meta_of(sheet) {
            None => {},
            Some(m) => match rows_of(tabs, sheet) {
                None => {},
                Some(rows) => {
                    let base = crate::audit::column_base(rows, m, col);
                    if base.len() > 0 {
                        lemma_dup_rows_flags(st, rows, key, sheet, col, m, base, rows.len() as int);
                    }
                },
            },
        }
        assert(keeps);
        assert forall|c: int, i: int|
            0 <= c < cols.len() && (#[trigger] member_malformed(tabs, key, cols[c].0, cols[c].1, i)) implies flags(
                out.hits,
                cols[c].0,
                cols[c].1,
                (i + 1 + meta_of(cols[c].0)->0.row_offset) as i32,
                "malformed_cell"@,
            ) by {
            if c < cols.len() - 1 {
                assert(cols[c] == d[c]);
                assert(member_malformed(tabs, key, d[c].0, d[c].1, i));
                assert(flags(
                    st.hits,
                    d[c].0,
                    d[c].1,
                    (i + 1 + meta_of(d[c].0)->0.row_offset) as i32,
                    "malformed_cell"@,
                ));
            }
        }
        assert forall|c: int, i: int|
            0 <= c < cols.len() && (#[trigger] member_lookalike(tabs, key, cols[c].0, cols[c].1, i)) implies flags(
                out.hits,
                cols[c].0,
                cols[c].1,
                (i + 1 + meta_of(cols[c].0)->0.row_offset) as i32,
                "similar_username"@,
            ) by {
            if c < cols.len() - 1 {
                assert(cols[c] == d[c]);
                assert(member_lookalike(tabs, key, d[c].0, d[c].1, i));
                assert(flags(
                    st.hits,
                    d[c].0,
                    d[c].1,
                    (i + 1 + meta_of(d[c].0)->0.row_offset) as i32,
                    "similar_username"@,
                ));
            }
        }
    }
}

proof fn lemma_group_hits_keep(
    hits: Seq<DuplicateHitView>,
    exact: Seq<((Seq<char>, Seq<char>, Seq<char>, Seq<char>), Seq<(i32, Seq<char>, Seq<char>)>)>,
    n: int,
)
    ensures
        forall|s: Seq<char>, c: Seq<char>, w: i32, reason: Seq<char>|
            #[trigger] flags(hits, s, c, w, reason) ==> flags(all_group_hits(hits, exact, n), s, c, w, reason),
    decreases n,
{
    if n > 0 {
        lemma_group_hits_keep(hits, exact, n - 1);
        let h = all_group_hits(hits, exact, n - 1);
        let k = exact[n - 1].0;
        let es = exact[n - 1].1;
        if es.len() >= 2 {
            let reason = if crate::audit::identical_cells(es) {
                "duplicate_identical"@
            } else {
                "duplicate_conflict"@
            };
            lemma_entry_hits_keep(h, es, k.2, k.3, k.0, k.1, reason, es.len() as int);
        }
    }
}

proof fn lemma_entry_hits_keep(
    hits: Seq<DuplicateHitView>,
    es: Seq<(i32, Seq<char>, Seq<char>)>,
    category: Seq<char>,
    base: Seq<char>,
    sheet: Seq<char>,
    col: Seq<char>,
    reason: Seq<char>,
    n: int,
)
    ensures
        forall|s: Seq<char>, c: Seq<char>, w: i32, r: Seq<char>|
            #[trigger] flags(hits, s, c, w, r) ==> flags(entry_hits(hits, es, category, base, sheet, col, reason, n), s, c, w, r),
    decreases n,
{
    if n > 0 {
        lemma_entry_hits_keep(hits, es, category, base, sheet, col, reason, n - 1);
        lemma_add_hit_keeps(
            entry_hits(hits, es, category, base, sheet, col, reason, n - 1),
            make_hit(category, base, sheet, col, es[n - 1].0, es[n - 1].1, es[n - 1].2, reason),
        );
    }
}

/// The data cell at CSV index `i` of a configured column is the member's own
/// (its username is `key`) and has a format issue.
pub open spec fn member_malformed(
    tabs: Seq<(Seq<char>, Seq<Seq<Seq<char>>>)>,
    key: Seq<char>,
    sheet: Seq<char>,
    col: Seq<char>,
    i: int,
) -> bool {
    match (meta_of(sheet), rows_of(tabs, sheet)) {
        (Some(m), Some(rows)) => {
            let cell = clean(cell_at(rows, i, col_index(col)));
            &&& crate::audit::column_base(rows, m, col).len() > 0
            &&& m.data_start_row - 1 <= i < rows.len()
            &&& 0 <= i
            &&& cell.len() > 0
            &&& username_key(cell) == Some(key)
            &&& format_issues(cell).len() > 0
        },
        _ => false,
    }
}

/// The data cell at CSV index `i` of a configured column names another member
/// whose username looks like a typo of `key`.
pub open spec fn member_lookalike(
    tabs: Seq<(Seq<char>, Seq<Seq<Seq<char>>>)>,
    key: Seq<char>,
    sheet: Seq<char>,
    col: Seq<char>,
    i: int,
) -> bool {
    match (meta_of(sheet), rows_of(tabs, sheet)) {
        (Some(m), Some(rows)) => {
            let cell = clean(cell_at(rows, i, col_index(col)));
            &&& crate::audit::column_base(rows, m, col).len() > 0
            &&& m.data_start_row - 1 <= i < rows.len()
            &&& 0 <= i
            &&& cell.len() > 0
            &&& lookalike(cell, key)
        },
        _ => false,
    }
}

/// Looking up a member reports each cell of a configured award column that
/// names another member whose username looks like a typo of the member's: a
/// hit with reason `similar_username` names that cell's tab, column and sheet
/// row.
pub proof fn law_lookalike_cells_are_reported(
    tabs: Seq<(Seq<char>, Seq<Seq<Seq<char>>>)>,
    cols: Seq<(Seq<char>, Seq<char>)>,
    username: Seq<char>,
    c: int,
    i: int,
)
    requires
        0 <= c < cols.len(),
        crate::index::lookup_key(username).len() > 0,
        member_lookalike(tabs, crate::index::lookup_key(username), cols[c].0, cols[c].1, i),
    ensures
        flags(
            duplicates_for(tabs, cols, username),
            cols[c].0,
            cols[c].1,
            (i + 1 + meta_of(cols[c].0)->0.row_offset) as i32,
            "similar_username"@,
        ),
{
    let key = crate::index::lookup_key(username);
    let st = dup_columns(tabs, key, cols);
    lemma_dup_columns_flags(tabs, key, cols);
    let row = (i + 1 + meta_of(cols[c].0)->0.row_offset) as i32;
    assert(flags(st.hits, cols[c].0, cols[c].1, row, "similar_username"@));
    lemma_group_hits_keep(st.hits, st.exact, st.exact.len() as int);
    let all = all_group_hits(st.hits, st.exact, st.exact.len() as int);
    assert(flags(all, cols[c].0, cols[c].1, row, "similar_username"@));
    let j = choose|j: int|
        0 <= j < all.len() && (#[trigger] all[j]).sheet == cols[c].0 && all[j].col == cols[c].1 && all[j].row == row
            && all[j].reason == "similar_username"@;
    crate::laws::lemma_sorted_keeps(all, crate::sort::order_of::<DuplicateHit, HitOrder>());
    let r = duplicates_for(tabs, cols, username);
    assert(r.contains(all[j]));
    let q = choose|q: int| 0 <= q < r.len() && r[q] == all[j];
    assert(r[q].sheet == cols[c].0);
}

/// Looking up a member reports each of the member's own cells that has a
/// format issue: for every data cell of a configured award column whose
/// username is the member's and which is malformed, a hit with reason
/// `malformed_cell` names that cell's tab, column and sheet row.
pub proof fn law_member_malformed_cells_are_reported(
    tabs: Seq<(Seq<char>, Seq<Seq<Seq<char>>>)>,
    cols: Seq<(Seq<char>, Seq<char>)>,
    username: Seq<char>,
    c: int,
    i: int,
)
    requires
        0 <= c < cols.len(),
        crate::index::lookup_key(username).len() > 0,
        member_malformed(tabs, crate::index::lookup_key(username), cols[c].0, cols[c].1, i),
    ensures
        flags(
            duplicates_for(tabs, cols, username),
            cols[c].0,
            cols[c].1,
            (i + 1 + meta_of(cols[c].0)->0.row_offset) as i32,
            "malformed_cell"@,
        ),
{
    let key = crate::index::lookup_key(username);
    let st = dup_columns(tabs, key, cols);
    lemma_dup_columns_flags(tabs, key, cols);
    let row = (i + 1 + meta_of(cols[c].0)->0.row_offset) as i32;
    assert(flags(st.hits, cols[c].0, cols[c].1, row, "malformed_cell"@));
    lemma_group_hits_keep(st.hits, st.exact, st.exact.len() as int);
    let all = all_group_hits(st.hits, st.exact, st.exact.len() as int);
    assert(flags(all, cols[c].0, cols[c].1, row, "malformed_cell"@));
    let j = choose|j: int|
        0 <= j < all.len() && (#[trigger] all[j]).sheet == cols[c].0 && all[j].col == cols[c].1 && all[j].row == row
            && all[j].reason == "malformed_cell"@;
    crate::laws::lemma_sorted_keeps(all, crate::sort::order_of::<DuplicateHit, HitOrder>());
    let r = duplicates_for(tabs, cols, username);
    assert(r.contains(all[j]));
    let q = choose|q: int| 0 <= q < r.len() && r[q] == all[j];
    assert(r[q].sheet == cols[c].0);
}

// ---------------------------------------------------------------------------
// Identical copies differ at most in letter case
// ---------------------------------------------------------------------------

/// Every cell of the rows reads the same once ASCII letters are lower-cased.
pub open spec fn same_ignoring_case(rows: Seq<(i32, Seq<char>)>) -> bool {
    forall|a: int, b: int|
        0 <= a < rows.len() && 0 <= b < rows.len() ==> crate::text::lower_seq(#[trigger] rows[a].1)
            == crate::text::lower_seq(#[trigger] rows[b].1)
}

/// A duplicate group of the audit is "identical" exactly when all its cells are
/// equal after ASCII lower-casing, and "conflict" otherwise; so cells that
/// differ only in letter case are identical copies.
pub proof fn law_identical_groups_ignore_case(
    tabs: Seq<(Seq<char>, Seq<Seq<Seq<char>>>)>,
    cols: Seq<(Seq<char>, Seq<char>)>,
    i: int,
)
    requires
        0 <= i < crate::audit::sheet_audit(tabs, cols).groups.len(),
    ensures
        ({
            let g = crate::audit::sheet_audit(tabs, cols).groups[i];
            &&& g.kind == "identical"@ <==> same_ignoring_case(g.rows)
            &&& g.kind == "conflict"@ <==> !same_ignoring_case(g.rows)
        }),
{
    crate::laws::law_one_group_per_column_and_member(tabs, cols);
    let g = crate::audit::sheet_audit(tabs, cols).groups[i];
    let scan = crate::audit::audit_columns(tabs, cols).by_col;
    let c = crate::types::key_pos(scan, crate::laws::group_column(g))->0;
    assert(g == crate::laws::group_for(scan[c].0, g.user, g.rows));
    assert(crate::audit::identical_rows(g.rows) == same_ignoring_case(g.rows));
    reveal_strlit("identical");
    reveal_strlit("conflict");
    assert("identical"@ != "conflict"@) by {
        assert("identical"@[0] != "conflict"@[0]);
    }
}

// ---------------------------------------------------------------------------
// A ribbon's device is shown after its name
// ---------------------------------------------------------------------------

/// A ribbon named from a device capture `d` reads as the trimmed award name,
/// then ` ("d")`, and only then any ordinal; with no device and no count it is
/// the trimmed award name alone.
pub proof fn law_ribbon_device_follows_name(base: Seq<char>, device: Option<Seq<char>>, count: Option<Seq<char>>)
    ensures
        device matches Some(d) ==> crate::text::starts_with(
            crate::format::ribbon_name(base, device, count),
            crate::text::trim(base) + " (\""@ + d + "\")"@,
        ),
        device is None && count is None ==> crate::format::ribbon_name(base, device, count) == crate::text::trim(base),
        count is None ==> crate::format::ribbon_name(base, device, count) == crate::text::trim(base) + match device {
            Some(d) => " (\""@ + d + "\")"@,
            None => Seq::<char>::empty(),
        },
{
    let r = crate::format::ribbon_name(base, device, count);
    if let Some(d) = device {
        let p = crate::text::trim(base) + " (\""@ + d + "\")"@;
        assert(r.subrange(0, p.len() as int) =~= p);
    } else {
        assert(crate::text::trim(base) + Seq::<char>::empty() =~= crate::text::trim(base));
    }
}

/// Naming a ribbon cell that carries a device note `- "D"` puts ` ("D")` right
/// after the trimmed award name.
pub proof fn law_ribbon_cell_shows_its_device(category: Seq<char>, base: Seq<char>, cell: Seq<char>, d: Seq<char>)
    requires
        category != "badges"@,
        crate::text::trim(base).len() > 0,
        crate::format::group1(crate::trusted::RIBBON_DEVICE@, cell) == Some(d),
    ensures
        crate::format::award_display_name(category, Some(base), cell) matches Some(name) && crate::text::starts_with(
            name,
            crate::text::trim(base) + " (\""@ + d + "\")"@,
        ),
{
    crate::laws::lemma_trim_idempotent(base);
    law_ribbon_device_follows_name(
        crate::text::trim(base),
        Some(d),
        crate::format::group1(crate::trusted::AWARD_COUNT@, cell),
    );
}

// ---------------------------------------------------------------------------
// Awards are listed by category, then by name
// ---------------------------------------------------------------------------

proof fn lemma_award_order_total()
    ensures
        crate::sort::total_preorder(crate::sort::order_of::<crate::types::Award, crate::index::ByCategoryThenName>()),
{
    let le = crate::sort::order_of::<crate::types::Award, crate::index::ByCategoryThenName>();
    assert forall|a: crate::types::AwardView, b: crate::types::AwardView| #[trigger] le(a, b) || le(b, a) by {
        crate::text::lemma_seq_le_total(crate::text::lower_seq(a.name), crate::text::lower_seq(b.name));
    }
    assert forall|a: crate::types::AwardView, b: crate::types::AwardView, c: crate::types::AwardView|
        #[trigger] le(a, b) && #[trigger] le(b, c) implies le(a, c) by {
        let la = crate::text::lower_seq(a.name);
        let lb = crate::text::lower_seq(b.name);
        let lc = crate::text::lower_seq(c.name);
        if crate::text::seq_le(la, lb) && crate::text::seq_le(lb, lc) {
            crate::text::lemma_seq_le_trans(la, lb, lc);
        }
    }
}

/// Listing awards keeps every award and orders them by category (badges,
/// ribbons, foreign, then the rest), and within a category by name with ASCII
/// case ignored.
pub proof fn law_awards_listed_by_category_then_name(awards: Seq<crate::types::AwardView>)
    ensures
        ({
            let r = crate::sort::sorted_stable(awards, crate::sort::order_of::<crate::types::Award, crate::index::ByCategoryThenName>());
            &&& r.len() == awards.len()
            &&& forall|i: int| 0 <= i < r.len() ==> awards.contains(#[trigger] r[i])
            &&& forall|i: int| 0 <= i < awards.len() ==> r.contains(#[trigger] awards[i])
            &&& forall|i: int, j: int|
                0 <= i < j < r.len() ==> crate::meta::category_rank(#[trigger] r[i].category) <= crate::meta::category_rank(
                    #[trigger] r[j].category,
                )
            &&& forall|i: int, j: int|
                0 <= i < j < r.len() && crate::meta::category_rank(r[i].category) == crate::meta::category_rank(
                    r[j].category,
                ) ==> crate::text::seq_le(
                    crate::text::lower_seq(#[trigger] r[i].name),
                    crate::text::lower_seq(#[trigger] r[j].name),
                )
        }),
{
    let le = crate::sort::order_of::<crate::types::Award, crate::index::ByCategoryThenName>();
    let r = crate::sort::sorted_stable(awards, le);
    crate::sort::lemma_sorted_members(awards, le);
    crate::laws::lemma_sorted_keeps(awards, le);
    lemma_award_order_total();
    crate::sort::lemma_sorted_stable_is_sorted(awards, le);
    assert forall|i: int, j: int| 0 <= i < j < r.len() implies crate::meta::category_rank(#[trigger] r[i].category)
        <= crate::meta::category_rank(#[trigger] r[j].category) by {
        assert(le(r[i], r[j]));
    }
    assert forall|i: int, j: int|
        0 <= i < j < r.len() && crate::meta::category_rank(r[i].category) == crate::meta::category_rank(r[j].category)
            implies crate::text::seq_le(
            crate::text::lower_seq(#[trigger] r[i].name),
            crate::text::lower_seq(#[trigger] r[j].name),
        ) by {
        assert(le(r[i], r[j]));
    }
}

// ---------------------------------------------------------------------------
// Which line of a pasted request gives the award
// ---------------------------------------------------------------------------

/// The label of a `Label: value` line, lower-cased after its emphasis is
/// stripped.
pub open spec fn line_label(line: Seq<char>) -> Option<Seq<char>> {
    match crate::parse::labeled_line(line) {
        Some((l, _)) => Some(crate::text::lower_seq(crate::parse::without_artifacts(l))),
        None => None,
    }
}

/// The value of a `Label: value` line with its emphasis stripped.
pub open spec fn line_value(line: Seq<char>) -> Seq<char> {
    match crate::parse::labeled_line(line) {
        Some((_, v)) => crate::parse::without_artifacts(v),
        None => Seq::empty(),
    }
}

/// The labels under which a request names its award.
pub open spec fn requests_award(line: Seq<char>) -> bool {
    line_label(line) matches Some(l) && (l == "badge requested"@ || l == "ribbon requested"@ || l
        == "award requested"@)
}

proof fn lemma_award_labels_are_not_usernames(l: Seq<char>)
    requires
        l == "badge requested"@ || l == "ribbon requested"@ || l == "award requested"@,
    ensures
        !crate::parse::is_username_label(l),
        crate::parse::is_award_label(l),
{
    reveal_strlit("badge requested");
    reveal_strlit("ribbon requested");
    reveal_strlit("award requested");
    reveal_strlit("roblox username");
    reveal_strlit("username");
    assert("roblox username"@[0] == 'r');
    if l == "badge requested"@ {
        assert(l[0] == 'b');
    } else if l == "ribbon requested"@ {
        assert(l.len() == 16);
    } else {
        assert(l[0] == 'a');
    }
    assert(l != "roblox username"@);
    assert(l.len() != "username"@.len());
}

proof fn lemma_scan_keeps_award(lines: Seq<Seq<char>>, st: crate::parse::PasteScan)
    requires
        st.3,
    ensures
        crate::parse::paste_scan(lines, st).2 == st.2,
    decreases lines.len(),
{
    if !(lines.len() == 0 || (st.1 && st.3)) {
        lemma_scan_keeps_award(lines.drop_first(), crate::parse::paste_step(lines[0], st));
    }
}

proof fn lemma_scan_finds_award(lines: Seq<Seq<char>>, st: crate::parse::PasteScan, k: int)
    requires
        !st.3,
        0 <= k < lines.len(),
        requests_award(lines[k]),
        forall|j: int| 0 <= j < k ==> !requests_award(#[trigger] lines[j]),
    ensures
        crate::parse::paste_scan(lines, st).2 == if line_value(lines[k]).len() > 0 {
            Some(line_value(lines[k]))
        } else {
            None
        },
    decreases k,
{
    let next = crate::parse::paste_step(lines[0], st);
    assert(crate::parse::paste_scan(lines, st) == crate::parse::paste_scan(lines.drop_first(), next));
    if k == 0 {
        let l = line_label(lines[0])->0;
        lemma_award_labels_are_not_usernames(l);
        lemma_scan_keeps_award(lines.drop_first(), next);
    } else {
        if let Some(l) = line_label(lines[0]) {
            assert(!(l == "badge requested"@ || l == "ribbon requested"@ || l == "award requested"@));
            assert(!crate::parse::is_award_label(l));
        }
        assert(!next.3);
        assert forall|j: int| 0 <= j < k - 1 implies !requests_award(#[trigger] lines.drop_first()[j]) by {
            assert(lines.drop_first()[j] == lines[j + 1]);
        }
        lemma_scan_finds_award(lines.drop_first(), next, k - 1);
    }
}

proof fn lemma_scan_no_award(lines: Seq<Seq<char>>, st: crate::parse::PasteScan)
    requires
        !st.3,
        st.2 is None,
        forall|j: int| 0 <= j < lines.len() ==> !requests_award(#[trigger] lines[j]),
    ensures
        crate::parse::paste_scan(lines, st).2 is None,
    decreases lines.len(),
{
    if lines.len() > 0 {
        let next = crate::parse::paste_step(lines[0], st);
        if let Some(l) = line_label(lines[0]) {
            assert(!requests_award(lines[0]));
            assert(!crate::parse::is_award_label(l));
        }
        assert forall|j: int| 0 <= j < lines.len() - 1 implies !requests_award(#[trigger] lines.drop_first()[j]) by {
            assert(lines.drop_first()[j] == lines[j + 1]);
        }
        lemma_scan_no_award(lines.drop_first(), next);
    }
}

/// A pasted request's award text comes from its first line labelled "Badge
/// Requested", "Ribbon Requested" or "Award Requested" (any case, emphasis
/// stripped): that line's value when it is not empty, else none; a request with
/// no such line gives none.
pub proof fn law_first_award_line_gives_the_award(raw: Seq<char>, k: int)
    ensures
        ({
            let lines = crate::parse::paste_lines(raw);
            &&& 0 <= k < lines.len() && requests_award(lines[k]) && (forall|j: int|
                0 <= j < k ==> !requests_award(#[trigger] lines[j])) ==> crate::parse::extracted(raw).1 == if line_value(
                lines[k],
            ).len() > 0 {
                Some(line_value(lines[k]))
            } else {
                None
            }
            &&& (forall|j: int| 0 <= j < lines.len() ==> !requests_award(#[trigger] lines[j])) ==> crate::parse::extracted(
                raw,
            ).1 is None
        }),
{
    let lines = crate::parse::paste_lines(raw);
    let st: crate::parse::PasteScan = (None, false, None, false);
    if 0 <= k < lines.len() && requests_award(lines[k]) && (forall|j: int| 0 <= j < k ==> !requests_award(#[trigger] lines[j])) {
        lemma_scan_finds_award(lines, st, k);
    }
    if forall|j: int| 0 <= j < lines.len() ==> !requests_award(#[trigger] lines[j]) {
        lemma_scan_no_award(lines, st);
    }
}

/// The labels under which a request names its member.
pub open spec fn names_member(line: Seq<char>) -> bool {
    line_label(line) matches Some(l) && (l == "roblox username"@ || l == "username"@)
}

/// A value that is a bare username (an optional `@`, then word characters
/// only), without its `@`.
pub open spec fn bare_value(value: Seq<char>) -> Option<Seq<char>> {
    let body = crate::trusted::drop_at_sign(clean(value));
    if body.len() > 0 && forall|i: int| 0 <= i < body.len() ==> crate::text::is_word(#[trigger] body[i]) {
        Some(body)
    } else {
        None
    }
}

proof fn lemma_scan_keeps_member(lines: Seq<Seq<char>>, st: crate::parse::PasteScan)
    requires
        st.1,
    ensures
        crate::parse::paste_scan(lines, st).0 == st.0,
    decreases lines.len(),
{
    if !(lines.len() == 0 || (st.1 && st.3)) {
        lemma_scan_keeps_member(lines.drop_first(), crate::parse::paste_step(lines[0], st));
    }
}

proof fn lemma_scan_finds_member(lines: Seq<Seq<char>>, st: crate::parse::PasteScan, k: int)
    requires
        !st.1,
        0 <= k < lines.len(),
        names_member(lines[k]),
        forall|j: int| 0 <= j < k ==> !names_member(#[trigger] lines[j]),
    ensures
        crate::parse::paste_scan(lines, st).0 == bare_value(line_value(lines[k])),
    decreases k,
{
    let next = crate::parse::paste_step(lines[0], st);
    assert(crate::parse::paste_scan(lines, st) == crate::parse::paste_scan(lines.drop_first(), next));
    if k == 0 {
        let l = line_label(lines[0])->0;
        reveal_strlit("roblox username");
        reveal_strlit("username");
        assert(crate::parse::is_username_label(l));
        let v = line_value(lines[0]);
        let t = clean(v);
        let body = crate::trusted::drop_at_sign(t);
        if !(body.len() > 0 && crate::text::all_word(body)) && body.len() > 0 {
            let i = choose|i: int| 0 <= i < body.len() && !crate::text::is_word(#[trigger] body[i]);
        }
        assert(crate::parse::bare_name(v) == bare_value(v));
        lemma_scan_keeps_member(lines.drop_first(), next);
    } else {
        if let Some(l) = line_label(lines[0]) {
            assert(!(l == "roblox username"@ || l == "username"@));
            assert(!crate::parse::is_username_label(l));
        }
        assert(!next.1);
        assert forall|j: int| 0 <= j < k - 1 implies !names_member(#[trigger] lines.drop_first()[j]) by {
            assert(lines.drop_first()[j] == lines[j + 1]);
        }
        lemma_scan_finds_member(lines.drop_first(), next, k - 1);
    }
}

/// A pasted request's member comes from its first line labelled "ROBLOX
/// Username" or "Username" (any case, emphasis stripped): the value when it is
/// a bare username (without its `@`), else none.
pub proof fn law_first_member_line_gives_the_member(raw: Seq<char>, k: int)
    ensures
        ({
            let lines = crate::parse::paste_lines(raw);
            0 <= k < lines.len() && names_member(lines[k]) && (forall|j: int|
                0 <= j < k ==> !names_member(#[trigger] lines[j])) ==> crate::parse::extracted(raw).0 == bare_value(
                line_value(lines[k]),
            )
        }),
{
    let lines = crate::parse::paste_lines(raw);
    if 0 <= k < lines.len() && names_member(lines[k]) && (forall|j: int| 0 <= j < k ==> !names_member(#[trigger] lines[j])) {
        lemma_scan_finds_member(lines, (None, false, None, false), k);
    }
}

// ---------------------------------------------------------------------------
// A member's repeated cells in one column are reported as duplicates
// ---------------------------------------------------------------------------

/// The values filed under `k` (none when `k` is absent).
pub open spec fn bucket<K, V>(m: Seq<(K, Seq<V>)>, k: K) -> Seq<V> {
    match crate::types::key_pos(m, k) {
        Some(p) => m[p].1,
        None => Seq::empty(),
    }
}

proof fn lemma_add_to_bucket<K, V>(m: Seq<(K, Seq<V>)>, k: K, v: V)
    requires
        crate::laws::firsts_distinct(m),
    ensures
        crate::laws::firsts_distinct(crate::audit::add_to(m, k, v)),
        bucket(crate::audit::add_to(m, k, v), k) == bucket(m, k).push(v),
        forall|k2: K| k2 != k ==> #[trigger] bucket(crate::audit::add_to(m, k, v), k2) == bucket(m, k2),
{
    crate::laws::lemma_add_to_shape(m, k, v);
    let r = crate::audit::add_to(m, k, v);
    crate::types::lemma_key_pos(m, k);
    crate::types::lemma_key_pos(r, k);
    match crate::types::key_pos(m, k) {
        Some(p) => {
            crate::laws::lemma_firsts_key_pos(r, p);
        },
        None => {
            crate::laws::lemma_firsts_key_pos(r, m.len() as int);
        },
    }
    assert forall|k2: K| k2 != k implies #[trigger] bucket(r, k2) == bucket(m, k2) by {
        crate::types::lemma_key_pos(m, k2);
        match crate::types::key_pos(m, k2) {
            Some(p) => {
                crate::laws::lemma_firsts_key_pos(r, p);
                assert(r[p] == m[p]);
            },
            None => {
                crate::types::lemma_key_pos(r, k2);
                if let Some(q) = crate::types::key_pos(r, k2) {
                    if q < m.len() {
                        assert(r[q].0 == m[q].0);
                    }
                }
            },
        }
    }
}

/// CSV index `i` of the column holds a cell of the member `key`.
pub open spec fn member_row(rows: Seq<Seq<Seq<char>>>, m: SheetMetaView, col: Seq<char>, key: Seq<char>, i: int) -> bool {
    &&& m.data_start_row - 1 <= i < rows.len()
    &&& 0 <= i
    &&& clean(cell_at(rows, i, col_index(col))).len() > 0
    &&& username_key(clean(cell_at(rows, i, col_index(col)))) == Some(key)
}

/// What the member's cell at CSV index `i` is filed as: its sheet row, the
/// cell and the member.
pub open spec fn member_entry(rows: Seq<Seq<Seq<char>>>, m: SheetMetaView, col: Seq<char>, key: Seq<char>, i: int) -> (
    i32,
    Seq<char>,
    Seq<char>,
) {
    ((i + 1 + m.row_offset) as i32, clean(cell_at(rows, i, col_index(col))), key)
}

/// The CSV index a filed entry's sheet row stands for.
pub open spec fn entry_index(m: SheetMetaView, e: (i32, Seq<char>, Seq<char>)) -> int {
    e.0 - 1 - m.row_offset
}

/// `e` is what the member's cell at its row is filed as.
pub open spec fn is_member_entry(
    rows: Seq<Seq<Seq<char>>>,
    m: SheetMetaView,
    col: Seq<char>,
    key: Seq<char>,
    e: (i32, Seq<char>, Seq<char>),
) -> bool {
    member_row(rows, m, col, key, entry_index(m, e)) && e == member_entry(rows, m, col, key, entry_index(m, e))
}

/// Scanning a column files exactly the member's cells of that column under the
/// column's key, in order, and leaves every other key's cells as they were.
proof fn lemma_dup_rows_exact(
    st0: DupState,
    rows: Seq<Seq<Seq<char>>>,
    key: Seq<char>,
    sheet: Seq<char>,
    col: Seq<char>,
    m: SheetMetaView,
    base: Seq<char>,
    r: int,
)
    requires
        crate::laws::firsts_distinct(st0.exact),
        r <= rows.len(),
        rows.len() + 9 <= i32::MAX,
        0 <= m.row_offset <= 8,
    ensures
        crate::laws::firsts_distinct(dup_rows(st0, rows, key, sheet, col, m, base, r).exact),
        forall|k2: (Seq<char>, Seq<char>, Seq<char>, Seq<char>)|
            k2 != (sheet, col, m.category, base) ==> #[trigger] bucket(dup_rows(st0, rows, key, sheet, col, m, base, r).exact, k2)
                == bucket(st0.exact, k2),
        bucket(dup_rows(st0, rows, key, sheet, col, m, base, r).exact, (sheet, col, m.category, base)).len() >= bucket(
            st0.exact,
            (sheet, col, m.category, base),
        ).len(),
        forall|q: int|
            0 <= q < bucket(st0.exact, (sheet, col, m.category, base)).len() ==> #[trigger] bucket(
                dup_rows(st0, rows, key, sheet, col, m, base, r).exact,
                (sheet, col, m.category, base),
            )[q] == bucket(st0.exact, (sheet, col, m.category, base))[q],
        forall|q: int|
            bucket(st0.exact, (sheet, col, m.category, base)).len() <= q < bucket(
                dup_rows(st0, rows, key, sheet, col, m, base, r).exact,
                (sheet, col, m.category, base),
            ).len() ==> is_member_entry(
                rows,
                m,
                col,
                key,
                #[trigger] bucket(dup_rows(st0, rows, key, sheet, col, m, base, r).exact, (sheet, col, m.category, base))[q],
            ) && entry_index(
                m,
                bucket(dup_rows(st0, rows, key, sheet, col, m, base, r).exact, (sheet, col, m.category, base))[q],
            ) < r,
        forall|i: int|
            member_row(rows, m, col, key, i) && i < r ==> bucket(
                dup_rows(st0, rows, key, sheet, col, m, base, r).exact,
                (sheet, col, m.category, base),
            ).contains(#[trigger] member_entry(rows, m, col, key, i)),
    decreases r,
{
    let k = (sheet, col, m.category, base);
    if !(r <= 0 || r <= m.data_start_row - 1) {
        lemma_dup_rows_exact(st0, rows, key, sheet, col, m, base, r - 1);
        let prev = dup_rows(st0, rows, key, sheet, col, m, base, r - 1);
        let cell = clean(cell_at(rows, r - 1, col_index(col)));
        let row = (r + m.row_offset) as i32;
        let st = dup_rows(st0, rows, key, sheet, col, m, base, r);
        assert(st == dup_cell(prev, key, sheet, col, m, base, cell, row));
        let bp = bucket(prev.exact, k);
        let b = bucket(st.exact, k);
        if cell.len() > 0 && username_key(cell) == Some(key) {
            let e = (row, cell, key);
            assert(st.exact == crate::audit::add_to(prev.exact, k, e));
            lemma_add_to_bucket(prev.exact, k, e);
            assert(row == r + m.row_offset);
            assert(entry_index(m, e) == r - 1);
            assert(member_row(rows, m, col, key, r - 1));
            assert(is_member_entry(rows, m, col, key, e));
            assert(b[bp.len() as int] == e);
            assert forall|i: int| member_row(rows, m, col, key, i) && i < r implies b.contains(
                #[trigger] member_entry(rows, m, col, key, i),
            ) by {
                if i < r - 1 {
                    assert(bp.contains(member_entry(rows, m, col, key, i)));
                    let q = choose|q: int| 0 <= q < bp.len() && bp[q] == member_entry(rows, m, col, key, i);
                    assert(b[q] == bp[q]);
                }
            }
        } else {
            assert(st.exact == prev.exact);
            assert forall|i: int| member_row(rows, m, col, key, i) && i < r implies b.contains(
                #[trigger] member_entry(rows, m, col, key, i),
            ) by {
                assert(i != r - 1);
            }
        }
    }
}

/// No award column is configured twice.
pub open spec fn columns_once(cols: Seq<(Seq<char>, Seq<char>)>) -> bool {
    forall|a: int, b: int| 0 <= a < b < cols.len() ==> #[trigger] cols[a] != #[trigger] cols[b]
}

/// The key a scanned column files its member cells under.
pub open spec fn column_key(tabs: Seq<(Seq<char>, Seq<Seq<Seq<char>>>)>, sheet: Seq<char>, col: Seq<char>) -> (
    Seq<char>,
    Seq<char>,
    Seq<char>,
    Seq<char>,
) {
    let m = meta_of(sheet)->0;
    let rows = rows_of(tabs, sheet)->0;
    (sheet, col, m.category, crate::audit::column_base(rows, m, col))
}

/// The column is scanned: a known tab that was fetched, with rows that can be
/// numbered, and an award name in its header.
pub open spec fn scanned(tabs: Seq<(Seq<char>, Seq<Seq<Seq<char>>>)>, sheet: Seq<char>, col: Seq<char>) -> bool {
    &&& meta_of(sheet) is Some
    &&& rows_of(tabs, sheet) is Some
    &&& crate::audit::column_base(rows_of(tabs, sheet)->0, meta_of(sheet)->0, col).len() > 0
}

proof fn lemma_rows_fit(tabs: Seq<(Seq<char>, Seq<Seq<Seq<char>>>)>, sheet: Seq<char>)
    requires
        crate::audit::rows_fit(tabs),
    ensures
        rows_of(tabs, sheet) matches Some(rows) ==> rows.len() + 9 <= i32::MAX,
{
    crate::types::lemma_key_pos(tabs, sheet);
    if let Some(p) = crate::types::key_pos(tabs, sheet) {
        assert(rows_of(tabs, sheet) == Some(tabs[p].1));
        assert(tabs[p].1.len() + 9 <= i32::MAX);
    }
}

proof fn lemma_dup_columns_exact(
    tabs: Seq<(Seq<char>, Seq<Seq<Seq<char>>>)>,
    key: Seq<char>,
    cols: Seq<(Seq<char>, Seq<char>)>,
)
    requires
        columns_once(cols),
        crate::audit::rows_fit(tabs),
    ensures
        crate::laws::firsts_distinct(dup_columns(tabs, key, cols).exact),
        forall|k2: (Seq<char>, Seq<char>, Seq<char>, Seq<char>)|
            (forall|c: int| 0 <= c < cols.len() ==> #[trigger] cols[c] != (k2.0, k2.1)) ==> #[trigger] bucket(
                dup_columns(tabs, key, cols).exact,
                k2,
            ).len() == 0,
        forall|c: int, q: int|
            0 <= c < cols.len() && scanned(tabs, cols[c].0, cols[c].1) && 0 <= q < bucket(
                dup_columns(tabs, key, cols).exact,
                column_key(tabs, cols[c].0, cols[c].1),
            ).len() ==> is_member_entry(
                rows_of(tabs, cols[c].0)->0,
                meta_of(cols[c].0)->0,
                cols[c].1,
                key,
                #[trigger] bucket(dup_columns(tabs, key, cols).exact, column_key(tabs, cols[c].0, cols[c].1))[q],
            ),
        forall|c: int, i: int|
            0 <= c < cols.len() && scanned(tabs, cols[c].0, cols[c].1) && member_row(
                rows_of(tabs, cols[c].0)->0,
                meta_of(cols[c].0)->0,
                cols[c].1,
                key,
                i,
            ) ==> bucket(dup_columns(tabs, key, cols).exact, column_key(tabs, cols[c].0, cols[c].1)).contains(
                #[trigger] member_entry(rows_of(tabs, cols[c].0)->0, meta_of(cols[c].0)->0, cols[c].1, key, i),
            ),
    decreases cols.len(),
{
    if cols.len() > 0 {
        let d = cols.drop_last();
        assert(columns_once(d)) by {
            assert forall|a: int, b: int| 0 <= a < b < d.len() implies #[trigger] d[a] != #[trigger] d[b] by {
                assert(d[a] == cols[a] && d[b] == cols[b]);
            }
        }
        lemma_dup_columns_exact(tabs, key, d);
        let st = dup_columns(tabs, key, d);
        let sheet = cols.last().0;
        let col = cols.last().1;
        let out = dup_columns(tabs, key, cols);
        assert(out == dup_column(st, tabs, key, sheet, col));
        assert forall|c: int| 0 <= c < d.len() implies #[trigger] d[c] != (sheet, col) by {
            assert(cols[c] != cols[cols.len() - 1]);
        }
        if scanned(tabs, sheet, col) {
            let m = meta_of(sheet)->0;
            let rows = rows_of(tabs, sheet)->0;
            let base = crate::audit::column_base(rows, m, col);
            let k = (sheet, col, m.category, base);
            lemma_rows_fit(tabs, sheet);
            assert(out == dup_rows(st, rows, key, sheet, col, m, base, rows.len() as int));
            lemma_dup_rows_exact(st, rows, key, sheet, col, m, base, rows.len() as int);
            assert(bucket(st.exact, k).len() == 0);
            assert forall|k2: (Seq<char>, Seq<char>, Seq<char>, Seq<char>)|
                (forall|c: int| 0 <= c < cols.len() ==> #[trigger] cols[c] != (k2.0, k2.1)) implies #[trigger] bucket(
                    out.exact,
                    k2,
                ).len() == 0 by {
                assert(cols[cols.len() - 1] != (k2.0, k2.1));
                assert(k2 != k);
                assert forall|c: int| 0 <= c < d.len() implies #[trigger] d[c] != (k2.0, k2.1) by {
                    assert(d[c] == cols[c]);
                }
            }
            assert forall|c: int, q: int|
                0 <= c < cols.len() && scanned(tabs, cols[c].0, cols[c].1) && 0 <= q < bucket(
                    out.exact,
                    column_key(tabs, cols[c].0, cols[c].1),
                ).len() implies is_member_entry(
                rows_of(tabs, cols[c].0)->0,
                meta_of(cols[c].0)->0,
                cols[c].1,
                key,
                #[trigger] bucket(out.exact, column_key(tabs, cols[c].0, cols[c].1))[q],
            ) by {
                if c < cols.len() - 1 {
                    assert(cols[c] == d[c]);
                    assert(column_key(tabs, cols[c].0, cols[c].1) != k);
                }
            }
            assert forall|c: int, i: int|
                0 <= c < cols.len() && scanned(tabs, cols[c].0, cols[c].1) && member_row(
                    rows_of(tabs, cols[c].0)->0,
                    meta_of(cols[c].0)->0,
                    cols[c].1,
                    key,
                    i,
                ) implies bucket(out.exact, column_key(tabs, cols[c].0, cols[c].1)).contains(
                #[trigger] member_entry(rows_of(tabs, cols[c].0)->0, meta_of(cols[c].0)->0, cols[c].1, key, i),
            ) by {
                if c < cols.len() - 1 {
                    assert(cols[c] == d[c]);
                    assert(column_key(tabs, cols[c].0, cols[c].1) != k);
                }
            }
        } else {
            if meta_of(sheet) is Some && rows_of(tabs, sheet) is Some {
                let m = meta_of(sheet)->0;
                let rows = rows_of(tabs, sheet)->0;
                assert(crate::audit::column_base(rows, m, col).len() == 0);
            }
            assert(out.exact == st.exact);
            assert forall|k2: (Seq<char>, Seq<char>, Seq<char>, Seq<char>)|
                (forall|c: int| 0 <= c < cols.len() ==> #[trigger] cols[c] != (k2.0, k2.1)) implies #[trigger] bucket(
                    out.exact,
                    k2,
                ).len() == 0 by {
                assert forall|c: int| 0 <= c < d.len() implies #[trigger] d[c] != (k2.0, k2.1) by {
                    assert(d[c] == cols[c]);
                }
            }
            assert forall|c: int, q: int|
                0 <= c < cols.len() && scanned(tabs, cols[c].0, cols[c].1) && 0 <= q < bucket(
                    out.exact,
                    column_key(tabs, cols[c].0, cols[c].1),
                ).len() implies is_member_entry(
                rows_of(tabs, cols[c].0)->0,
                meta_of(cols[c].0)->0,
                cols[c].1,
                key,
                #[trigger] bucket(out.exact, column_key(tabs, cols[c].0, cols[c].1))[q],
            ) by {
                assert(c < cols.len() - 1);
                assert(cols[c] == d[c]);
            }
            assert forall|c: int, i: int|
                0 <= c < cols.len() && scanned(tabs, cols[c].0, cols[c].1) && member_row(
                    rows_of(tabs, cols[c].0)->0,
                    meta_of(cols[c].0)->0,
                    cols[c].1,
                    key,
                    i,
                ) implies bucket(out.exact, column_key(tabs, cols[c].0, cols[c].1)).contains(
                #[trigger] member_entry(rows_of(tabs, cols[c].0)->0, meta_of(cols[c].0)->0, cols[c].1, key, i),
            ) by {
                assert(c < cols.len() - 1);
                assert(cols[c] == d[c]);
            }
        }
    }
}

proof fn lemma_entry_hits_flag(
    hits: Seq<DuplicateHitView>,
    es: Seq<(i32, Seq<char>, Seq<char>)>,
    category: Seq<char>,
    base: Seq<char>,
    sheet: Seq<char>,
    col: Seq<char>,
    reason: Seq<char>,
    n: int,
)
    requires
        n <= es.len(),
    ensures
        forall|q: int| 0 <= q < n ==> flags(entry_hits(hits, es, category, base, sheet, col, reason, n), sheet, col, #[trigger] es[q].0, reason),
    decreases n,
{
    if n > 0 {
        lemma_entry_hits_flag(hits, es, category, base, sheet, col, reason, n - 1);
        let h = entry_hits(hits, es, category, base, sheet, col, reason, n - 1);
        let x = make_hit(category, base, sheet, col, es[n - 1].0, es[n - 1].1, es[n - 1].2, reason);
        lemma_add_hit_keeps(h, x);
        assert forall|q: int| 0 <= q < n implies flags(entry_hits(hits, es, category, base, sheet, col, reason, n), sheet, col, #[trigger] es[q].0, reason) by {
            if q < n - 1 {
                assert(flags(h, sheet, col, es[q].0, reason));
            }
        }
    }
}

/// The reason a member's repeated cells are flagged for.
pub open spec fn duplicate_reason(es: Seq<(i32, Seq<char>, Seq<char>)>) -> Seq<char> {
    if crate::audit::identical_cells(es) {
        "duplicate_identical"@
    } else {
        "duplicate_conflict"@
    }
}

proof fn lemma_all_group_hits_flag(
    hits: Seq<DuplicateHitView>,
    exact: Seq<((Seq<char>, Seq<char>, Seq<char>, Seq<char>), Seq<(i32, Seq<char>, Seq<char>)>)>,
    n: int,
    p: int,
    q: int,
)
    requires
        0 <= p < n <= exact.len(),
        exact[p].1.len() >= 2,
        0 <= q < exact[p].1.len(),
    ensures
        flags(all_group_hits(hits, exact, n), exact[p].0.0, exact[p].0.1, exact[p].1[q].0, duplicate_reason(exact[p].1)),
    decreases n,
{
    let h = all_group_hits(hits, exact, n - 1);
    if p < n - 1 {
        lemma_all_group_hits_flag(hits, exact, n - 1, p, q);
        lemma_group_hits_keep(hits, exact, n);
        let k = exact[n - 1].0;
        let es = exact[n - 1].1;
        if es.len() >= 2 {
            let reason = if crate::audit::identical_cells(es) {
                "duplicate_identical"@
            } else {
                "duplicate_conflict"@
            };
            lemma_entry_hits_keep(h, es, k.2, k.3, k.0, k.1, reason, es.len() as int);
        }
    } else {
        let k = exact[p].0;
        let es = exact[p].1;
        lemma_entry_hits_flag(h, es, k.2, k.3, k.0, k.1, duplicate_reason(es), es.len() as int);
    }
}

/// Every member cell of the column reads the same once ASCII letters are
/// lower-cased.
pub open spec fn member_cells_same_case(rows: Seq<Seq<Seq<char>>>, m: SheetMetaView, col: Seq<char>, key: Seq<char>) -> bool {
    forall|a: int, b: int|
        member_row(rows, m, col, key, a) && member_row(rows, m, col, key, b) ==> crate::text::lower_seq(
            clean(#[trigger] cell_at(rows, a, col_index(col))),
        ) == crate::text::lower_seq(clean(#[trigger] cell_at(rows, b, col_index(col))))
}

/// Looking up a member who has two or more cells in one configured award
/// column reports each of those cells: as an identical copy when all of the
/// member's cells there read the same with ASCII case ignored, else as a
/// conflicting row. (A column configured twice is left out: its cells would be
/// scanned twice.)
pub proof fn law_member_duplicates_are_reported(
    tabs: Seq<(Seq<char>, Seq<Seq<Seq<char>>>)>,
    cols: Seq<(Seq<char>, Seq<char>)>,
    username: Seq<char>,
    c: int,
    i1: int,
    i2: int,
)
    requires
        crate::audit::rows_fit(tabs),
        columns_once(cols),
        0 <= c < cols.len(),
        crate::index::lookup_key(username).len() > 0,
        scanned(tabs, cols[c].0, cols[c].1),
        member_row(rows_of(tabs, cols[c].0)->0, meta_of(cols[c].0)->0, cols[c].1, crate::index::lookup_key(username), i1),
        member_row(rows_of(tabs, cols[c].0)->0, meta_of(cols[c].0)->0, cols[c].1, crate::index::lookup_key(username), i2),
        i1 != i2,
    ensures
        flags(
            duplicates_for(tabs, cols, username),
            cols[c].0,
            cols[c].1,
            (i1 + 1 + meta_of(cols[c].0)->0.row_offset) as i32,
            if member_cells_same_case(rows_of(tabs, cols[c].0)->0, meta_of(cols[c].0)->0, cols[c].1, crate::index::lookup_key(username)) {
                "duplicate_identical"@
            } else {
                "duplicate_conflict"@
            },
        ),
{
    let key = crate::index::lookup_key(username);
    let sheet = cols[c].0;
    let col = cols[c].1;
    let m = meta_of(sheet)->0;
    let rows = rows_of(tabs, sheet)->0;
    lemma_rows_fit(tabs, sheet);
    let st = dup_columns(tabs, key, cols);
    lemma_dup_columns_exact(tabs, key, cols);
    let k = column_key(tabs, sheet, col);
    let es = bucket(st.exact, k);
    let e1 = member_entry(rows, m, col, key, i1);
    let e2 = member_entry(rows, m, col, key, i2);
    assert(es.contains(e1));
    assert(es.contains(e2));
    assert(e1.0 != e2.0);
    let q1 = choose|q: int| 0 <= q < es.len() && es[q] == e1;
    let q2 = choose|q: int| 0 <= q < es.len() && es[q] == e2;
    assert(es.len() >= 2);
    crate::types::lemma_key_pos(st.exact, k);
    let p = crate::types::key_pos(st.exact, k)->0;
    assert(st.exact[p].1 == es);
    assert(st.exact[p].0 == k);
    // The member's cells of the column are exactly the filed entries.
    assert(crate::audit::identical_cells(es) == member_cells_same_case(rows, m, col, key)) by {
        if crate::audit::identical_cells(es) {
            assert forall|a: int, b: int|
                member_row(rows, m, col, key, a) && member_row(rows, m, col, key, b) implies crate::text::lower_seq(
                clean(#[trigger] cell_at(rows, a, col_index(col))),
            ) == crate::text::lower_seq(clean(#[trigger] cell_at(rows, b, col_index(col)))) by {
                assert(es.contains(member_entry(rows, m, col, key, a)));
                assert(es.contains(member_entry(rows, m, col, key, b)));
                let qa = choose|q: int| 0 <= q < es.len() && es[q] == member_entry(rows, m, col, key, a);
                let qb = choose|q: int| 0 <= q < es.len() && es[q] == member_entry(rows, m, col, key, b);
                assert(crate::text::lower_seq(es[qa].1) == crate::text::lower_seq(es[qb].1));
            }
        }
        if member_cells_same_case(rows, m, col, key) {
            assert forall|a: int, b: int| 0 <= a < es.len() && 0 <= b < es.len() implies crate::text::lower_seq(
                #[trigger] es[a].1,
            ) == crate::text::lower_seq(#[trigger] es[b].1) by {
                assert(is_member_entry(rows, m, col, key, es[a]));
                assert(is_member_entry(rows, m, col, key, es[b]));
                let ia = entry_index(m, es[a]);
                let ib = entry_index(m, es[b]);
                assert(member_row(rows, m, col, key, ia) && member_row(rows, m, col, key, ib));
                assert(crate::text::lower_seq(clean(cell_at(rows, ia, col_index(col)))) == crate::text::lower_seq(
                    clean(cell_at(rows, ib, col_index(col))),
                ));
            }
        }
    }
    lemma_all_group_hits_flag(st.hits, st.exact, st.exact.len() as int, p, q1);
    let all = all_group_hits(st.hits, st.exact, st.exact.len() as int);
    let reason = duplicate_reason(es);
    let row = (i1 + 1 + m.row_offset) as i32;
    assert(es[q1].0 == row);
    assert(flags(all, sheet, col, row, reason));
    let j = choose|j: int|
        0 <= j < all.len() && (#[trigger] all[j]).sheet == sheet && all[j].col == col && all[j].row == row
            && all[j].reason == reason;
    crate::laws::lemma_sorted_keeps(all, crate::sort::order_of::<DuplicateHit, HitOrder>());
    let r = duplicates_for(tabs, cols, username);
    assert(r.contains(all[j]));
    let q = choose|q: int| 0 <= q < r.len() && r[q] == all[j];
    assert(r[q].sheet == sheet);
}

// ---------------------------------------------------------------------------
// The audit lists every malformed and every unreadable cell
// ---------------------------------------------------------------------------

/// What the audit lists for a malformed cell.
pub open spec fn malformed_entry(sheet: Seq<char>, col: Seq<char>, base: Seq<char>, row: i32, cell: Seq<char>) -> crate::audit::MalformedView {
    crate::audit::MalformedView { sheet, col, base_name: base, row, cell, issues: format_issues(cell) }
}

/// Some listed unreadable cell sits at `sheet`/`col`/`row`.
pub open spec fn lists_unparsed(u: Seq<crate::audit::UnparsedView>, sheet: Seq<char>, col: Seq<char>, row: i32) -> bool {
    exists|j: int| 0 <= j < u.len() && (#[trigger] u[j]).sheet == sheet && u[j].col == col && u[j].row == row
}

proof fn lemma_audit_rows_lists(
    st0: crate::audit::AuditScan,
    rows: Seq<Seq<Seq<char>>>,
    sheet: Seq<char>,
    col: Seq<char>,
    m: SheetMetaView,
    base: Seq<char>,
    r: int,
)
    ensures
        forall|x: crate::audit::MalformedView| st0.malformed.contains(x) ==> #[trigger] crate::audit::audit_rows(
            st0, rows, sheet, col, m, base, r,
        ).malformed.contains(x),
        forall|s: Seq<char>, c: Seq<char>, w: i32| #[trigger] lists_unparsed(st0.unparsed, s, c, w) ==> lists_unparsed(
            crate::audit::audit_rows(st0, rows, sheet, col, m, base, r).unparsed, s, c, w,
        ),
        forall|i: int|
            m.data_start_row - 1 <= i < r && 0 <= i && clean(#[trigger] cell_at(rows, i, col_index(col))).len() > 0
                && username_key(clean(cell_at(rows, i, col_index(col)))) is Some && format_issues(
                clean(cell_at(rows, i, col_index(col))),
            ).len() > 0 ==> crate::audit::audit_rows(st0, rows, sheet, col, m, base, r).malformed.contains(
                malformed_entry(sheet, col, base, (i + 1 + m.row_offset) as i32, clean(cell_at(rows, i, col_index(col)))),
            ),
        forall|i: int|
            m.data_start_row - 1 <= i < r && 0 <= i && clean(#[trigger] cell_at(rows, i, col_index(col))).len() > 0
                && username_key(clean(cell_at(rows, i, col_index(col)))) is None ==> lists_unparsed(
                crate::audit::audit_rows(st0, rows, sheet, col, m, base, r).unparsed,
                sheet,
                col,
                (i + 1 + m.row_offset) as i32,
            ),
    decreases r,
{
    if !(r <= 0 || r <= m.data_start_row - 1) {
        lemma_audit_rows_lists(st0, rows, sheet, col, m, base, r - 1);
        let prev = crate::audit::audit_rows(st0, rows, sheet, col, m, base, r - 1);
        let raw = cell_at(rows, r - 1, col_index(col));
        let row = (r + m.row_offset) as i32;
        let st = crate::audit::audit_rows(st0, rows, sheet, col, m, base, r);
        assert(st == crate::audit::audit_cell(prev, sheet, col, base, raw, row));
        let cell = clean(raw);
        if raw.len() == 0 {
            assert(raw =~= Seq::<char>::empty());
            assert(crate::parse::visible(raw) == raw);
            assert(crate::text::trim_start(raw) == raw);
            assert(crate::text::trim_end(raw) == raw);
            assert(cell.len() == 0);
        }
        assert forall|x: crate::audit::MalformedView| prev.malformed.contains(x) implies #[trigger] st.malformed.contains(x) by {
            let j = choose|j: int| 0 <= j < prev.malformed.len() && prev.malformed[j] == x;
            if st.malformed != prev.malformed {
                assert(st.malformed[j] == prev.malformed[j]);
            }
        }
        assert forall|s: Seq<char>, c: Seq<char>, w: i32| #[trigger] lists_unparsed(prev.unparsed, s, c, w) implies lists_unparsed(
            st.unparsed, s, c, w,
        ) by {
            let j = choose|j: int| 0 <= j < prev.unparsed.len() && (#[trigger] prev.unparsed[j]).sheet == s
                && prev.unparsed[j].col == c && prev.unparsed[j].row == w;
            if st.unparsed != prev.unparsed {
                assert(st.unparsed[j] == prev.unparsed[j]);
            }
        }
        if cell.len() > 0 {
            match username_key(cell) {
                Some(u) => {
                    if format_issues(cell).len() > 0 {
                        assert(st.malformed[prev.malformed.len() as int] == malformed_entry(sheet, col, base, row, cell));
                    }
                },
                None => {
                    assert(st.unparsed[prev.unparsed.len() as int].row == row);
                },
            }
        }
    }
}

/// The scanned columns' lists.
proof fn lemma_audit_columns_lists(tabs: Seq<(Seq<char>, Seq<Seq<Seq<char>>>)>, cols: Seq<(Seq<char>, Seq<char>)>)
    ensures
        forall|c: int, i: int|
            0 <= c < cols.len() && scanned(tabs, cols[c].0, cols[c].1) && (#[trigger] malformed_at(tabs, cols[c].0, cols[c].1, i))
                ==> crate::audit::audit_columns(tabs, cols).malformed.contains(
                malformed_entry(
                    cols[c].0,
                    cols[c].1,
                    column_key(tabs, cols[c].0, cols[c].1).3,
                    (i + 1 + meta_of(cols[c].0)->0.row_offset) as i32,
                    clean(cell_at(rows_of(tabs, cols[c].0)->0, i, col_index(cols[c].1))),
                ),
            ),
        forall|c: int, i: int|
            0 <= c < cols.len() && scanned(tabs, cols[c].0, cols[c].1) && (#[trigger] unparsed_at(tabs, cols[c].0, cols[c].1, i))
                ==> lists_unparsed(
                crate::audit::audit_columns(tabs, cols).unparsed,
                cols[c].0,
                cols[c].1,
                (i + 1 + meta_of(cols[c].0)->0.row_offset) as i32,
            ),
    decreases cols.len(),
{
    if cols.len() > 0 {
        let d = cols.drop_last();
        lemma_audit_columns_lists(tabs, d);
        let st = crate::audit::audit_columns(tabs, d);
        let sheet = cols.last().0;
        let col = cols.last().1;
        let out = crate::audit::audit_columns(tabs, cols);
        assert(out == crate::audit::audit_column(st, tabs, sheet, col));
        if scanned(tabs, sheet, col) {
            let m = meta_of(sheet)->0;
            let rows = rows_of(tabs, sheet)->0;
            let base = crate::audit::column_base(rows, m, col);
            lemma_audit_rows_lists(st, rows, sheet, col, m, base, rows.len() as int);
        } else {
            if meta_of(sheet) is Some && rows_of(tabs, sheet) is Some {
                assert(crate::audit::column_base(rows_of(tabs, sheet)->0, meta_of(sheet)->0, col).len() == 0);
            }
            assert(out == st);
        }
        assert forall|c: int, i: int|
            0 <= c < cols.len() && scanned(tabs, cols[c].0, cols[c].1) && (#[trigger] malformed_at(tabs, cols[c].0, cols[c].1, i))
                implies out.malformed.contains(
                malformed_entry(
                    cols[c].0,
                    cols[c].1,
                    column_key(tabs, cols[c].0, cols[c].1).3,
                    (i + 1 + meta_of(cols[c].0)->0.row_offset) as i32,
                    clean(cell_at(rows_of(tabs, cols[c].0)->0, i, col_index(cols[c].1))),
                ),
            ) by {
            if c < cols.len() - 1 {
                assert(cols[c] == d[c]);
                assert(malformed_at(tabs, d[c].0, d[c].1, i));
            }
        }
        assert forall|c: int, i: int|
            0 <= c < cols.len() && scanned(tabs, cols[c].0, cols[c].1) && (#[trigger] unparsed_at(tabs, cols[c].0, cols[c].1, i))
                implies lists_unparsed(out.unparsed, cols[c].0, cols[c].1, (i + 1 + meta_of(cols[c].0)->0.row_offset) as i32) by {
            if c < cols.len() - 1 {
                assert(cols[c] == d[c]);
                assert(unparsed_at(tabs, d[c].0, d[c].1, i));
            }
        }
    }
}

/// The data cell at CSV index `i` names a member and has a format issue.
pub open spec fn malformed_at(tabs: Seq<(Seq<char>, Seq<Seq<Seq<char>>>)>, sheet: Seq<char>, col: Seq<char>, i: int) -> bool {
    let m = meta_of(sheet)->0;
    let rows = rows_of(tabs, sheet)->0;
    let cell = clean(cell_at(rows, i, col_index(col)));
    &&& m.data_start_row - 1 <= i < rows.len()
    &&& 0 <= i
    &&& cell.len() > 0
    &&& username_key(cell) is Some
    &&& format_issues(cell).len() > 0
}

/// The data cell at CSV index `i` holds text that names no member.
pub open spec fn unparsed_at(tabs: Seq<(Seq<char>, Seq<Seq<Seq<char>>>)>, sheet: Seq<char>, col: Seq<char>, i: int) -> bool {
    let m = meta_of(sheet)->0;
    let rows = rows_of(tabs, sheet)->0;
    let cell = clean(cell_at(rows, i, col_index(col)));
    &&& m.data_start_row - 1 <= i < rows.len()
    &&& 0 <= i
    &&& cell.len() > 0
    &&& username_key(cell) is None
}

/// The database audit lists every data cell of a scanned award column that
/// names a member but is malformed (with its tab, column, award name, sheet
/// row, cell and issues), and every data cell whose text names no member (at
/// its tab, column and sheet row).
pub proof fn law_audit_lists_bad_cells(
    tabs: Seq<(Seq<char>, Seq<Seq<Seq<char>>>)>,
    cols: Seq<(Seq<char>, Seq<char>)>,
    c: int,
    i: int,
)
    requires
        0 <= c < cols.len(),
        scanned(tabs, cols[c].0, cols[c].1),
    ensures
        malformed_at(tabs, cols[c].0, cols[c].1, i) ==> crate::audit::sheet_audit(tabs, cols).malformed.contains(
            malformed_entry(
                cols[c].0,
                cols[c].1,
                column_key(tabs, cols[c].0, cols[c].1).3,
                (i + 1 + meta_of(cols[c].0)->0.row_offset) as i32,
                clean(cell_at(rows_of(tabs, cols[c].0)->0, i, col_index(cols[c].1))),
            ),
        ),
        unparsed_at(tabs, cols[c].0, cols[c].1, i) ==> lists_unparsed(
            crate::audit::sheet_audit(tabs, cols).unparsed,
            cols[c].0,
            cols[c].1,
            (i + 1 + meta_of(cols[c].0)->0.row_offset) as i32,
        ),
{
    lemma_audit_columns_lists(tabs, cols);
    if malformed_at(tabs, cols[c].0, cols[c].1, i) {
    }
    if unparsed_at(tabs, cols[c].0, cols[c].1, i) {
    }
}

// ---------------------------------------------------------------------------
// Badge abbreviations
// ---------------------------------------------------------------------------

/// A badge abbreviation names the award it stands for: `MC` (any case, spaces
/// around it ignored) makes the badge a Master badge, keeping a name that
/// already says Master; `ESB` is the Expert Soldier Badge; any other text
/// leaves the trimmed award name.
pub proof fn law_badge_abbreviations(base: Seq<char>, abbrev: Seq<char>)
    ensures
        ({
            let key = crate::text::upper_seq(crate::text::trim(abbrev));
            let name = crate::text::trim(base);
            let r = crate::format::expanded_abbrev(base, abbrev);
            &&& key == "MC"@ ==> crate::text::ends_with(r, name) && crate::text::starts_with(
                crate::text::lower_seq(r),
                "master "@,
            )
            &&& key == "MC"@ && !crate::text::starts_with(crate::text::lower_seq(name), "master "@) ==> r == "Master "@
                + name
            &&& key == "ESB"@ ==> r == "Expert Soldier Badge"@
            &&& key != "MC"@ && key != "ESB"@ ==> r == name
        }),
{
    let key = crate::text::upper_seq(crate::text::trim(abbrev));
    let name = crate::text::trim(base);
    reveal_strlit("MC");
    reveal_strlit("ESB");
    assert("MC"@ != "ESB"@) by {
        assert("MC"@.len() != "ESB"@.len());
    }
    if key == "MC"@ {
        let r = crate::format::expanded_abbrev(base, abbrev);
        reveal_strlit("Master ");
        reveal_strlit("master ");
        if crate::text::starts_with(crate::text::lower_seq(name), "master "@) {
            assert(r == name);
            assert(r.subrange(r.len() - name.len(), r.len() as int) =~= name);
        } else {
            assert(r == "Master "@ + name);
            assert(r.subrange(r.len() - name.len(), r.len() as int) =~= name);
            assert(crate::text::lower_seq(r).subrange(0, 7) =~= "master "@);
        }
    }
}

} // verus!
