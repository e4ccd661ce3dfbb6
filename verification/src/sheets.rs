//! Building the award index and catalog from fetched tabs, CSV parsing, and the
//! decisions behind sign-in status.
use vstd::prelude::*;
use crate::text::{chars_of, copy_string, extend_str, lower_seq, seq_le, str_eq, string_of};
use crate::meta::{col_fits, col_index, col_to_index, csv_index_to_sheet_row, meta_of, offset_of, sheet_meta, SheetMeta, SheetMetaView};
use crate::parse::{cell_at, cell_text, clean, clean_chars, normalize_username, username_key};
use crate::format::{award_display_name, format_award_name};
use crate::index::{add_award, index_after_add, seq_le_exec};
use crate::audit::{column_base, cols_view, columns_fit, rows_fit, seq_lt};
use crate::sort::{order_of, sorted_stable, stable_sort, views, SortOrder};
use crate::types::{
    defs_view, rows_view, Award, AwardColumn, AwardDef, AwardDefView, AwardIndex, AwardView,
    AwardsData, SheetRows,
};

verus! {

// ---------------------------------------------------------------------------
// Errors
// ---------------------------------------------------------------------------

/// Why fetching a tab failed.
#[derive(Debug, Clone)]
pub enum SheetsError {
    Http { sheet: String, status: u16 },
    Network { sheet: String, reason: String },
    Csv { sheet: String, reason: String },
}

pub open spec fn sheets_error_text(sheet: Seq<char>, kind: u8, status: u16, reason: Seq<char>) -> Seq<char> {
    if kind == 0 {
        "Sheet fetch failed ("@ + sheet + "): HTTP "@ + crate::text::decimal(status as int)
    } else if kind == 1 {
        "Sheet fetch failed ("@ + sheet + "): "@ + reason
    } else {
        "CSV parse failed ("@ + sheet + "): "@ + reason
    }
}

impl SheetsError {
    /// The user-facing message.
    pub fn message(&self) -> (r: String)
        ensures
            r@ == match self {
                SheetsError::Http { sheet, status } => sheets_error_text(sheet@, 0, *status, Seq::empty()),
                SheetsError::Network { sheet, reason } => sheets_error_text(sheet@, 1, 0, reason@),
                SheetsError::Csv { sheet, reason } => sheets_error_text(sheet@, 2, 0, reason@),
            },
    {
        match self {
            SheetsError::Http { sheet, status } => {
                let mut v = chars_of("Sheet fetch failed (");
                extend_str(&mut v, sheet.as_str());
                extend_str(&mut v, "): HTTP ");
                crate::text::extend_chars(&mut v, &crate::text::decimal_chars(*status as i64));
                string_of(&v)
            },
            SheetsError::Network { sheet, reason } => {
                let mut v = chars_of("Sheet fetch failed (");
                extend_str(&mut v, sheet.as_str());
                extend_str(&mut v, "): ");
                extend_str(&mut v, reason.as_str());
                string_of(&v)
            },
            SheetsError::Csv { sheet, reason } => {
                let mut v = chars_of("CSV parse failed (");
                extend_str(&mut v, sheet.as_str());
                extend_str(&mut v, "): ");
                extend_str(&mut v, reason.as_str());
                string_of(&v)
            },
        }
    }
}

// ---------------------------------------------------------------------------
// CSV
// ---------------------------------------------------------------------------

/// A CSV document that could not be read; `message` is the reader's own text.
#[derive(Debug, Clone)]
pub struct CsvError {
    pub message: String,
}

/// Parse CSV text into rows, every record kept as it is (no header row, rows
/// of any width).
pub fn parse_csv(text: &str) -> (r: Result<Vec<Vec<String>>, CsvError>)
    ensures
        match r {
            Ok(rows) => crate::trusted::csv_records_of(text@) == Some(rows_view(rows@)),
            Err(_) => crate::trusted::csv_records_of(text@) is None,
        },
{
    match crate::trusted::csv_records(text) {
        Ok(rows) => Ok(rows),
        Err(e) => Err(CsvError { message: crate::trusted::csv_error_text(&e) }),
    }
}

// ---------------------------------------------------------------------------
// Building the index and catalog
// ---------------------------------------------------------------------------

/// The award a member cell of a column reads as.
pub open spec fn cell_award(
    m: SheetMetaView,
    sheet: Seq<char>,
    col: Seq<char>,
    base: Seq<char>,
    cell: Seq<char>,
    row: i32,
) -> Option<AwardView> {
    match award_display_name(m.category, Some(base), cell) {
        Some(name) => Some(AwardView { category: m.category, name, sheet, col, row, cell, base_name: base }),
        None => None,
    }
}

/// The index after the member rows of a column before CSV row `r`.
pub open spec fn build_rows(
    idx: Seq<(Seq<char>, Seq<AwardView>)>,
    rows: Seq<Seq<Seq<char>>>,
    sheet: Seq<char>,
    col: Seq<char>,
    m: SheetMetaView,
    base: Seq<char>,
    r: int,
) -> Seq<(Seq<char>, Seq<AwardView>)>
    decreases r,
{
    if r <= 0 || r <= m.data_start_row - 1 {
        idx
    } else {
        let prev = build_rows(idx, rows, sheet, col, m, base, r - 1);
        let cell = clean(cell_at(rows, r - 1, col_index(col)));
        if cell.len() == 0 {
            prev
        } else {
            match cell_award(m, sheet, col, base, cell, (r + m.row_offset) as i32) {
                Some(a) => index_after_add(prev, username_key(cell), Some(a)),
                None => prev,
            }
        }
    }
}

/// `def` appended unless its column is already listed.
pub open spec fn add_def(cat: Seq<AwardDefView>, def: AwardDefView) -> Seq<AwardDefView> {
    if exists|i: int| 0 <= i < cat.len() && (#[trigger] cat[i]).sheet == def.sheet && cat[i].col == def.col {
        cat
    } else {
        cat.push(def)
    }
}

pub struct BuildState {
    pub index: Seq<(Seq<char>, Seq<AwardView>)>,
    pub catalog: Seq<AwardDefView>,
}

pub open spec fn build_column(
    st: BuildState,
    tabs: Seq<(Seq<char>, Seq<Seq<Seq<char>>>)>,
    sheet: Seq<char>,
    col: Seq<char>,
) -> BuildState {
    match meta_of(sheet) {
        None => st,
        Some(m) => match crate::types::rows_of(tabs, sheet) {
            None => st,
            Some(rows) => {
                let base = column_base(rows, m, col);
                if base.len() == 0 {
                    st
                } else {
                    BuildState {
                        index: build_rows(st.index, rows, sheet, col, m, base, rows.len() as int),
                        catalog: add_def(
                            st.catalog,
                            AwardDefView { category: m.category, sheet, col, base_name: base },
                        ),
                    }
                }
            },
        },
    }
}

pub open spec fn build_columns(
    tabs: Seq<(Seq<char>, Seq<Seq<Seq<char>>>)>,
    cols: Seq<(Seq<char>, Seq<char>)>,
) -> BuildState
    decreases cols.len(),
{
    if cols.len() == 0 {
        BuildState { index: seq![], catalog: seq![] }
    } else {
        build_column(build_columns(tabs, cols.drop_last()), tabs, cols.last().0, cols.last().1)
    }
}

/// Catalog order: category, then award name ignoring case.
pub struct CatalogOrder;

impl SortOrder<AwardDef> for CatalogOrder {
    open spec fn le(a: AwardDefView, b: AwardDefView) -> bool {
        seq_lt(a.category, b.category) || (a.category == b.category && seq_le(
            lower_seq(a.base_name),
            lower_seq(b.base_name),
        ))
    }

    fn le_exec(a: &AwardDef, b: &AwardDef) -> (r: bool) {
        let ac = chars_of(a.category.as_str());
        let bc = chars_of(b.category.as_str());
        if !crate::text::chars_eq(&ac, &bc) {
            return seq_le_exec(&ac, &bc);
        }
        let al = crate::text::lower_chars(&chars_of(a.base_name.as_str()));
        let bl = crate::text::lower_chars(&chars_of(b.base_name.as_str()));
        seq_le_exec(&al, &bl)
    }
}

fn add_def_exec(cat: &mut Vec<AwardDef>, def: AwardDef)
    ensures
        defs_view(final(cat)@) == add_def(defs_view(old(cat)@), def@),
{
    let ghost cv = defs_view(cat@);
    let mut i: usize = 0;
    while i < cat.len()
        invariant
            i <= cat.len(),
            cv == defs_view(cat@),
            forall|k: int| 0 <= k < i ==> !((#[trigger] cv[k]).sheet == def@.sheet && cv[k].col == def@.col),
        decreases cat.len() - i,
    {
        if str_eq(cat[i].sheet.as_str(), def.sheet.as_str()) && str_eq(cat[i].col.as_str(), def.col.as_str()) {
            assert(cv[i as int].sheet == def@.sheet && cv[i as int].col == def@.col);
            return;
        }
        i += 1;
    }
    let ghost d = def@;
    cat.push(def);
    assert(defs_view(cat@) =~= cv.push(d));
}

fn build_column_rows(
    index: &mut AwardIndex,
    rows: &Vec<Vec<String>>,
    sheet: &String,
    col: &String,
    m: &SheetMeta,
    base: &String,
)
    requires
        col_fits(col@),
        rows@.len() + 9 <= i32::MAX,
        meta_of(sheet@) == Some(m@),
    ensures
        final(index)@ == build_rows(old(index)@, rows_view(rows@), sheet@, col@, m@, base@, rows@.len() as int),
{
    let ghost idx0 = index@;
    let ghost rv = rows_view(rows@);
    let col_idx = col_to_index(col.as_str());
    let start = m.data_start_row - 1;
    assert(m.data_start_row >= 1 && 0 <= m.row_offset <= 8 && offset_of(sheet@) == m.row_offset);
    if start >= rows.len() {
        return;
    }
    let mut r = start;
    while r < rows.len()
        invariant
            start <= r <= rows.len(),
            start == m.data_start_row - 1,
            rows@.len() + 9 <= i32::MAX,
            rv == rows_view(rows@),
            col_idx == col_index(col@),
            meta_of(sheet@) == Some(m@),
            m.data_start_row >= 1,
            0 <= m.row_offset <= 8,
            offset_of(sheet@) == m.row_offset,
            index@ == build_rows(idx0, rv, sheet@, col@, m@, base@, r as int),
        decreases rows.len() - r,
    {
        let raw = cell_text(&rows[r], col_idx);
        assert(raw@ == cell_at(rv, r as int, col_idx as int));
        let cleaned = clean_chars(raw);
        if cleaned.len() > 0 {
            let cell = string_of(&cleaned);
            let username = normalize_username(Some(cell.as_str()));
            if let Some(name) = format_award_name(m.category, Some(base.as_str()), cell.as_str()) {
                let award = Award {
                    category: crate::text::owned(m.category),
                    name,
                    sheet: copy_string(sheet),
                    col: copy_string(col),
                    row: csv_index_to_sheet_row(sheet.as_str(), r),
                    cell,
                    base_name: copy_string(base),
                };
                match &username {
                    Some(u) => add_award(index, Some(u.as_str()), Some(&award)),
                    None => add_award(index, None, Some(&award)),
                }
            }
        }
        r += 1;
    }
}

/// Build the member index and the award catalog from already-fetched tabs, over
/// the configured award `columns`.
pub fn build_awards_data_from_rows(sheet_rows: SheetRows, columns: &[AwardColumn]) -> (r: AwardsData)
    requires
        columns_fit(columns@),
        rows_fit(sheet_rows@),
    ensures
        r.index@ == build_columns(sheet_rows@, cols_view(columns@)).index,
        defs_view(r.catalog@) == sorted_stable(
            build_columns(sheet_rows@, cols_view(columns@)).catalog,
            order_of::<AwardDef, CatalogOrder>(),
        ),
        r.sheet_rows@ == sheet_rows@,
{
    let ghost tabs = sheet_rows@;
    let ghost cv = cols_view(columns@);
    let mut index = AwardIndex::new();
    let mut catalog: Vec<AwardDef> = Vec::new();
    assert(defs_view(catalog@) =~= Seq::<AwardDefView>::empty());
    assert(BuildState { index: index@, catalog: defs_view(catalog@) } == build_columns(tabs, cv.subrange(0, 0)));
    let mut i: usize = 0;
    while i < columns.len()
        invariant
            i <= columns.len(),
            tabs == sheet_rows@,
            cv == cols_view(columns@),
            columns_fit(columns@),
            rows_fit(tabs),
            (BuildState { index: index@, catalog: defs_view(catalog@) }) == build_columns(tabs, cv.subrange(0, i as int)),
        decreases columns.len() - i,
    {
        let entry = &columns[i];
        assert(cv.subrange(0, i + 1).drop_last() =~= cv.subrange(0, i as int));
        assert(cv.subrange(0, i + 1).last() == (entry.sheet@, entry.col@));
        assert(col_fits(columns@[i as int].col@));
        if let Some(m) = sheet_meta(entry.sheet.as_str()) {
            if let Some(rows) = sheet_rows.get(entry.sheet.as_str()) {
                proof {
                    crate::types::lemma_key_pos(tabs, entry.sheet@);
                }
                let col_idx = col_to_index(entry.col.as_str());
                let base = crate::audit::column_base_of(rows, &m, col_idx);
                if !base.as_str().is_empty() {
                    add_def_exec(&mut catalog, AwardDef {
                        category: crate::text::owned(m.category),
                        sheet: copy_string(&entry.sheet),
                        col: copy_string(&entry.col),
                        base_name: copy_string(&base),
                    });
                    build_column_rows(&mut index, rows, &entry.sheet, &entry.col, &m, &base);
                }
            }
        }
        i += 1;
    }
    assert(cv.subrange(0, columns.len() as int) =~= cv);
    let sorted = stable_sort::<AwardDef, CatalogOrder>(catalog);
    assert(views(sorted@) == defs_view(sorted@));
    AwardsData { index, catalog: sorted, sheet_rows }
}

// ---------------------------------------------------------------------------
// Sign-in
// ---------------------------------------------------------------------------

/// A secret file readable or writable by group or others (Unix permission bits).
pub fn secret_mode_too_open(mode: u32) -> (r: bool)
    ensures
        r == (mode & 0o077 != 0),
{
    mode & 0o077 != 0
}

/// The sign-in state name, from what is on disk: a service account key, a cached
/// OAuth token (`Some(usable)`) and an OAuth client file.
pub open spec fn auth_status_of(service_account: bool, token: Option<bool>, credentials: bool) -> Seq<char> {
    if service_account {
        "service_account"@
    } else {
        match token {
            Some(true) => "oauth_token"@,
            Some(false) => "oauth_needs_login"@,
            None => if credentials {
                "oauth_needs_login"@
            } else {
                "missing"@
            },
        }
    }
}

pub fn auth_status(service_account: bool, token: Option<bool>, credentials: bool) -> (r: &'static str)
    ensures
        r@ == auth_status_of(service_account, token, credentials),
{
    if service_account {
        return "service_account";
    }
    match token {
        Some(true) => "oauth_token",
        Some(false) => "oauth_needs_login",
        None => if credentials {
            "oauth_needs_login"
        } else {
            "missing"
        },
    }
}

// ---------------------------------------------------------------------------
// Addresses of the spreadsheet
// ---------------------------------------------------------------------------

/// The Sheets API address of the values in `range` of the database.
pub open spec fn values_address(range: Seq<char>) -> Seq<char> {
    "https://sheets.googleapis.com/v4/spreadsheets/"@ + crate::meta::SHEET_ID@ + "/values/"@
        + crate::trusted::url_encoded_of(range)
}

/// The Sheets API address of the values in `range` (`values_address`).
pub fn values_url(range: &str) -> (r: String)
    ensures
        r@ == values_address(range@),
{
    let mut m = chars_of("https://sheets.googleapis.com/v4/spreadsheets/");
    extend_str(&mut m, crate::meta::SHEET_ID);
    extend_str(&mut m, "/values/");
    extend_str(&mut m, crate::trusted::url_encode(range).as_str());
    string_of(&m)
}

/// The public CSV export address of the database's tab `sheet`.
pub open spec fn csv_export_address(sheet: Seq<char>) -> Seq<char> {
    "https://docs.google.com/spreadsheets/d/"@ + crate::meta::SHEET_ID@ + "/gviz/tq?tqx=out:csv&sheet="@
        + crate::trusted::url_encoded_of(sheet)
}

/// The CSV export address of a tab (`csv_export_address`).
pub fn csv_export_url(sheet: &str) -> (r: String)
    ensures
        r@ == csv_export_address(sheet@),
{
    let mut m = chars_of("https://docs.google.com/spreadsheets/d/");
    extend_str(&mut m, crate::meta::SHEET_ID);
    extend_str(&mut m, "/gviz/tq?tqx=out:csv&sheet=");
    extend_str(&mut m, crate::trusted::url_encode(sheet).as_str());
    string_of(&m)
}

} // verus!
