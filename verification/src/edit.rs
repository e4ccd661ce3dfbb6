//! Guarded sheet edits: add, correct, delete and rename award cells.
//!
//! Each edit talks to the Sheets API several times and decides between the calls.
//! The decisions live here as small state machines: a flow is started from its
//! inputs, then handed every reply of the Sheets client and answers with the next
//! request, until it finishes with an [`EditResult`]. Whoever owns the network
//! connection runs the requests.
use vstd::prelude::*;
use std::collections::HashSet;
use crate::text::{
    chars_of, copy_string, decimal, decimal_chars, extend_chars, extend_str, join, join_strings,
    str_eq, string_of, strings_view, usize_decimal,
};
use crate::parse::{clean, clean_chars, first_cell, match_row_in_window, normalize_username, username_key, window_match};
use crate::trusted::{debug_text, debug_text_of};
use crate::types::{cells_view, rows_view, Award, AwardDef, AwardDefView, AwardView, AwardsData};
use crate::meta::{known_sheet, meta_of, sheet_data_start_row};
use crate::format::{award_display_name, format_award_name};
use crate::text::{lower_seq, seq_le, strip_leading, trim};
use crate::index::{get_awards_for_username, lookup_key, seq_le_exec};
use crate::sort::{lemma_sorted_members, order_of, sorted_stable, stable_sort, views, SortOrder};
use crate::audit::add_to;
use crate::parse::{bare_name, replaced_cell};
use crate::types::{awards_view, bucket_of, key_pos, lemma_key_pos, lemma_key_pos_unique, AwardIndex};
use crate::parse::{parse_bare_username, replace_username_in_cell};

verus! {

broadcast use vstd::std_specs::hash::group_hash_axioms;

// ---------------------------------------------------------------------------
// Results
// ---------------------------------------------------------------------------

/// Why an edit failed. Every variant carries the user-facing message.
#[derive(Debug, Clone)]
pub enum EditError {
    /// Bad input; the sheet was never touched.
    Validation(String),
    /// The cell no longer matches the live sheet; refresh and retry.
    Stale(String),
    /// The change collides with data already on the sheet.
    Conflict(String),
    /// Nothing on the live sheet to change.
    NotFound(String),
    /// The Sheets API call itself failed.
    Api(String),
    /// Anything else.
    Other(String),
}

pub enum EditErrorView {
    Validation(Seq<char>),
    Stale(Seq<char>),
    Conflict(Seq<char>),
    NotFound(Seq<char>),
    Api(Seq<char>),
    Other(Seq<char>),
}

impl View for EditError {
    type V = EditErrorView;

    open spec fn view(&self) -> EditErrorView {
        match self {
            EditError::Validation(m) => EditErrorView::Validation(m@),
            EditError::Stale(m) => EditErrorView::Stale(m@),
            EditError::Conflict(m) => EditErrorView::Conflict(m@),
            EditError::NotFound(m) => EditErrorView::NotFound(m@),
            EditError::Api(m) => EditErrorView::Api(m@),
            EditError::Other(m) => EditErrorView::Other(m@),
        }
    }
}

/// The message an error shows.
pub open spec fn error_text(e: EditErrorView) -> Seq<char> {
    match e {
        EditErrorView::Validation(m) => m,
        EditErrorView::Stale(m) => m,
        EditErrorView::Conflict(m) => m,
        EditErrorView::NotFound(m) => m,
        EditErrorView::Api(m) => m,
        EditErrorView::Other(m) => m,
    }
}

impl EditError {
    /// The user-facing message.
    pub fn message(&self) -> (r: String)
        ensures
            r@ == error_text(self@),
    {
        match self {
            EditError::Validation(m) => copy_string(m),
            EditError::Stale(m) => copy_string(m),
            EditError::Conflict(m) => copy_string(m),
            EditError::NotFound(m) => copy_string(m),
            EditError::Api(m) => copy_string(m),
            EditError::Other(m) => copy_string(m),
        }
    }
}

/// The outcome of an edit: `message` is what the clerk sees; on failure it is the
/// error's own message.
#[derive(Debug, Clone)]
pub struct EditResult {
    pub ok: bool,
    pub message: String,
    pub error: Option<EditError>,
    pub award: Option<Award>,
    pub awards: Vec<Award>,
}

pub struct ResultView {
    pub ok: bool,
    pub message: Seq<char>,
    pub error: Option<EditErrorView>,
    pub award: Option<AwardView>,
    pub awards: Seq<AwardView>,
}

impl View for EditResult {
    type V = ResultView;

    open spec fn view(&self) -> ResultView {
        ResultView {
            ok: self.ok,
            message: self.message@,
            error: match self.error {
                Some(e) => Some(e@),
                None => None,
            },
            award: match self.award {
                Some(a) => Some(a@),
                None => None,
            },
            awards: crate::types::awards_view(self.awards@),
        }
    }
}

pub open spec fn ok_view(message: Seq<char>, award: Option<AwardView>) -> ResultView {
    ResultView { ok: true, message, error: None, award, awards: seq![] }
}

pub open spec fn ok_many_view(message: Seq<char>, awards: Seq<AwardView>) -> ResultView {
    ResultView {
        ok: true,
        message,
        error: None,
        award: if awards.len() > 0 {
            Some(awards[0])
        } else {
            None
        },
        awards,
    }
}

pub open spec fn err_view(e: EditErrorView) -> ResultView {
    ResultView { ok: false, message: error_text(e), error: Some(e), award: None, awards: seq![] }
}

pub open spec fn err_partial_view(e: EditErrorView, awards: Seq<AwardView>) -> ResultView {
    ResultView {
        ok: false,
        message: error_text(e),
        error: Some(e),
        award: if awards.len() > 0 {
            Some(awards[0])
        } else {
            None
        },
        awards,
    }
}

fn first_award(awards: &Vec<Award>) -> (r: Option<Award>)
    ensures
        match r {
            Some(a) => awards@.len() > 0 && a@ == awards@[0]@,
            None => awards@.len() == 0,
        },
{
    if awards.len() > 0 {
        Some(awards[0].clone())
    } else {
        None
    }
}

impl EditResult {
    pub fn ok_msg(message: String, award: Option<Award>) -> (r: EditResult)
        ensures
            r@ == ok_view(
                message@,
                match award {
                    Some(a) => Some(a@),
                    None => None,
                },
            ),
    {
        let r = EditResult { ok: true, message, error: None, award, awards: Vec::new() };
        assert(r@.awards =~= Seq::<AwardView>::empty());
        r
    }

    pub fn ok_many(message: String, awards: Vec<Award>) -> (r: EditResult)
        ensures
            r@ == ok_many_view(message@, crate::types::awards_view(awards@)),
    {
        let award = first_award(&awards);
        EditResult { ok: true, message, error: None, award, awards }
    }

    pub fn err(error: EditError) -> (r: EditResult)
        ensures
            r@ == err_view(error@),
    {
        let message = error.message();
        let r = EditResult { ok: false, message, error: Some(error), award: None, awards: Vec::new() };
        assert(r@.awards =~= Seq::<AwardView>::empty());
        r
    }

    pub fn err_partial(error: EditError, awards: Vec<Award>) -> (r: EditResult)
        ensures
            r@ == err_partial_view(error@, crate::types::awards_view(awards@)),
    {
        let message = error.message();
        let award = first_award(&awards);
        EditResult { ok: false, message, error: Some(error), award, awards }
    }
}

// ---------------------------------------------------------------------------
// Messages and column scans
// ---------------------------------------------------------------------------

/// `'Sheet'!C10`
pub open spec fn a1_text(sheet: Seq<char>, col: Seq<char>, row: int) -> Seq<char> {
    "'"@ + sheet + "'!"@ + col + decimal(row)
}

/// The A1 address of one cell.
pub fn a1(sheet: &str, col: &str, row: i32) -> (r: String)
    ensures
        r@ == a1_text(sheet@, col@, row as int),
{
    let mut v = chars_of("'");
    extend_str(&mut v, sheet);
    extend_str(&mut v, "'!");
    extend_str(&mut v, col);
    extend_chars(&mut v, &decimal_chars(row as i64));
    string_of(&v)
}

/// `'Sheet'!C:C`, a whole column.
pub open spec fn column_range(sheet: Seq<char>, col: Seq<char>) -> Seq<char> {
    "'"@ + sheet + "'!"@ + col + ":"@ + col
}

fn column_range_of(sheet: &str, col: &str) -> (r: String)
    ensures
        r@ == column_range(sheet@, col@),
{
    let mut v = chars_of("'");
    extend_str(&mut v, sheet);
    extend_str(&mut v, "'!");
    extend_str(&mut v, col);
    extend_str(&mut v, ":");
    extend_str(&mut v, col);
    string_of(&v)
}

/// `'Sheet'!C5:C9`
pub open spec fn span_range(sheet: Seq<char>, col: Seq<char>, from: int, to: int) -> Seq<char> {
    "'"@ + sheet + "'!"@ + col + decimal(from) + ":"@ + col + decimal(to)
}

fn span_range_of(sheet: &str, col: &str, from: i32, to: i32) -> (r: String)
    ensures
        r@ == span_range(sheet@, col@, from as int, to as int),
{
    let mut v = chars_of("'");
    extend_str(&mut v, sheet);
    extend_str(&mut v, "'!");
    extend_str(&mut v, col);
    extend_chars(&mut v, &decimal_chars(from as i64));
    extend_str(&mut v, ":");
    extend_str(&mut v, col);
    extend_chars(&mut v, &decimal_chars(to as i64));
    string_of(&v)
}

pub open spec fn stale_text(col: Seq<char>, row: i32, expected: Seq<char>, live: Seq<char>) -> Seq<char> {
    col + decimal(row as int) + " changed on the sheet (now "@ + debug_text_of(live) + "; expected "@
        + debug_text_of(expected) + "). Refresh and try again."@
}

/// The award's cell no longer reads as expected on the live sheet.
pub fn cell_stale_message(award: &Award, live: &str) -> (r: String)
    ensures
        r@ == stale_text(award@.col, award@.row, award@.cell, live@),
{
    let mut v = chars_of(award.col.as_str());
    extend_chars(&mut v, &decimal_chars(award.row as i64));
    extend_str(&mut v, " changed on the sheet (now ");
    extend_str(&mut v, debug_text(live).as_str());
    extend_str(&mut v, "; expected ");
    extend_str(&mut v, debug_text(award.cell.as_str()).as_str());
    extend_str(&mut v, "). Refresh and try again.");
    string_of(&v)
}

pub open spec fn filled_text(col: Seq<char>, row: i32, live: Seq<char>) -> Seq<char> {
    col + decimal(row as int) + " was filled by another edit (now "@ + debug_text_of(live)
        + "). Refresh and try again."@
}

/// The chosen empty cell was filled by another edit before this one wrote.
pub fn cell_filled_message(col: &str, row: i32, live: &str) -> (r: String)
    ensures
        r@ == filled_text(col@, row, live@),
{
    let mut v = chars_of(col);
    extend_chars(&mut v, &decimal_chars(row as i64));
    extend_str(&mut v, " was filled by another edit (now ");
    extend_str(&mut v, debug_text(live).as_str());
    extend_str(&mut v, "). Refresh and try again.");
    string_of(&v)
}

/// The first cell of a fetched row.
pub open spec fn row_first(rows: Seq<Seq<Seq<char>>>, i: int) -> Seq<char> {
    first_cell(rows[i])
}

/// First CSV index at or after `i` whose first cell belongs to `key`.
pub open spec fn owned_from(rows: Seq<Seq<Seq<char>>>, key: Seq<char>, i: int) -> Option<int>
    decreases rows.len() - i,
{
    if i < 0 || i >= rows.len() {
        None
    } else if username_key(row_first(rows, i)) == Some(key) {
        Some(i)
    } else {
        owned_from(rows, key, i + 1)
    }
}

/// First index at or after `(start - 1)` (never below 0).
pub open spec fn scan_start(start: i32) -> int {
    if start - 1 > 0 {
        start - 1
    } else {
        0
    }
}

fn first_of(row: &Vec<String>) -> (r: &str)
    ensures
        r@ == first_cell(cells_view(row@)),
{
    proof {
        reveal_strlit("");
    }
    if row.len() > 0 {
        row[0].as_str()
    } else {
        ""
    }
}

/// The sheet row (1-based) in a whole-column fetch whose cell already belongs to
/// `key`, scanning from sheet row `start`, with the cell's text.
pub fn find_existing_row(col_vals: &[Vec<String>], start: i32, key: &str) -> (r: Option<(i32, String)>)
    requires
        col_vals@.len() < i32::MAX,
    ensures
        match owned_from(rows_view(col_vals@), key@, scan_start(start)) {
            Some(i) => r matches Some(p) && p.0 == i + 1 && p.1@ == row_first(rows_view(col_vals@), i),
            None => r is None,
        },
{
    let ghost rv = rows_view(col_vals@);
    let mut i: usize = if start > 1 { (start - 1) as usize } else { 0 };
    if i >= col_vals.len() {
        return None;
    }
    while i < col_vals.len()
        invariant
            i <= col_vals.len(),
            col_vals@.len() < i32::MAX,
            rv == rows_view(col_vals@),
            owned_from(rv, key@, scan_start(start)) == owned_from(rv, key@, i as int),
        decreases col_vals.len() - i,
    {
        let cell = first_of(&col_vals[i]);
        assert(cell@ == row_first(rv, i as int));
        if let Some(u) = normalize_username(Some(cell)) {
            if str_eq(u.as_str(), key) {
                return Some(((i + 1) as i32, crate::text::owned(cell)));
            }
        }
        i += 1;
    }
    None
}

/// First CSV index at or after `i` whose cleaned first cell is empty.
pub open spec fn empty_from(rows: Seq<Seq<Seq<char>>>, i: int) -> Option<int>
    decreases rows.len() - i,
{
    if i < 0 || i >= rows.len() {
        None
    } else if clean(row_first(rows, i)).len() == 0 {
        Some(i)
    } else {
        empty_from(rows, i + 1)
    }
}

/// The row an add writes to: the first empty cell from sheet row `start`, else one
/// past the fetched rows (never before `start`).
pub open spec fn target_row(rows: Seq<Seq<Seq<char>>>, start: i32) -> int {
    match empty_from(rows, scan_start(start)) {
        Some(i) => i + 1,
        None => if rows.len() + 1 > start {
            rows.len() + 1int
        } else {
            start as int
        },
    }
}

/// First empty row (1-based) of a whole-column fetch from `start`.
pub fn find_target_row(col_vals: &[Vec<String>], start: i32) -> (r: i32)
    requires
        col_vals@.len() < i32::MAX,
    ensures
        r == target_row(rows_view(col_vals@), start),
{
    let ghost rv = rows_view(col_vals@);
    let mut i: usize = if start > 1 { (start - 1) as usize } else { 0 };
    if i < col_vals.len() {
        while i < col_vals.len()
            invariant
                i <= col_vals.len(),
                col_vals@.len() < i32::MAX,
                rv == rows_view(col_vals@),
                empty_from(rv, scan_start(start)) == empty_from(rv, i as int),
            decreases col_vals.len() - i,
        {
            let cell = first_of(&col_vals[i]);
            assert(cell@ == row_first(rv, i as int));
            let c = clean_chars(cell);
            if c.len() == 0 {
                return (i + 1) as i32;
            }
            i += 1;
        }
    }
    let n = col_vals.len() as i32 + 1;
    if n > start {
        n
    } else {
        start
    }
}

/// First row from `data_start_row` owned by `key` that is not in `allowed`.
pub open spec fn foreign_from(
    rows: Seq<Seq<Seq<char>>>,
    key: Seq<char>,
    allowed: Set<i32>,
    i: int,
) -> Option<int>
    decreases rows.len() - i,
{
    if i < 0 || i >= rows.len() {
        None
    } else if !allowed.contains((i + 1) as i32) && username_key(row_first(rows, i)) == Some(key) {
        Some(i + 1)
    } else {
        foreign_from(rows, key, allowed, i + 1)
    }
}

/// First sheet row owned by `key` that is not one of `allowed_rows` (the rows a
/// rename rewrites in place).
pub fn column_foreign_username(
    col_vals: &[Vec<String>],
    data_start_row: i32,
    key: &str,
    allowed_rows: &HashSet<i32>,
) -> (r: Option<i32>)
    requires
        col_vals@.len() < i32::MAX,
        data_start_row >= 1,
    ensures
        match r {
            Some(x) => foreign_from(rows_view(col_vals@), key@, allowed_rows@, data_start_row - 1) == Some(
                x as int,
            ),
            None => foreign_from(rows_view(col_vals@), key@, allowed_rows@, data_start_row - 1) is None,
        },
{
    let ghost rv = rows_view(col_vals@);
    let mut i: usize = (data_start_row - 1) as usize;
    if i >= col_vals.len() {
        return None;
    }
    while i < col_vals.len()
        invariant
            i <= col_vals.len(),
            col_vals@.len() < i32::MAX,
            rv == rows_view(col_vals@),
            data_start_row >= 1,
            foreign_from(rv, key@, allowed_rows@, data_start_row - 1) == foreign_from(
                rv,
                key@,
                allowed_rows@,
                i as int,
            ),
        decreases col_vals.len() - i,
    {
        let sheet_row = (i + 1) as i32;
        if !allowed_rows.contains(&sheet_row) {
            let cell = first_of(&col_vals[i]);
            assert(cell@ == row_first(rv, i as int));
            if let Some(u) = normalize_username(Some(cell)) {
                if str_eq(u.as_str(), key) {
                    return Some(sheet_row);
                }
            }
        }
        i += 1;
    }
    None
}

/// The first eight ranges joined by `, `, with `+N more` for the rest.
pub open spec fn remaining_text(ranges: Seq<Seq<char>>) -> Seq<char> {
    let sample = join(ranges.take(if ranges.len() < 8 { ranges.len() as int } else { 8 }), ", "@);
    if ranges.len() > 8 {
        sample + " +"@ + decimal(ranges.len() - 8) + " more"@
    } else {
        sample
    }
}

pub fn format_remaining_ranges(ranges: &[String]) -> (r: String)
    ensures
        r@ == remaining_text(strings_view(ranges@)),
{
    let mut sample: Vec<String> = Vec::new();
    let mut i: usize = 0;
    let n = if ranges.len() < 8 { ranges.len() } else { 8 };
    while i < n
        invariant
            i <= n,
            n <= ranges@.len(),
            n == (if ranges@.len() < 8 { ranges@.len() as int } else { 8 }),
            strings_view(sample@) == strings_view(ranges@).take(i as int),
        decreases n - i,
    {
        let ghost before = sample@;
        sample.push(copy_string(&ranges[i]));
        assert(strings_view(sample@) =~= strings_view(before).push(ranges@[i as int]@));
        i += 1;
        assert(strings_view(sample@) =~= strings_view(ranges@).take(i as int));
    }
    let joined = join_strings(&sample, ", ");
    if ranges.len() > 8 {
        let mut v = chars_of(joined.as_str());
        extend_str(&mut v, " +");
        extend_chars(&mut v, &usize_decimal(ranges.len() - 8));
        extend_str(&mut v, " more");
        string_of(&v)
    } else {
        joined
    }
}

// ---------------------------------------------------------------------------
// Talking to the Sheets client
// ---------------------------------------------------------------------------

/// What a flow needs the Sheets client to do next.
#[derive(Debug)]
pub enum SheetRequest {
    /// Open an authorised connection.
    Connect,
    /// Read the values of a range.
    GetValues(String),
    /// Write one range.
    UpdateValues(String, Vec<Vec<String>>),
    /// Write several ranges in order, stopping at the first failure.
    BatchUpdate(Vec<(String, Vec<Vec<String>>)>),
    /// Fetch the whole database (a fresh sync).
    LoadData,
    /// The edit is over.
    Finish(EditResult),
}

pub enum RequestView {
    Connect,
    GetValues(Seq<char>),
    UpdateValues(Seq<char>, Seq<Seq<Seq<char>>>),
    BatchUpdate(Seq<(Seq<char>, Seq<Seq<Seq<char>>>)>),
    LoadData,
    Finish(ResultView),
}

pub open spec fn writes_view(v: Seq<(String, Vec<Vec<String>>)>) -> Seq<(Seq<char>, Seq<Seq<Seq<char>>>)> {
    v.map_values(|w: (String, Vec<Vec<String>>)| (w.0@, rows_view(w.1@)))
}

impl View for SheetRequest {
    type V = RequestView;

    open spec fn view(&self) -> RequestView {
        match self {
            SheetRequest::Connect => RequestView::Connect,
            SheetRequest::GetValues(r) => RequestView::GetValues(r@),
            SheetRequest::UpdateValues(r, v) => RequestView::UpdateValues(r@, rows_view(v@)),
            SheetRequest::BatchUpdate(w) => RequestView::BatchUpdate(writes_view(w@)),
            SheetRequest::LoadData => RequestView::LoadData,
            SheetRequest::Finish(res) => RequestView::Finish(res@),
        }
    }
}

/// What the Sheets client answered. `Failed` carries the error's message.
#[derive(Debug)]
pub enum SheetReply {
    Connected,
    Values(Vec<Vec<String>>),
    Written,
    Data(AwardsData),
    Failed(String),
    /// A batch write stopped after `written` ranges.
    BatchFailed(usize, String),
}

pub enum ReplyView {
    Connected,
    Values(Seq<Seq<Seq<char>>>),
    Written,
    /// The fetched database's member index.
    Data(Seq<(Seq<char>, Seq<AwardView>)>),
    Failed(Seq<char>),
    BatchFailed(usize, Seq<char>),
}

impl View for SheetReply {
    type V = ReplyView;

    open spec fn view(&self) -> ReplyView {
        match self {
            SheetReply::Connected => ReplyView::Connected,
            SheetReply::Values(v) => ReplyView::Values(rows_view(v@)),
            SheetReply::Written => ReplyView::Written,
            SheetReply::Data(d) => ReplyView::Data(d.index@),
            SheetReply::Failed(e) => ReplyView::Failed(e@),
            SheetReply::BatchFailed(n, e) => ReplyView::BatchFailed(*n, e@),
        }
    }
}

pub open spec fn unexpected_view() -> ResultView {
    err_view(EditErrorView::Other("unexpected reply from the Sheets client"@))
}

fn unexpected() -> (r: SheetRequest)
    ensures
        r@ == RequestView::Finish(unexpected_view()),
{
    SheetRequest::Finish(EditResult::err(EditError::Other(crate::text::owned("unexpected reply from the Sheets client"))))
}

fn finish_err(e: EditError) -> (r: SheetRequest)
    ensures
        r@ == RequestView::Finish(err_view(e@)),
{
    SheetRequest::Finish(EditResult::err(e))
}

fn text_of(v: Vec<char>) -> (r: String)
    ensures
        r@ == v@,
{
    string_of(&v)
}

/// The first cell of the first fetched row (empty when nothing came back).
pub open spec fn first_value(v: Seq<Seq<Seq<char>>>) -> Seq<char> {
    if v.len() > 0 {
        first_cell(v[0])
    } else {
        Seq::empty()
    }
}

fn first_value_of(v: &Vec<Vec<String>>) -> (r: &str)
    ensures
        r@ == first_value(rows_view(v@)),
{
    proof {
        reveal_strlit("");
    }
    if v.len() > 0 {
        first_of(&v[0])
    } else {
        ""
    }
}

/// The first live row of member cells of a known tab.
pub open spec fn data_start(sheet: Seq<char>) -> int {
    meta_of(sheet).unwrap().data_start_row + meta_of(sheet).unwrap().row_offset
}

proof fn lemma_data_start(sheet: Seq<char>)
    requires
        known_sheet(sheet),
    ensures
        1 <= data_start(sheet) <= 12,
{
}

// ---------------------------------------------------------------------------
// Add
// ---------------------------------------------------------------------------

#[derive(Debug, Clone, Copy, PartialEq, Eq, Structural)]
pub enum AddPhase {
    Connecting,
    ReadColumn,
    /// Re-reading the chosen empty row just before writing it.
    Recheck(i32),
    Write(i32),
    Done,
}

/// Adding one award cell for a member: the first empty row of the award's
/// column gets `user` and the suffix, unless the member is already listed there.
#[derive(Debug)]
pub struct AddFlow {
    pub phase: AddPhase,
    user: String,
    key: String,
    cell_value: String,
    def: AwardDef,
}

pub struct AddView {
    pub phase: AddPhase,
    pub user: Seq<char>,
    pub key: Seq<char>,
    pub cell: Seq<char>,
    pub def: AwardDefView,
}

impl View for AddFlow {
    type V = AddView;

    closed spec fn view(&self) -> AddView {
        AddView { phase: self.phase, user: self.user@, key: self.key@, cell: self.cell_value@, def: self.def@ }
    }
}

impl AddFlow {
    /// The flow can take its next reply: once the column has been read, the
    /// award lies on a known tab.
    pub closed spec fn wf(&self) -> bool {
        (self.phase is Recheck || self.phase is Write) ==> known_sheet(self.def@.sheet)
    }
}

/// A reply the add can go on with: the column read back lies on a known tab
/// and its rows can be numbered. On any other column read the add cannot go on.
pub open spec fn add_reply_ok(st: AddView, r: ReplyView) -> bool {
    match (st.phase, r) {
        (AddPhase::ReadColumn, ReplyView::Values(v)) => known_sheet(st.def.sheet) && v.len() < i32::MAX,
        _ => true,
    }
}

pub open spec fn add_done(st: AddView) -> AddView {
    AddView { phase: AddPhase::Done, ..st }
}

/// Starting an add: the typed username is checked before anything is read.
pub open spec fn add_start(username: Seq<char>, def: AwardDefView, suffix: Seq<char>) -> (AddView, RequestView) {
    let user = strip_leading(trim(username), '@');
    let stop = AddView { phase: AddPhase::Done, user, key: seq![], cell: seq![], def };
    if user.len() == 0 {
        (stop, RequestView::Finish(err_view(EditErrorView::Validation("Username required"@))))
    } else {
        match username_key(user) {
            None => (stop, RequestView::Finish(err_view(EditErrorView::Validation("Username required"@)))),
            Some(k) => (
                AddView { phase: AddPhase::Connecting, user, key: k, cell: crate::parse::cell_value(user, suffix), def },
                RequestView::Connect,
            ),
        }
    }
}

/// One reply of an add.
pub open spec fn add_step(st: AddView, reply: ReplyView) -> (AddView, RequestView) {
    let d = st.def;
    let stop = add_done(st);
    match st.phase {
        AddPhase::Connecting => match reply {
            ReplyView::Connected => (AddView { phase: AddPhase::ReadColumn, ..st }, RequestView::GetValues(column_range(d.sheet, d.col))),
            ReplyView::Failed(e) => (stop, RequestView::Finish(err_view(EditErrorView::Api(e)))),
            _ => (stop, RequestView::Finish(unexpected_view())),
        },
        AddPhase::ReadColumn => match reply {
            ReplyView::Values(v) => {
                let start = data_start(d.sheet) as i32;
                match owned_from(v, st.key, scan_start(start)) {
                    Some(i) => (
                        stop,
                        RequestView::Finish(err_view(EditErrorView::Conflict(
                            "@"@ + st.user + " already has "@ + d.base_name + " (row "@ + decimal(i + 1) + ")"@,
                        ))),
                    ),
                    None => {
                        let t = target_row(v, start) as i32;
                        (AddView { phase: AddPhase::Recheck(t), ..st }, RequestView::GetValues(a1_text(d.sheet, d.col, t as int)))
                    },
                }
            },
            ReplyView::Failed(e) => (
                stop,
                RequestView::Finish(err_view(EditErrorView::Api(
                    "Could not re-read "@ + d.sheet + "!"@ + d.col + " to place the award: "@ + e,
                ))),
            ),
            _ => (stop, RequestView::Finish(unexpected_view())),
        },
        AddPhase::Recheck(t) => match reply {
            ReplyView::Values(v) => {
                let live = clean(first_value(v));
                if live.len() > 0 {
                    (stop, RequestView::Finish(err_view(EditErrorView::Conflict(filled_text(d.col, t, live)))))
                } else {
                    (
                        AddView { phase: AddPhase::Write(t), ..st },
                        RequestView::UpdateValues(a1_text(d.sheet, d.col, t as int), seq![seq![st.cell]]),
                    )
                }
            },
            ReplyView::Failed(e) => (
                stop,
                RequestView::Finish(err_view(EditErrorView::Api(
                    "Could not re-check "@ + d.sheet + "!"@ + d.col + decimal(t as int) + " before write: "@ + e,
                ))),
            ),
            _ => (stop, RequestView::Finish(unexpected_view())),
        },
        AddPhase::Write(t) => match reply {
            ReplyView::Written => {
                let display = match award_display_name(d.category, Some(d.base_name), st.cell) {
                    Some(n) => n,
                    None => d.base_name,
                };
                (
                    stop,
                    RequestView::Finish(ok_view(
                        "Added "@ + display + " for @"@ + st.user + " at "@ + d.col + decimal(t as int),
                        Some(AwardView {
                            category: d.category,
                            name: display,
                            sheet: d.sheet,
                            col: d.col,
                            row: t,
                            cell: st.cell,
                            base_name: d.base_name,
                        }),
                    )),
                )
            },
            ReplyView::Failed(e) => (stop, RequestView::Finish(err_view(EditErrorView::Api("Write failed: "@ + e)))),
            _ => (stop, RequestView::Finish(unexpected_view())),
        },
        AddPhase::Done => (st, RequestView::Finish(unexpected_view())),
    }
}

/// Start adding `award_def` for `username` (with an optional cell suffix).
pub fn add_award_to_user(username: &str, award_def: &AwardDef, suffix: &str) -> (r: (AddFlow, SheetRequest))
    ensures
        (r.0@, r.1@) == add_start(username@, award_def@, suffix@),
        r.0.wf(),
{
    let t = crate::text::trim_str(username);
    let u = crate::text::strip_leading_chars(&t, '@');
    let user = string_of(&u);
    let def = award_def.clone();
    if u.len() == 0 {
        let f = AddFlow { phase: AddPhase::Done, user, key: String::new(), cell_value: String::new(), def };
        return (f, finish_err(EditError::Validation(crate::text::owned("Username required"))));
    }
    match normalize_username(Some(user.as_str())) {
        None => {
            let f = AddFlow { phase: AddPhase::Done, user, key: String::new(), cell_value: String::new(), def };
            (f, finish_err(EditError::Validation(crate::text::owned("Username required"))))
        },
        Some(key) => {
            let cell_value = crate::parse::build_cell_value(user.as_str(), suffix);
            (AddFlow { phase: AddPhase::Connecting, user, key, cell_value, def }, SheetRequest::Connect)
        },
    }
}

impl AddFlow {
    /// Whether `reply` may be handed to `step` (`add_reply_ok`).
    pub fn accepts(&self, reply: &SheetReply) -> (r: bool)
        ensures
            r == add_reply_ok(self@, reply@),
    {
        match (self.phase, reply) {
            (AddPhase::ReadColumn, SheetReply::Values(v)) => {
                assert(rows_view(v@).len() == v@.len());
                crate::meta::sheet_meta(self.def.sheet.as_str()).is_some() && v.len() < 2147483647
            },
            _ => true,
        }
    }

    /// Take the client's reply and say what to do next.
    pub fn step(&mut self, reply: SheetReply) -> (r: SheetRequest)
        requires
            old(self).wf(),
            add_reply_ok(old(self)@, reply@),
        ensures
            (final(self)@, r@) == add_step(old(self)@, reply@),
            final(self).wf(),
    {
        let ghost st = self@;
        match self.phase {
            AddPhase::Connecting => match reply {
                SheetReply::Connected => {
                    self.phase = AddPhase::ReadColumn;
                    SheetRequest::GetValues(column_range_of(self.def.sheet.as_str(), self.def.col.as_str()))
                },
                SheetReply::Failed(e) => {
                    self.phase = AddPhase::Done;
                    finish_err(EditError::Api(e))
                },
                _ => {
                    self.phase = AddPhase::Done;
                    unexpected()
                },
            },
            AddPhase::ReadColumn => match reply {
                SheetReply::Values(v) => {
                    let start = sheet_data_start_row(self.def.sheet.as_str());
                    match find_existing_row(&v, start, self.key.as_str()) {
                        Some((row, _cell)) => {
                            self.phase = AddPhase::Done;
                            let mut m = chars_of("@");
                            extend_str(&mut m, self.user.as_str());
                            extend_str(&mut m, " already has ");
                            extend_str(&mut m, self.def.base_name.as_str());
                            extend_str(&mut m, " (row ");
                            extend_chars(&mut m, &decimal_chars(row as i64));
                            extend_str(&mut m, ")");
                            finish_err(EditError::Conflict(text_of(m)))
                        },
                        None => {
                            let t = find_target_row(&v, start);
                            self.phase = AddPhase::Recheck(t);
                            SheetRequest::GetValues(a1(self.def.sheet.as_str(), self.def.col.as_str(), t))
                        },
                    }
                },
                SheetReply::Failed(e) => {
                    self.phase = AddPhase::Done;
                    let mut m = chars_of("Could not re-read ");
                    extend_str(&mut m, self.def.sheet.as_str());
                    extend_str(&mut m, "!");
                    extend_str(&mut m, self.def.col.as_str());
                    extend_str(&mut m, " to place the award: ");
                    extend_str(&mut m, e.as_str());
                    finish_err(EditError::Api(text_of(m)))
                },
                _ => {
                    self.phase = AddPhase::Done;
                    unexpected()
                },
            },
            AddPhase::Recheck(t) => match reply {
                SheetReply::Values(v) => {
                    let live = clean_chars(first_value_of(&v));
                    if live.len() > 0 {
                        self.phase = AddPhase::Done;
                        let ls = string_of(&live);
                        finish_err(EditError::Conflict(cell_filled_message(self.def.col.as_str(), t, ls.as_str())))
                    } else {
                        self.phase = AddPhase::Write(t);
                        let mut row: Vec<String> = Vec::new();
                        row.push(copy_string(&self.cell_value));
                        assert(cells_view(row@) =~= seq![self.cell_value@]);
                        let ghost rv = cells_view(row@);
                        let mut vals: Vec<Vec<String>> = Vec::new();
                        vals.push(row);
                        assert(rows_view(vals@) =~= seq![rv]);
                        SheetRequest::UpdateValues(a1(self.def.sheet.as_str(), self.def.col.as_str(), t), vals)
                    }
                },
                SheetReply::Failed(e) => {
                    self.phase = AddPhase::Done;
                    let mut m = chars_of("Could not re-check ");
                    extend_str(&mut m, self.def.sheet.as_str());
                    extend_str(&mut m, "!");
                    extend_str(&mut m, self.def.col.as_str());
                    extend_chars(&mut m, &decimal_chars(t as i64));
                    extend_str(&mut m, " before write: ");
                    extend_str(&mut m, e.as_str());
                    finish_err(EditError::Api(text_of(m)))
                },
                _ => {
                    self.phase = AddPhase::Done;
                    unexpected()
                },
            },
            AddPhase::Write(t) => match reply {
                SheetReply::Written => {
                    self.phase = AddPhase::Done;
                    let display = match format_award_name(
                        self.def.category.as_str(),
                        Some(self.def.base_name.as_str()),
                        self.cell_value.as_str(),
                    ) {
                        Some(n) => n,
                        None => copy_string(&self.def.base_name),
                    };
                    let mut m = chars_of("Added ");
                    extend_str(&mut m, display.as_str());
                    extend_str(&mut m, " for @");
                    extend_str(&mut m, self.user.as_str());
                    extend_str(&mut m, " at ");
                    extend_str(&mut m, self.def.col.as_str());
                    extend_chars(&mut m, &decimal_chars(t as i64));
                    let award = Award {
                        category: copy_string(&self.def.category),
                        name: display,
                        sheet: copy_string(&self.def.sheet),
                        col: copy_string(&self.def.col),
                        row: t,
                        cell: copy_string(&self.cell_value),
                        base_name: copy_string(&self.def.base_name),
                    };
                    SheetRequest::Finish(EditResult::ok_msg(text_of(m), Some(award)))
                },
                SheetReply::Failed(e) => {
                    self.phase = AddPhase::Done;
                    let mut m = chars_of("Write failed: ");
                    extend_str(&mut m, e.as_str());
                    finish_err(EditError::Api(text_of(m)))
                },
                _ => {
                    self.phase = AddPhase::Done;
                    unexpected()
                },
            },
            AddPhase::Done => unexpected(),
        }
    }
}

// ---------------------------------------------------------------------------
// Finding an award's live row
// ---------------------------------------------------------------------------

/// The award has a full sheet location.
pub open spec fn located(a: AwardView) -> bool {
    a.sheet.len() > 0 && a.col.len() > 0 && a.row != 0
}

/// The rows 24 above and below `row` are `i32` row numbers, so a window can be
/// read around it.
pub open spec fn window_row(row: i32) -> bool {
    i32::MIN + 24 <= row <= i32::MAX - 24
}

/// A window of `n` rows read from row `start` can be matched against the
/// award's cached row `hint` without leaving `i32`.
pub open spec fn window_fits(start: i32, n: nat, hint: i32) -> bool {
    &&& n <= i32::MAX
    &&& start as int + n <= i32::MAX
    &&& start as int - hint > i32::MIN
    &&& start as int + n - hint <= i32::MAX
}

/// An award whose live row can be looked for: a located award sits on a known
/// tab at a row a window can be read around.
pub open spec fn editable(a: AwardView) -> bool {
    located(a) ==> known_sheet(a.sheet) && window_row(a.row)
}

/// Whether `award`'s live row can be looked for (`editable`).
pub fn award_editable(award: &Award) -> (r: bool)
    ensures
        r == editable(award@),
{
    let loc = !award.sheet.as_str().is_empty() && !award.col.as_str().is_empty() && award.row != 0;
    !loc || (crate::meta::sheet_meta(award.sheet.as_str()).is_some() && -2147483624 <= award.row
        && award.row <= 2147483623)
}

pub open spec fn max_int(a: int, b: int) -> int {
    if a >= b {
        a
    } else {
        b
    }
}

/// First row of the window read around the award's CSV row.
pub open spec fn window_start(a: AwardView) -> int {
    max_int(data_start(a.sheet), a.row - 24)
}

/// The range read to find the award's live row.
pub open spec fn window_range(a: AwardView) -> Seq<char> {
    span_range(a.sheet, a.col, window_start(a), max_int(window_start(a), a.row + 24))
}

fn live_window(award: &Award) -> (r: (i32, String))
    requires
        known_sheet(award@.sheet),
        window_row(award.row),
    ensures
        r.0 == window_start(award@),
        r.1@ == window_range(award@),
{
    let ds = sheet_data_start_row(award.sheet.as_str());
    let start = if ds >= award.row - 24 { ds } else { award.row - 24 };
    let end = if start >= award.row + 24 { start } else { award.row + 24 };
    (start, span_range_of(award.sheet.as_str(), award.col.as_str(), start, end))
}

/// Where to look for `award`'s cell on the live sheet: the first row of the
/// window around its cached row and the window's range, or `None` for an
/// award with no sheet location.
pub fn live_row_window(award: &Award) -> (r: Option<(i32, String)>)
    requires
        editable(award@),
    ensures
        match r {
            Some(w) => located(award@) && w.0 == window_start(award@) && w.1@ == window_range(award@),
            None => !located(award@),
        },
{
    if award.sheet.as_str().is_empty() || award.col.as_str().is_empty() || award.row == 0 {
        return None;
    }
    Some(live_window(award))
}

/// `award` moved to the row where its cell now sits, as found in `values`
/// read from the window starting at row `start`; unchanged when the cell is
/// not found there.
pub fn award_with_live_row(award: &Award, start: i32, values: &[Vec<String>]) -> (r: Award)
    requires
        values@.len() <= i32::MAX,
        start as int + values@.len() <= i32::MAX,
        start as int - award.row > i32::MIN,
        start as int + values@.len() - award.row <= i32::MAX,
    ensures
        r == match window_match(rows_view(values@), start as int, award@.cell, award.row as int) {
            Some(row) => Award { row: row as i32, ..*award },
            None => *award,
        },
{
    match match_row_in_window(values, start, award.cell.as_str(), award.row) {
        Some(row) => {
            let mut out = award.clone();
            out.row = row;
            out
        },
        None => award.clone(),
    }
}

fn prefixed(prefix: &str, e: &String) -> (r: String)
    ensures
        r@ == prefix@ + e@,
{
    let mut m = chars_of(prefix);
    extend_str(&mut m, e.as_str());
    string_of(&m)
}

fn one_cell(v: &String) -> (r: Vec<Vec<String>>)
    ensures
        rows_view(r@) == seq![seq![v@]],
{
    let mut row: Vec<String> = Vec::new();
    row.push(copy_string(v));
    assert(cells_view(row@) =~= seq![v@]);
    let ghost rv = cells_view(row@);
    let mut vals: Vec<Vec<String>> = Vec::new();
    vals.push(row);
    assert(rows_view(vals@) =~= seq![rv]);
    vals
}

// ---------------------------------------------------------------------------
// Correct one cell
// ---------------------------------------------------------------------------

#[derive(Debug, Clone, Copy, PartialEq, Eq, Structural)]
pub enum UpdatePhase {
    Connecting,
    FindLive(i32),
    StaleRead,
    CheckLive,
    ScanColumn,
    Write,
    Done,
}

/// Rewriting one award cell, guarded against stale reads and against giving the
/// new member a second cell in the same column.
#[derive(Debug)]
pub struct UpdateFlow {
    pub phase: UpdatePhase,
    award: Award,
    new_cell: String,
    new_key: String,
}

pub struct UpdateView {
    pub phase: UpdatePhase,
    pub award: AwardView,
    pub new_cell: Seq<char>,
    pub new_key: Seq<char>,
}

impl View for UpdateFlow {
    type V = UpdateView;

    closed spec fn view(&self) -> UpdateView {
        UpdateView { phase: self.phase, award: self.award@, new_cell: self.new_cell@, new_key: self.new_key@ }
    }
}

impl UpdateFlow {
    pub closed spec fn wf(&self) -> bool {
        &&& self.phase != UpdatePhase::Done ==> located(self.award@)
        &&& self.phase != UpdatePhase::Done && self.phase != UpdatePhase::Connecting ==> known_sheet(self.award@.sheet)
        &&& self.phase matches UpdatePhase::FindLive(s) ==> window_row(self.award@.row) && s == window_start(
            self.award@,
        )
    }
}

/// The cell `new_cell` passes the checks made before the sheet is touched.
pub open spec fn valid_new_cell(new_cell: Seq<char>) -> bool {
    trim(new_cell).len() > 0 && username_key(trim(new_cell)) is Some
}

/// A reply the correction can go on with: once connected, the award lies on a
/// known tab at a row a window can be read around; the window read back fits
/// the window's row arithmetic. On any other reply after connecting the
/// correction cannot go on.
pub open spec fn update_reply_ok(st: UpdateView, r: ReplyView) -> bool {
    match (st.phase, r) {
        (UpdatePhase::Connecting, ReplyView::Connected) => known_sheet(st.award.sheet) && window_row(st.award.row),
        (UpdatePhase::FindLive(s), ReplyView::Values(v)) => window_fits(s, v.len(), st.award.row),
        _ => true,
    }
}

pub open spec fn update_start(award: AwardView, new_cell: Seq<char>) -> (UpdateView, RequestView) {
    let t = trim(new_cell);
    let stop = UpdateView { phase: UpdatePhase::Done, award, new_cell: t, new_key: seq![] };
    if !located(award) {
        (stop, RequestView::Finish(err_view(EditErrorView::Stale("Award has no sheet location (refresh and try again)"@))))
    } else if t.len() == 0 {
        (stop, RequestView::Finish(err_view(EditErrorView::Validation("Cell value cannot be empty (use delete instead)"@))))
    } else {
        match username_key(t) {
            None => (stop, RequestView::Finish(err_view(EditErrorView::Validation("Cell must start with a username"@)))),
            Some(k) => (UpdateView { phase: UpdatePhase::Connecting, award, new_cell: t, new_key: k }, RequestView::Connect),
        }
    }
}

/// First CSV index at or after `i`, other than sheet row `skip`, whose cell
/// belongs to `key`.
pub open spec fn owned_elsewhere(rows: Seq<Seq<Seq<char>>>, key: Seq<char>, skip: int, i: int) -> Option<int>
    decreases rows.len() - i,
{
    if i < 0 || i >= rows.len() {
        None
    } else if i + 1 != skip && username_key(row_first(rows, i)) == Some(key) {
        Some(i)
    } else {
        owned_elsewhere(rows, key, skip, i + 1)
    }
}

pub open spec fn update_write(st: UpdateView) -> (UpdateView, RequestView) {
    let a = st.award;
    (
        UpdateView { phase: UpdatePhase::Write, ..st },
        RequestView::UpdateValues(a1_text(a.sheet, a.col, a.row as int), seq![seq![st.new_cell]]),
    )
}

pub open spec fn update_step(st: UpdateView, reply: ReplyView) -> (UpdateView, RequestView) {
    let a = st.award;
    let stop = UpdateView { phase: UpdatePhase::Done, ..st };
    match st.phase {
        UpdatePhase::Connecting => match reply {
            ReplyView::Connected => (
                UpdateView { phase: UpdatePhase::FindLive(window_start(a) as i32), ..st },
                RequestView::GetValues(window_range(a)),
            ),
            ReplyView::Failed(e) => (stop, RequestView::Finish(err_view(EditErrorView::Api(e)))),
            _ => (stop, RequestView::Finish(unexpected_view())),
        },
        UpdatePhase::FindLive(start) => match reply {
            ReplyView::Values(v) => match window_match(v, start as int, a.cell, a.row as int) {
                None => (
                    UpdateView { phase: UpdatePhase::StaleRead, ..st },
                    RequestView::GetValues(a1_text(a.sheet, a.col, a.row as int)),
                ),
                Some(lr) => (
                    UpdateView { phase: UpdatePhase::CheckLive, award: AwardView { row: lr as i32, ..a }, ..st },
                    RequestView::GetValues(a1_text(a.sheet, a.col, lr)),
                ),
            },
            ReplyView::Failed(e) => (stop, RequestView::Finish(err_view(EditErrorView::Api("Update failed: "@ + e)))),
            _ => (stop, RequestView::Finish(unexpected_view())),
        },
        UpdatePhase::StaleRead => match reply {
            ReplyView::Values(v) => (
                stop,
                RequestView::Finish(err_view(EditErrorView::Stale(stale_text(a.col, a.row, a.cell, clean(first_value(v)))))),
            ),
            ReplyView::Failed(_) => (
                stop,
                RequestView::Finish(err_view(EditErrorView::Stale(stale_text(a.col, a.row, a.cell, Seq::empty())))),
            ),
            _ => (stop, RequestView::Finish(unexpected_view())),
        },
        UpdatePhase::CheckLive => match reply {
            ReplyView::Values(v) => {
                let live = clean(first_value(v));
                if live != clean(a.cell) {
                    (stop, RequestView::Finish(err_view(EditErrorView::Stale(stale_text(a.col, a.row, a.cell, live)))))
                } else if username_key(a.cell) != Some(st.new_key) {
                    (UpdateView { phase: UpdatePhase::ScanColumn, ..st }, RequestView::GetValues(column_range(a.sheet, a.col)))
                } else {
                    update_write(st)
                }
            },
            ReplyView::Failed(e) => (stop, RequestView::Finish(err_view(EditErrorView::Api("Update failed: "@ + e)))),
            _ => (stop, RequestView::Finish(unexpected_view())),
        },
        UpdatePhase::ScanColumn => match reply {
            ReplyView::Values(v) => match owned_elsewhere(v, st.new_key, a.row as int, data_start(a.sheet) - 1) {
                Some(i) => (
                    stop,
                    RequestView::Finish(err_view(EditErrorView::Conflict(
                        "@"@ + st.new_key + " already has this award column (row "@ + decimal(i + 1) + ")"@,
                    ))),
                ),
                None => update_write(st),
            },
            ReplyView::Failed(e) => (stop, RequestView::Finish(err_view(EditErrorView::Api("Update failed: "@ + e)))),
            _ => (stop, RequestView::Finish(unexpected_view())),
        },
        UpdatePhase::Write => match reply {
            ReplyView::Written => {
                let base = if a.base_name.len() == 0 {
                    a.name
                } else {
                    a.base_name
                };
                let display = match award_display_name(a.category, Some(base), st.new_cell) {
                    Some(n) => n,
                    None => a.name,
                };
                (
                    stop,
                    RequestView::Finish(ok_view(
                        "Updated "@ + a.col + decimal(a.row as int) + " → "@ + st.new_cell,
                        Some(AwardView { name: display, cell: st.new_cell, ..a }),
                    )),
                )
            },
            ReplyView::Failed(e) => (stop, RequestView::Finish(err_view(EditErrorView::Api("Update failed: "@ + e)))),
            _ => (stop, RequestView::Finish(unexpected_view())),
        },
        UpdatePhase::Done => (st, RequestView::Finish(unexpected_view())),
    }
}

/// Start correcting `award`'s cell to `new_cell`.
pub fn update_award_cell(award: &Award, new_cell: &str) -> (r: (UpdateFlow, SheetRequest))
    ensures
        (r.0@, r.1@) == update_start(award@, new_cell@),
        r.0.wf(),
{
    let t = crate::text::trimmed_string(new_cell);
    let loc = !award.sheet.as_str().is_empty() && !award.col.as_str().is_empty() && award.row != 0;
    if !loc {
        let f = UpdateFlow { phase: UpdatePhase::Done, award: award.clone(), new_cell: t, new_key: String::new() };
        return (f, finish_err(EditError::Stale(crate::text::owned("Award has no sheet location (refresh and try again)"))));
    }
    if t.as_str().is_empty() {
        let f = UpdateFlow { phase: UpdatePhase::Done, award: award.clone(), new_cell: t, new_key: String::new() };
        return (f, finish_err(EditError::Validation(crate::text::owned("Cell value cannot be empty (use delete instead)"))));
    }
    match normalize_username(Some(t.as_str())) {
        None => {
            let f = UpdateFlow { phase: UpdatePhase::Done, award: award.clone(), new_cell: t, new_key: String::new() };
            (f, finish_err(EditError::Validation(crate::text::owned("Cell must start with a username"))))
        },
        Some(k) => (
            UpdateFlow { phase: UpdatePhase::Connecting, award: award.clone(), new_cell: t, new_key: k },
            SheetRequest::Connect,
        ),
    }
}

impl UpdateFlow {
    /// Whether `reply` may be handed to `step` (`update_reply_ok`).
    pub fn accepts(&self, reply: &SheetReply) -> (r: bool)
        ensures
            r == update_reply_ok(self@, reply@),
    {
        match (self.phase, reply) {
            (UpdatePhase::Connecting, SheetReply::Connected) => {
                crate::meta::sheet_meta(self.award.sheet.as_str()).is_some() && -2147483624 <= self.award.row
                    && self.award.row <= 2147483623
            },
            (UpdatePhase::FindLive(s), SheetReply::Values(v)) => {
                let n = v.len();
                n <= 2147483647 && (s as i64) + (n as i64) <= 2147483647 && (s as i64) - (self.award.row as i64)
                    > -2147483648 && (s as i64) + (n as i64) - (self.award.row as i64) <= 2147483647
            },
            _ => true,
        }
    }

    fn write(&mut self) -> (r: SheetRequest)
        ensures
            (final(self)@, r@) == update_write(old(self)@),
            final(self).award == old(self).award,
            final(self).new_cell == old(self).new_cell,
            final(self).new_key == old(self).new_key,
    {
        self.phase = UpdatePhase::Write;
        SheetRequest::UpdateValues(
            a1(self.award.sheet.as_str(), self.award.col.as_str(), self.award.row),
            one_cell(&self.new_cell),
        )
    }

    /// Take the client's reply and say what to do next.
    pub fn step(&mut self, reply: SheetReply) -> (r: SheetRequest)
        requires
            old(self).wf(),
            update_reply_ok(old(self)@, reply@),
        ensures
            (final(self)@, r@) == update_step(old(self)@, reply@),
            final(self).wf(),
    {
        match self.phase {
            UpdatePhase::Connecting => match reply {
                SheetReply::Connected => {
                    let (start, range) = live_window(&self.award);
                    self.phase = UpdatePhase::FindLive(start);
                    SheetRequest::GetValues(range)
                },
                SheetReply::Failed(e) => {
                    self.phase = UpdatePhase::Done;
                    finish_err(EditError::Api(e))
                },
                _ => {
                    self.phase = UpdatePhase::Done;
                    unexpected()
                },
            },
            UpdatePhase::FindLive(start) => match reply {
                SheetReply::Values(v) => {
                    proof {
                        lemma_data_start(self.award@.sheet);
                    }
                    match match_row_in_window(&v, start, self.award.cell.as_str(), self.award.row) {
                        None => {
                            self.phase = UpdatePhase::StaleRead;
                            SheetRequest::GetValues(a1(self.award.sheet.as_str(), self.award.col.as_str(), self.award.row))
                        },
                        Some(lr) => {
                            self.phase = UpdatePhase::CheckLive;
                            self.award.row = lr;
                            proof {
                                crate::parse::lemma_window_match_range(rows_view(v@), start as int, self.award@.cell, old(self)@.award.row as int);
                            }
                            SheetRequest::GetValues(a1(self.award.sheet.as_str(), self.award.col.as_str(), lr))
                        },
                    }
                },
                SheetReply::Failed(e) => {
                    self.phase = UpdatePhase::Done;
                    finish_err(EditError::Api(prefixed("Update failed: ", &e)))
                },
                _ => {
                    self.phase = UpdatePhase::Done;
                    unexpected()
                },
            },
            UpdatePhase::StaleRead => {
                self.phase = UpdatePhase::Done;
                match reply {
                    SheetReply::Values(v) => {
                        let live = string_of(&clean_chars(first_value_of(&v)));
                        let msg = cell_stale_message(&self.award, live.as_str());
                        assert(msg@ == stale_text(old(self)@.award.col, old(self)@.award.row, old(self)@.award.cell, clean(first_value(rows_view(v@)))));
                        finish_err(EditError::Stale(msg))
                    },
                    SheetReply::Failed(_) => {
                        proof {
                            reveal_strlit("");
                        }
                        assert(""@ =~= Seq::<char>::empty());
                        let msg = cell_stale_message(&self.award, "");
                        assert(msg@ == stale_text(old(self)@.award.col, old(self)@.award.row, old(self)@.award.cell, Seq::empty()));
                        finish_err(EditError::Stale(msg))
                    },
                    _ => unexpected(),
                }
            },
            UpdatePhase::CheckLive => match reply {
                SheetReply::Values(v) => {
                    let live = clean_chars(first_value_of(&v));
                    let expected = clean_chars(self.award.cell.as_str());
                    if !crate::text::chars_eq(&live, &expected) {
                        self.phase = UpdatePhase::Done;
                        let ls = string_of(&live);
                        let msg = cell_stale_message(&self.award, ls.as_str());
                        assert(msg@ == stale_text(old(self)@.award.col, old(self)@.award.row, old(self)@.award.cell, clean(first_value(rows_view(v@)))));
                        finish_err(EditError::Stale(msg))
                    } else {
                        let same = match normalize_username(Some(self.award.cell.as_str())) {
                            Some(k) => str_eq(k.as_str(), self.new_key.as_str()),
                            None => false,
                        };
                        if !same {
                            self.phase = UpdatePhase::ScanColumn;
                            SheetRequest::GetValues(column_range_of(self.award.sheet.as_str(), self.award.col.as_str()))
                        } else {
                            self.write()
                        }
                    }
                },
                SheetReply::Failed(e) => {
                    self.phase = UpdatePhase::Done;
                    finish_err(EditError::Api(prefixed("Update failed: ", &e)))
                },
                _ => {
                    self.phase = UpdatePhase::Done;
                    unexpected()
                },
            },
            UpdatePhase::ScanColumn => match reply {
                SheetReply::Values(v) => {
                    let start = sheet_data_start_row(self.award.sheet.as_str());
                    match first_owned_elsewhere(&v, self.new_key.as_str(), self.award.row, start) {
                        Some(i) => {
                            self.phase = UpdatePhase::Done;
                            let mut m = chars_of("@");
                            extend_str(&mut m, self.new_key.as_str());
                            extend_str(&mut m, " already has this award column (row ");
                            let n = v.len();
                            assert(i < n);
                            extend_chars(&mut m, &usize_decimal(i + 1));
                            extend_str(&mut m, ")");
                            assert(m@ == "@"@ + self.new_key@ + " already has this award column (row "@ + decimal(i + 1) + ")"@);
                            finish_err(EditError::Conflict(text_of(m)))
                        },
                        None => self.write(),
                    }
                },
                SheetReply::Failed(e) => {
                    self.phase = UpdatePhase::Done;
                    finish_err(EditError::Api(prefixed("Update failed: ", &e)))
                },
                _ => {
                    self.phase = UpdatePhase::Done;
                    unexpected()
                },
            },
            UpdatePhase::Write => match reply {
                SheetReply::Written => {
                    self.phase = UpdatePhase::Done;
                    let base = if self.award.base_name.as_str().is_empty() {
                        self.award.name.as_str()
                    } else {
                        self.award.base_name.as_str()
                    };
                    let display = match format_award_name(self.award.category.as_str(), Some(base), self.new_cell.as_str()) {
                        Some(n) => n,
                        None => copy_string(&self.award.name),
                    };
                    let mut m = chars_of("Updated ");
                    extend_str(&mut m, self.award.col.as_str());
                    extend_chars(&mut m, &decimal_chars(self.award.row as i64));
                    extend_str(&mut m, " → ");
                    extend_str(&mut m, self.new_cell.as_str());
                    assert(m@ == "Updated "@ + self.award@.col + decimal(self.award@.row as int) + " → "@ + self.new_cell@);
                    let updated = Award {
                        category: copy_string(&self.award.category),
                        name: display,
                        sheet: copy_string(&self.award.sheet),
                        col: copy_string(&self.award.col),
                        row: self.award.row,
                        cell: copy_string(&self.new_cell),
                        base_name: copy_string(&self.award.base_name),
                    };
                    SheetRequest::Finish(EditResult::ok_msg(text_of(m), Some(updated)))
                },
                SheetReply::Failed(e) => {
                    self.phase = UpdatePhase::Done;
                    finish_err(EditError::Api(prefixed("Update failed: ", &e)))
                },
                _ => {
                    self.phase = UpdatePhase::Done;
                    unexpected()
                },
            },
            UpdatePhase::Done => unexpected(),
        }
    }
}

fn first_owned_elsewhere(col_vals: &Vec<Vec<String>>, key: &str, skip: i32, start: i32) -> (r: Option<usize>)
    requires
        start >= 1,
    ensures
        match r {
            Some(i) => owned_elsewhere(rows_view(col_vals@), key@, skip as int, start - 1) == Some(i as int)
                && i < col_vals@.len(),
            None => owned_elsewhere(rows_view(col_vals@), key@, skip as int, start - 1) is None,
        },
{
    let ghost rv = rows_view(col_vals@);
    let mut i: usize = (start - 1) as usize;
    if i >= col_vals.len() {
        return None;
    }
    while i < col_vals.len()
        invariant
            i <= col_vals.len(),
            rv == rows_view(col_vals@),
            start >= 1,
            owned_elsewhere(rv, key@, skip as int, start - 1) == owned_elsewhere(rv, key@, skip as int, i as int),
        decreases col_vals.len() - i,
    {
        if i >= 2147483647 || (i as i32) + 1 != skip {
            let cell = first_of(&col_vals[i]);
            assert(cell@ == row_first(rv, i as int));
            if let Some(u) = normalize_username(Some(cell)) {
                if str_eq(u.as_str(), key) {
                    return Some(i);
                }
            }
        }
        i += 1;
    }
    None
}

// ---------------------------------------------------------------------------
// Delete one cell
// ---------------------------------------------------------------------------

#[derive(Debug, Clone, Copy, PartialEq, Eq, Structural)]
pub enum RemovePhase {
    Connecting,
    FindLive(i32),
    StaleRead,
    /// Reading the column from the award's live row down.
    Tail,
    /// Re-reading the award's cell just before the column is rewritten.
    Recheck,
    Write,
    Done,
}

/// Deleting one award cell: the cells below it move up one row.
#[derive(Debug)]
pub struct RemoveFlow {
    pub phase: RemovePhase,
    award: Award,
    remaining: Vec<String>,
}

pub struct RemoveView {
    pub phase: RemovePhase,
    pub award: AwardView,
    pub remaining: Seq<Seq<char>>,
}

impl View for RemoveFlow {
    type V = RemoveView;

    closed spec fn view(&self) -> RemoveView {
        RemoveView { phase: self.phase, award: self.award@, remaining: strings_view(self.remaining@) }
    }
}

impl RemoveFlow {
    pub closed spec fn wf(&self) -> bool {
        &&& self.phase != RemovePhase::Done ==> located(self.award@)
        &&& self.phase != RemovePhase::Done && self.phase != RemovePhase::Connecting ==> known_sheet(self.award@.sheet)
        &&& self.phase matches RemovePhase::FindLive(s) ==> window_row(self.award@.row) && s == window_start(
            self.award@,
        )
        &&& (self.phase == RemovePhase::Tail || self.phase == RemovePhase::Recheck) ==> 1 <= self.award@.row
        &&& self.phase == RemovePhase::Recheck ==> self.award@.row + self.remaining@.len() <= i32::MAX
    }
}

/// A reply the delete can go on with: once connected, the award lies on a
/// known tab at a row a window can be read around; the window read back fits
/// the window's row arithmetic; and the cells below the award, once moved up,
/// end at a row number. On any other reply after connecting the delete
/// cannot go on.
pub open spec fn remove_reply_ok(st: RemoveView, r: ReplyView) -> bool {
    match (st.phase, r) {
        (RemovePhase::Connecting, ReplyView::Connected) => known_sheet(st.award.sheet) && window_row(st.award.row),
        (RemovePhase::FindLive(s), ReplyView::Values(v)) => window_fits(s, v.len(), st.award.row),
        (RemovePhase::Tail, ReplyView::Values(v)) => st.award.row + cells_below(v).len() <= i32::MAX,
        _ => true,
    }
}

pub open spec fn remove_start(award: AwardView) -> (RemoveView, RequestView) {
    if !located(award) {
        (
            RemoveView { phase: RemovePhase::Done, award, remaining: seq![] },
            RequestView::Finish(err_view(EditErrorView::Stale("Award has no sheet location (refresh and try again)"@))),
        )
    } else {
        (RemoveView { phase: RemovePhase::Connecting, award, remaining: seq![] }, RequestView::Connect)
    }
}

/// `'Sheet'!C10:C`, the column from a row down.
pub open spec fn tail_range(sheet: Seq<char>, col: Seq<char>, row: int) -> Seq<char> {
    "'"@ + sheet + "'!"@ + col + decimal(row) + ":"@ + col
}

/// The first cells of the fetched rows after the first.
pub open spec fn cells_below(v: Seq<Seq<Seq<char>>>) -> Seq<Seq<char>> {
    Seq::new(if v.len() > 0 { (v.len() - 1) as nat } else { 0 }, |i: int| first_cell(v[i + 1]))
}

/// The values written back: every cell below moved up, then a blank.
pub open spec fn shifted_values(remaining: Seq<Seq<char>>) -> Seq<Seq<Seq<char>>> {
    remaining.map_values(|c: Seq<char>| seq![c]).push(seq![Seq::<char>::empty()])
}

/// The range rewritten: from the award's row down over the moved cells.
pub open spec fn shift_range(a: AwardView, n: int) -> Seq<char> {
    if a.row + n > a.row {
        span_range(a.sheet, a.col, a.row as int, a.row + n)
    } else {
        a1_text(a.sheet, a.col, a.row as int)
    }
}

pub open spec fn remove_step(st: RemoveView, reply: ReplyView) -> (RemoveView, RequestView) {
    let a = st.award;
    let stop = RemoveView { phase: RemovePhase::Done, ..st };
    match st.phase {
        RemovePhase::Connecting => match reply {
            ReplyView::Connected => (
                RemoveView { phase: RemovePhase::FindLive(window_start(a) as i32), ..st },
                RequestView::GetValues(window_range(a)),
            ),
            ReplyView::Failed(e) => (stop, RequestView::Finish(err_view(EditErrorView::Api(e)))),
            _ => (stop, RequestView::Finish(unexpected_view())),
        },
        RemovePhase::FindLive(start) => match reply {
            ReplyView::Values(v) => match window_match(v, start as int, a.cell, a.row as int) {
                None => (
                    RemoveView { phase: RemovePhase::StaleRead, ..st },
                    RequestView::GetValues(a1_text(a.sheet, a.col, a.row as int)),
                ),
                Some(lr) => (
                    RemoveView { phase: RemovePhase::Tail, award: AwardView { row: lr as i32, ..a }, ..st },
                    RequestView::GetValues(tail_range(a.sheet, a.col, lr)),
                ),
            },
            ReplyView::Failed(e) => (stop, RequestView::Finish(err_view(EditErrorView::Api("Delete failed: "@ + e)))),
            _ => (stop, RequestView::Finish(unexpected_view())),
        },
        RemovePhase::StaleRead => match reply {
            ReplyView::Values(v) => (
                stop,
                RequestView::Finish(err_view(EditErrorView::Stale(stale_text(a.col, a.row, a.cell, clean(first_value(v)))))),
            ),
            ReplyView::Failed(_) => (
                stop,
                RequestView::Finish(err_view(EditErrorView::Stale(stale_text(a.col, a.row, a.cell, Seq::empty())))),
            ),
            _ => (stop, RequestView::Finish(unexpected_view())),
        },
        RemovePhase::Tail => match reply {
            ReplyView::Values(v) => {
                let live = clean(first_value(v));
                if live != clean(a.cell) {
                    (stop, RequestView::Finish(err_view(EditErrorView::Stale(stale_text(a.col, a.row, a.cell, live)))))
                } else {
                    (
                        RemoveView { phase: RemovePhase::Recheck, remaining: cells_below(v), ..st },
                        RequestView::GetValues(a1_text(a.sheet, a.col, a.row as int)),
                    )
                }
            },
            ReplyView::Failed(e) => (stop, RequestView::Finish(err_view(EditErrorView::Api("Delete failed: "@ + e)))),
            _ => (stop, RequestView::Finish(unexpected_view())),
        },
        RemovePhase::Recheck => match reply {
            ReplyView::Values(v) => {
                let live = clean(first_value(v));
                if live != clean(a.cell) {
                    (stop, RequestView::Finish(err_view(EditErrorView::Stale(stale_text(a.col, a.row, a.cell, live)))))
                } else {
                    (
                        RemoveView { phase: RemovePhase::Write, ..st },
                        RequestView::UpdateValues(shift_range(a, st.remaining.len() as int), shifted_values(st.remaining)),
                    )
                }
            },
            ReplyView::Failed(e) => (stop, RequestView::Finish(err_view(EditErrorView::Api("Delete failed: "@ + e)))),
            _ => (stop, RequestView::Finish(unexpected_view())),
        },
        RemovePhase::Write => match reply {
            ReplyView::Written => (
                stop,
                RequestView::Finish(ok_view(
                    "Removed "@ + a.name + " from "@ + a.col + decimal(a.row as int) + " (column shifted up)"@,
                    None,
                )),
            ),
            ReplyView::Failed(e) => (stop, RequestView::Finish(err_view(EditErrorView::Api("Delete failed: "@ + e)))),
            _ => (stop, RequestView::Finish(unexpected_view())),
        },
        RemovePhase::Done => (st, RequestView::Finish(unexpected_view())),
    }
}

/// Start deleting `award`'s cell.
pub fn remove_award(award: &Award) -> (r: (RemoveFlow, SheetRequest))
    ensures
        (r.0@, r.1@) == remove_start(award@),
        r.0.wf(),
{
    let loc = !award.sheet.as_str().is_empty() && !award.col.as_str().is_empty() && award.row != 0;
    let f = RemoveFlow { phase: RemovePhase::Done, award: award.clone(), remaining: Vec::new() };
    assert(strings_view(f.remaining@) =~= Seq::<Seq<char>>::empty());
    if !loc {
        return (f, finish_err(EditError::Stale(crate::text::owned("Award has no sheet location (refresh and try again)"))));
    }
    (RemoveFlow { phase: RemovePhase::Connecting, ..f }, SheetRequest::Connect)
}

fn cells_below_of(v: &Vec<Vec<String>>) -> (r: Vec<String>)
    ensures
        strings_view(r@) == cells_below(rows_view(v@)),
{
    let ghost want = cells_below(rows_view(v@));
    let mut out: Vec<String> = Vec::new();
    let mut i: usize = 1;
    assert(strings_view(out@) =~= want.subrange(0, 0));
    while i < v.len()
        invariant
            1 <= i <= v.len() || (i == 1 && v.len() == 0),
            want == cells_below(rows_view(v@)),
            strings_view(out@) == want.subrange(0, i - 1),
        decreases v.len() - i,
    {
        let c = first_of(&v[i]);
        let ghost before = out@;
        out.push(crate::text::owned(c));
        assert(strings_view(out@) =~= strings_view(before).push(c@));
        i += 1;
        assert(strings_view(out@) =~= want.subrange(0, i - 1));
    }
    assert(want.subrange(0, want.len() as int) =~= want);
    out
}

fn shifted_values_of(remaining: &Vec<String>) -> (r: Vec<Vec<String>>)
    ensures
        rows_view(r@) == shifted_values(strings_view(remaining@)),
{
    let ghost want = strings_view(remaining@).map_values(|c: Seq<char>| seq![c]);
    let mut out: Vec<Vec<String>> = Vec::new();
    let mut i: usize = 0;
    while i < remaining.len()
        invariant
            i <= remaining.len(),
            want == strings_view(remaining@).map_values(|c: Seq<char>| seq![c]),
            rows_view(out@) == want.subrange(0, i as int),
        decreases remaining.len() - i,
    {
        let mut row: Vec<String> = Vec::new();
        row.push(copy_string(&remaining[i]));
        let ghost rv = cells_view(row@);
        assert(rv =~= seq![remaining@[i as int]@]);
        let ghost before = out@;
        out.push(row);
        assert(rows_view(out@) =~= rows_view(before).push(rv));
        i += 1;
        assert(rows_view(out@) =~= want.subrange(0, i as int));
    }
    let mut row: Vec<String> = Vec::new();
    row.push(String::new());
    let ghost rv = cells_view(row@);
    assert(rv =~= seq![Seq::<char>::empty()]);
    let ghost before = out@;
    out.push(row);
    assert(rows_view(out@) =~= rows_view(before).push(rv));
    assert(want.subrange(0, remaining.len() as int) =~= want);
    assert(rows_view(out@) =~= want.push(seq![Seq::<char>::empty()]));
    out
}

impl RemoveFlow {
    /// Whether `reply` may be handed to `step` (`remove_reply_ok`).
    pub fn accepts(&self, reply: &SheetReply) -> (r: bool)
        ensures
            r == remove_reply_ok(self@, reply@),
    {
        match (self.phase, reply) {
            (RemovePhase::Connecting, SheetReply::Connected) => {
                crate::meta::sheet_meta(self.award.sheet.as_str()).is_some() && -2147483624 <= self.award.row
                    && self.award.row <= 2147483623
            },
            (RemovePhase::FindLive(s), SheetReply::Values(v)) => {
                let n = v.len();
                n <= 2147483647 && (s as i64) + (n as i64) <= 2147483647 && (s as i64) - (self.award.row as i64)
                    > -2147483648 && (s as i64) + (n as i64) - (self.award.row as i64) <= 2147483647
            },
            (RemovePhase::Tail, SheetReply::Values(v)) => {
                let n = v.len();
                assert(rows_view(v@).len() == n);
                assert(cells_below(rows_view(v@)).len() == if n > 0 {
                    n - 1
                } else {
                    0
                });
                if n == 0 {
                    true
                } else {
                    (n as u64) <= 4294967296u64 && (self.award.row as i64) + (n as i64) - 1 <= 2147483647
                }
            },
            _ => true,
        }
    }

    /// Take the client's reply and say what to do next.
    pub fn step(&mut self, reply: SheetReply) -> (r: SheetRequest)
        requires
            old(self).wf(),
            remove_reply_ok(old(self)@, reply@),
        ensures
            (final(self)@, r@) == remove_step(old(self)@, reply@),
            final(self).wf(),
    {
        match self.phase {
            RemovePhase::Connecting => match reply {
                SheetReply::Connected => {
                    let (start, range) = live_window(&self.award);
                    self.phase = RemovePhase::FindLive(start);
                    SheetRequest::GetValues(range)
                },
                SheetReply::Failed(e) => {
                    self.phase = RemovePhase::Done;
                    finish_err(EditError::Api(e))
                },
                _ => {
                    self.phase = RemovePhase::Done;
                    unexpected()
                },
            },
            RemovePhase::FindLive(start) => match reply {
                SheetReply::Values(v) => {
                    proof {
                        lemma_data_start(self.award@.sheet);
                    }
                    match match_row_in_window(&v, start, self.award.cell.as_str(), self.award.row) {
                        None => {
                            self.phase = RemovePhase::StaleRead;
                            SheetRequest::GetValues(a1(self.award.sheet.as_str(), self.award.col.as_str(), self.award.row))
                        },
                        Some(lr) => {
                            proof {
                                crate::parse::lemma_window_match_range(rows_view(v@), start as int, self.award@.cell, self.award@.row as int);
                            }
                            self.phase = RemovePhase::Tail;
                            self.award.row = lr;
                            let mut m = chars_of("'");
                            extend_str(&mut m, self.award.sheet.as_str());
                            extend_str(&mut m, "'!");
                            extend_str(&mut m, self.award.col.as_str());
                            extend_chars(&mut m, &decimal_chars(lr as i64));
                            extend_str(&mut m, ":");
                            extend_str(&mut m, self.award.col.as_str());
                            SheetRequest::GetValues(text_of(m))
                        },
                    }
                },
                SheetReply::Failed(e) => {
                    self.phase = RemovePhase::Done;
                    finish_err(EditError::Api(prefixed("Delete failed: ", &e)))
                },
                _ => {
                    self.phase = RemovePhase::Done;
                    unexpected()
                },
            },
            RemovePhase::StaleRead => {
                self.phase = RemovePhase::Done;
                match reply {
                    SheetReply::Values(v) => {
                        let live = string_of(&clean_chars(first_value_of(&v)));
                        finish_err(EditError::Stale(cell_stale_message(&self.award, live.as_str())))
                    },
                    SheetReply::Failed(_) => {
                        proof {
                            reveal_strlit("");
                        }
                        assert(""@ =~= Seq::<char>::empty());
                        finish_err(EditError::Stale(cell_stale_message(&self.award, "")))
                    },
                    _ => unexpected(),
                }
            },
            RemovePhase::Tail => match reply {
                SheetReply::Values(v) => {
                    let live = clean_chars(first_value_of(&v));
                    let expected = clean_chars(self.award.cell.as_str());
                    if !crate::text::chars_eq(&live, &expected) {
                        self.phase = RemovePhase::Done;
                        let ls = string_of(&live);
                        finish_err(EditError::Stale(cell_stale_message(&self.award, ls.as_str())))
                    } else {
                        self.remaining = cells_below_of(&v);
                        assert(strings_view(self.remaining@).len() == self.remaining@.len());
                        assert(rows_view(v@).len() == v@.len());
                        self.phase = RemovePhase::Recheck;
                        SheetRequest::GetValues(a1(self.award.sheet.as_str(), self.award.col.as_str(), self.award.row))
                    }
                },
                SheetReply::Failed(e) => {
                    self.phase = RemovePhase::Done;
                    finish_err(EditError::Api(prefixed("Delete failed: ", &e)))
                },
                _ => {
                    self.phase = RemovePhase::Done;
                    unexpected()
                },
            },
            RemovePhase::Recheck => match reply {
                SheetReply::Values(v) => {
                    let live = clean_chars(first_value_of(&v));
                    let expected = clean_chars(self.award.cell.as_str());
                    if !crate::text::chars_eq(&live, &expected) {
                        self.phase = RemovePhase::Done;
                        let ls = string_of(&live);
                        finish_err(EditError::Stale(cell_stale_message(&self.award, ls.as_str())))
                    } else {
                        self.phase = RemovePhase::Write;
                        let n = self.remaining.len() as i32;
                        let end = self.award.row + n;
                        let range = if end > self.award.row {
                            span_range_of(self.award.sheet.as_str(), self.award.col.as_str(), self.award.row, end)
                        } else {
                            a1(self.award.sheet.as_str(), self.award.col.as_str(), self.award.row)
                        };
                        SheetRequest::UpdateValues(range, shifted_values_of(&self.remaining))
                    }
                },
                SheetReply::Failed(e) => {
                    self.phase = RemovePhase::Done;
                    finish_err(EditError::Api(prefixed("Delete failed: ", &e)))
                },
                _ => {
                    self.phase = RemovePhase::Done;
                    unexpected()
                },
            },
            RemovePhase::Write => match reply {
                SheetReply::Written => {
                    self.phase = RemovePhase::Done;
                    let mut m = chars_of("Removed ");
                    extend_str(&mut m, self.award.name.as_str());
                    extend_str(&mut m, " from ");
                    extend_str(&mut m, self.award.col.as_str());
                    extend_chars(&mut m, &decimal_chars(self.award.row as i64));
                    extend_str(&mut m, " (column shifted up)");
                    SheetRequest::Finish(EditResult::ok_msg(text_of(m), None))
                },
                SheetReply::Failed(e) => {
                    self.phase = RemovePhase::Done;
                    finish_err(EditError::Api(prefixed("Delete failed: ", &e)))
                },
                _ => {
                    self.phase = RemovePhase::Done;
                    unexpected()
                },
            },
            RemovePhase::Done => unexpected(),
        }
    }
}

// ---------------------------------------------------------------------------
// Rename a member everywhere
// ---------------------------------------------------------------------------

/// The awards of one column, as a rename touches them.
#[derive(Debug)]
pub struct ColumnGroup {
    pub sheet: String,
    pub col: String,
    pub awards: Vec<Award>,
}

impl View for ColumnGroup {
    type V = ((Seq<char>, Seq<char>), Seq<AwardView>);

    open spec fn view(&self) -> ((Seq<char>, Seq<char>), Seq<AwardView>) {
        ((self.sheet@, self.col@), awards_view(self.awards@))
    }
}

/// Columns in sheet order, then column order.
pub struct ColumnOrder;

impl SortOrder<ColumnGroup> for ColumnOrder {
    open spec fn le(a: ((Seq<char>, Seq<char>), Seq<AwardView>), b: ((Seq<char>, Seq<char>), Seq<AwardView>)) -> bool {
        crate::audit::seq_lt(a.0.0, b.0.0) || (a.0.0 == b.0.0 && seq_le(a.0.1, b.0.1))
    }

    fn le_exec(a: &ColumnGroup, b: &ColumnGroup) -> (r: bool) {
        let a0 = chars_of(a.sheet.as_str());
        let b0 = chars_of(b.sheet.as_str());
        let a1 = chars_of(a.col.as_str());
        let b1 = chars_of(b.col.as_str());
        let same0 = crate::text::chars_eq(&a0, &b0);
        if !same0 {
            return seq_le_exec(&a0, &b0);
        }
        seq_le_exec(&a1, &b1)
    }
}

/// The awards grouped by column, in first-seen order.
pub open spec fn group_by_column(awards: Seq<AwardView>) -> Seq<((Seq<char>, Seq<char>), Seq<AwardView>)>
    decreases awards.len(),
{
    if awards.len() == 0 {
        seq![]
    } else {
        add_to(group_by_column(awards.drop_last()), (awards.last().sheet, awards.last().col), awards.last())
    }
}

/// The member's awards with a full sheet location, grouped by column in sheet
/// and column order.
pub open spec fn rename_groups(awards: Seq<AwardView>) -> Seq<((Seq<char>, Seq<char>), Seq<AwardView>)> {
    sorted_stable(group_by_column(located_only(awards)), order_of::<ColumnGroup, ColumnOrder>())
}

/// The awards with a full sheet location, in order.
pub open spec fn located_only(awards: Seq<AwardView>) -> Seq<AwardView>
    decreases awards.len(),
{
    if awards.len() == 0 {
        awards
    } else if located(awards.last()) {
        located_only(awards.drop_last()).push(awards.last())
    } else {
        located_only(awards.drop_last())
    }
}

/// A located award sits on a known tab.
pub open spec fn on_known_tab(a: AwardView) -> bool {
    located(a) ==> known_sheet(a.sheet)
}

/// Whether a located `award` sits on a known tab (`on_known_tab`).
pub fn award_on_known_tab(award: &Award) -> (r: bool)
    ensures
        r == on_known_tab(award@),
{
    let loc = !award.sheet.as_str().is_empty() && !award.col.as_str().is_empty() && award.row != 0;
    !loc || crate::meta::sheet_meta(award.sheet.as_str()).is_some()
}

/// Every located award of the index sits on a known tab.
pub open spec fn index_ok(index: Seq<(Seq<char>, Seq<AwardView>)>) -> bool {
    forall|i: int, j: int| 0 <= i < index.len() && 0 <= j < index[i].1.len() ==> on_known_tab(#[trigger] index[i].1[j])
}

/// One planned write: range, values, and the award as it will read.
pub open spec fn writes3_view(v: Seq<(String, Vec<Vec<String>>, Award)>) -> Seq<(Seq<char>, Seq<Seq<Seq<char>>>, AwardView)> {
    v.map_values(|w: (String, Vec<Vec<String>>, Award)| (w.0@, rows_view(w.1@), w.2@))
}

/// What a rename has gathered so far.
pub struct RenameAcc {
    pub writes: Seq<(Seq<char>, Seq<Seq<Seq<char>>>, AwardView)>,
    pub done: Seq<AwardView>,
    pub skipped: u64,
    pub overlaps: Seq<Seq<char>>,
}

/// One column's progress: planned writes, cells already renamed, rows the
/// rename owns in place.
pub struct ColState {
    pub pending: Seq<(Seq<char>, Seq<Seq<Seq<char>>>, AwardView)>,
    pub done: Seq<AwardView>,
    pub skipped: u64,
    pub allowed: Set<i32>,
}

pub open spec fn sat_inc(n: u64) -> u64 {
    if n < u64::MAX {
        (n + 1) as u64
    } else {
        n
    }
}

/// The award as it reads with `cell` at `row`.
pub open spec fn renamed(a: AwardView, row: i32, cell: Seq<char>) -> AwardView {
    AwardView {
        name: match award_display_name(a.category, Some(a.base_name), cell) {
            Some(n) => n,
            None => a.name,
        },
        row,
        cell,
        ..a
    }
}

/// The cleaned first cell of sheet row `row` of a whole-column fetch.
pub open spec fn live_at(v: Seq<Seq<Seq<char>>>, row: int) -> Seq<char> {
    clean(first_cell(v[row - 1]))
}

/// One award of a column, checked against the live column `v`.
pub open spec fn rename_one(
    cs: ColState,
    v: Seq<Seq<Seq<char>>>,
    a: AwardView,
    old_key: Seq<char>,
    new_key: Seq<char>,
    display_new: Seq<char>,
) -> ColState {
    let skip = ColState { skipped: sat_inc(cs.skipped), ..cs };
    match replaced_cell(a.cell, display_new) {
        None => skip,
        Some(expected_new) => {
            let first = match window_match(v, 1, a.cell, a.row as int) {
                Some(row) => if username_key(live_at(v, row)) == Some(old_key) {
                    let live = live_at(v, row);
                    match replaced_cell(live, display_new) {
                        None => Some(skip),
                        Some(nc) => if nc == live {
                            Some(ColState { done: cs.done.push(renamed(a, row as i32, nc)), allowed: cs.allowed.insert(row as i32), ..cs })
                        } else {
                            Some(ColState {
                                pending: cs.pending.push((a1_text(a.sheet, a.col, row), seq![seq![nc]], renamed(a, row as i32, nc))),
                                allowed: cs.allowed.insert(row as i32),
                                ..cs
                            })
                        },
                    }
                } else {
                    None
                },
                None => None,
            };
            match first {
                Some(c) => c,
                None => match window_match(v, 1, expected_new, a.row as int) {
                    Some(row) => if username_key(live_at(v, row)) == Some(new_key) {
                        ColState {
                            done: cs.done.push(renamed(a, row as i32, live_at(v, row))),
                            allowed: cs.allowed.insert(row as i32),
                            ..cs
                        }
                    } else {
                        skip
                    },
                    None => skip,
                },
            }
        },
    }
}

/// The first `n` awards of a column.
pub open spec fn rename_column(
    cs: ColState,
    v: Seq<Seq<Seq<char>>>,
    awards: Seq<AwardView>,
    old_key: Seq<char>,
    new_key: Seq<char>,
    display_new: Seq<char>,
    n: int,
) -> ColState
    decreases n,
{
    if n <= 0 {
        cs
    } else {
        rename_one(rename_column(cs, v, awards, old_key, new_key, display_new, n - 1), v, awards[n - 1], old_key, new_key, display_new)
    }
}

/// The name shown for an award in an overlap note.
pub open spec fn short_name(a: AwardView) -> Seq<char> {
    if a.base_name.len() == 0 {
        a.name
    } else {
        a.base_name
    }
}

/// Last index of `done` in column (`sheet`, `col`).
pub open spec fn last_in_column(done: Seq<AwardView>, sheet: Seq<char>, col: Seq<char>) -> Option<int>
    decreases done.len(),
{
    if done.len() == 0 {
        None
    } else if done.last().sheet == sheet && done.last().col == col {
        Some(done.len() - 1)
    } else {
        last_in_column(done.drop_last(), sheet, col)
    }
}

/// The rename's progress after one whole column.
pub open spec fn rename_after_column(
    acc: RenameAcc,
    key: (Seq<char>, Seq<char>),
    awards: Seq<AwardView>,
    v: Seq<Seq<Seq<char>>>,
    old_key: Seq<char>,
    new_key: Seq<char>,
    display_new: Seq<char>,
) -> RenameAcc {
    let cs0 = ColState { pending: seq![], done: acc.done, skipped: acc.skipped, allowed: Set::empty() };
    let cs = rename_column(cs0, v, awards, old_key, new_key, display_new, awards.len() as int);
    let overlaps = match foreign_from(v, new_key, cs.allowed, data_start(key.0) - 1) {
        Some(row) => {
            let name = if cs.pending.len() > 0 {
                short_name(cs.pending[0].2)
            } else {
                match last_in_column(cs.done, key.0, key.1) {
                    Some(i) => short_name(cs.done[i]),
                    None => key.1 + decimal(row),
                }
            };
            acc.overlaps.push(name + " "@ + key.1 + decimal(row))
        },
        None => acc.overlaps,
    };
    RenameAcc { writes: acc.writes + cs.pending, done: cs.done, skipped: cs.skipped, overlaps }
}

#[derive(Debug, Clone, Copy, PartialEq, Eq, Structural)]
pub enum RenamePhase {
    Loading,
    Connecting,
    /// Reading the whole column of group `k`.
    Column(usize),
    Batch,
    Done,
}

/// Rewriting every cell of one member to a new username, suffixes kept.
#[derive(Debug)]
pub struct RenameFlow {
    pub phase: RenamePhase,
    old_key: String,
    new_key: String,
    display_new: String,
    groups: Vec<ColumnGroup>,
    existing_new: usize,
    writes: Vec<(String, Vec<Vec<String>>, Award)>,
    done: Vec<Award>,
    skipped: u64,
    overlaps: Vec<String>,
}

pub struct RenameView {
    pub phase: RenamePhase,
    pub old_key: Seq<char>,
    pub new_key: Seq<char>,
    pub display_new: Seq<char>,
    pub groups: Seq<((Seq<char>, Seq<char>), Seq<AwardView>)>,
    pub existing_new: usize,
    pub acc: RenameAcc,
}

impl View for RenameFlow {
    type V = RenameView;

    closed spec fn view(&self) -> RenameView {
        RenameView {
            phase: self.phase,
            old_key: self.old_key@,
            new_key: self.new_key@,
            display_new: self.display_new@,
            groups: views(self.groups@),
            existing_new: self.existing_new,
            acc: RenameAcc {
                writes: writes3_view(self.writes@),
                done: awards_view(self.done@),
                skipped: self.skipped,
                overlaps: strings_view(self.overlaps@),
            },
        }
    }
}

pub open spec fn empty_acc() -> RenameAcc {
    RenameAcc { writes: seq![], done: seq![], skipped: 0, overlaps: seq![] }
}

/// A non-empty group on a known tab.
pub open spec fn group_ok(g: ((Seq<char>, Seq<char>), Seq<AwardView>)) -> bool {
    &&& known_sheet(g.0.0)
    &&& g.1.len() > 0
}

pub open spec fn groups_ok(groups: Seq<((Seq<char>, Seq<char>), Seq<AwardView>)>) -> bool {
    forall|i: int| 0 <= i < groups.len() ==> group_ok(#[trigger] groups[i])
}

/// A reply the rename can go on with: a column read back can be matched
/// against the row of each award the rename looks for in it. On any other
/// column read the rename cannot go on.
pub open spec fn rename_reply_ok(st: RenameView, r: ReplyView) -> bool {
    match (st.phase, r) {
        (RenamePhase::Column(k), ReplyView::Values(v)) => 0 <= k < st.groups.len() ==> forall|j: int|
            0 <= j < st.groups[k as int].1.len() ==> window_fits(1, v.len(), #[trigger] st.groups[k as int].1[j].row),
        _ => true,
    }
}

impl RenameFlow {
    pub closed spec fn wf(&self) -> bool {
        &&& groups_ok(views(self.groups@))
        &&& self.phase matches RenamePhase::Column(k) ==> k < self.groups@.len()
        &&& self.phase == RenamePhase::Connecting ==> self.groups@.len() > 0
    }
}

/// Where a rename goes once the member's awards are known.
pub open spec fn rename_prepare(
    old_key: Seq<char>,
    new_key: Seq<char>,
    display_new: Seq<char>,
    index: Seq<(Seq<char>, Seq<AwardView>)>,
) -> (RenameView, RequestView) {
    let awards = located_only(bucket_of(index, lookup_key(old_key)));
    let st = RenameView {
        phase: RenamePhase::Connecting,
        old_key,
        new_key,
        display_new,
        groups: rename_groups(bucket_of(index, lookup_key(old_key))),
        existing_new: bucket_of(index, lookup_key(new_key)).len() as usize,
        acc: empty_acc(),
    };
    if awards.len() == 0 {
        (
            RenameView { phase: RenamePhase::Done, ..st },
            RequestView::Finish(err_view(EditErrorView::NotFound("No sheet cells found for @"@ + old_key))),
        )
    } else {
        (st, RequestView::Connect)
    }
}

pub open spec fn rename_stop(old_key: Seq<char>, new_key: Seq<char>, display_new: Seq<char>) -> RenameView {
    RenameView {
        phase: RenamePhase::Done,
        old_key,
        new_key,
        display_new,
        groups: seq![],
        existing_new: 0,
        acc: empty_acc(),
    }
}

/// Starting a rename: both names are checked before anything is read.
pub open spec fn rename_start(
    old_username: Seq<char>,
    new_username: Seq<char>,
    data: Option<Seq<(Seq<char>, Seq<AwardView>)>>,
) -> (RenameView, RequestView) {
    match username_key(old_username) {
        None => (
            rename_stop(seq![], seq![], seq![]),
            RequestView::Finish(err_view(EditErrorView::Validation("Old username required"@))),
        ),
        Some(old_key) => match bare_name(new_username) {
            None => (
                rename_stop(old_key, seq![], seq![]),
                RequestView::Finish(err_view(EditErrorView::Validation(
                    "New username must be a bare Roblox name (letters, digits, underscore only)"@,
                ))),
            ),
            Some(display_new) => {
                let new_key = lower_seq(display_new);
                if old_key == new_key {
                    (
                        rename_stop(old_key, new_key, display_new),
                        RequestView::Finish(err_view(EditErrorView::Validation("New username is the same as the current name"@))),
                    )
                } else {
                    match data {
                        None => (RenameView { phase: RenamePhase::Loading, ..rename_stop(old_key, new_key, display_new) }, RequestView::LoadData),
                        Some(index) => rename_prepare(old_key, new_key, display_new, index),
                    }
                }
            },
        },
    }
}

/// Once every column is read: refuse on overlaps, report what was already
/// done, or write the planned cells in one batch.
pub open spec fn rename_conclude(st: RenameView) -> (RenameView, RequestView) {
    let acc = st.acc;
    let stop = RenameView { phase: RenamePhase::Done, ..st };
    if acc.overlaps.len() > 0 {
        (
            stop,
            RequestView::Finish(err_view(EditErrorView::Conflict(
                "@"@ + st.new_key + " already has "@ + decimal(acc.overlaps.len() as int)
                    + " overlapping award column(s) on the live sheet ("@ + join(
                    acc.overlaps.take(if acc.overlaps.len() < 5 { acc.overlaps.len() as int } else { 5 }),
                    ", "@,
                ) + "). Resolve those first."@,
            ))),
        )
    } else if acc.writes.len() == 0 {
        if acc.done.len() > 0 {
            (
                stop,
                RequestView::Finish(ok_many_view(
                    "@"@ + st.old_key + " → "@ + st.display_new + ": "@ + decimal(acc.done.len() as int)
                        + " cell(s) already updated on the live sheet"@,
                    acc.done,
                )),
            )
        } else {
            (
                stop,
                RequestView::Finish(err_view(EditErrorView::Stale(
                    "No live cells still belonged to @"@ + st.old_key + ". Refresh and try again."@,
                ))),
            )
        }
    } else {
        (
            RenameView { phase: RenamePhase::Batch, ..st },
            RequestView::BatchUpdate(acc.writes.map_values(|w: (Seq<char>, Seq<Seq<Seq<char>>>, AwardView)| (w.0, w.1))),
        )
    }
}

pub open spec fn write_awards(w: Seq<(Seq<char>, Seq<Seq<Seq<char>>>, AwardView)>) -> Seq<AwardView> {
    w.map_values(|x: (Seq<char>, Seq<Seq<Seq<char>>>, AwardView)| x.2)
}

/// The finished rename's summary.
pub open spec fn rename_message(st: RenameView) -> Seq<char> {
    let acc = st.acc;
    "Renamed @"@ + st.old_key + " → "@ + st.display_new + " in "@ + decimal(acc.writes.len() as int) + " cell(s)"@
        + (if acc.done.len() > 0 { " · "@ + decimal(acc.done.len() as int) + " already done"@ } else { Seq::empty() })
        + (if acc.skipped > 0 { " · skipped "@ + decimal(acc.skipped as int) + " stale/moved"@ } else { Seq::empty() })
        + (if st.existing_new > 0 {
            " · merged with "@ + decimal(st.existing_new as int) + " existing @"@ + st.new_key + " award(s)"@
        } else {
            Seq::empty()
        })
}

/// A batch that stopped after `n` ranges.
pub open spec fn rename_partial(st: RenameView, n: usize, e: Seq<char>) -> ResultView {
    let acc = st.acc;
    let w = if n < acc.writes.len() { n as int } else { acc.writes.len() as int };
    let rest = acc.writes.skip(w).map_values(|x: (Seq<char>, Seq<Seq<Seq<char>>>, AwardView)| x.0);
    let updated = acc.done + write_awards(acc.writes.take(w));
    if updated.len() == 0 {
        err_view(EditErrorView::Api("Rename write failed: "@ + e))
    } else {
        err_partial_view(
            EditErrorView::Api(
                "Renamed "@ + decimal(w) + " cell(s) for @"@ + st.old_key + " → "@ + st.display_new
                    + ", then write failed ("@ + e + "). Remaining "@ + decimal(rest.len() as int) + ": "@
                    + remaining_text(rest) + ". Retry the same rename to finish."@,
            ),
            updated,
        )
    }
}

pub open spec fn column_request(st: RenameView, k: int) -> RequestView {
    RequestView::GetValues(column_range(st.groups[k].0.0, st.groups[k].0.1))
}

pub open spec fn rename_step(st: RenameView, reply: ReplyView) -> (RenameView, RequestView) {
    let stop = RenameView { phase: RenamePhase::Done, ..st };
    match st.phase {
        RenamePhase::Loading => match reply {
            ReplyView::Data(index) => rename_prepare(st.old_key, st.new_key, st.display_new, index),
            ReplyView::Failed(e) => (stop, RequestView::Finish(err_view(EditErrorView::Api(e)))),
            _ => (stop, RequestView::Finish(unexpected_view())),
        },
        RenamePhase::Connecting => match reply {
            ReplyView::Connected => (RenameView { phase: RenamePhase::Column(0), ..st }, column_request(st, 0)),
            ReplyView::Failed(e) => (stop, RequestView::Finish(err_view(EditErrorView::Api(e)))),
            _ => (stop, RequestView::Finish(unexpected_view())),
        },
        RenamePhase::Column(k) => match reply {
            ReplyView::Values(v) => {
                let g = st.groups[k as int];
                let next = RenameView {
                    acc: rename_after_column(st.acc, g.0, g.1, v, st.old_key, st.new_key, st.display_new),
                    ..st
                };
                if k + 1 < st.groups.len() {
                    (RenameView { phase: RenamePhase::Column((k + 1) as usize), ..next }, column_request(st, k + 1))
                } else {
                    rename_conclude(next)
                }
            },
            ReplyView::Failed(e) => (
                stop,
                RequestView::Finish(err_view(EditErrorView::Api(
                    "Could not re-read "@ + st.groups[k as int].0.0 + "!"@ + st.groups[k as int].0.1 + " before rename: "@ + e,
                ))),
            ),
            _ => (stop, RequestView::Finish(unexpected_view())),
        },
        RenamePhase::Batch => match reply {
            ReplyView::Written => (
                stop,
                RequestView::Finish(ok_many_view(rename_message(st), st.acc.done + write_awards(st.acc.writes))),
            ),
            ReplyView::BatchFailed(n, e) => (stop, RequestView::Finish(rename_partial(st, n, e))),
            ReplyView::Failed(e) => (stop, RequestView::Finish(rename_partial(st, 0, e))),
            _ => (stop, RequestView::Finish(unexpected_view())),
        },
        RenamePhase::Done => (st, RequestView::Finish(unexpected_view())),
    }
}

proof fn lemma_located_only(awards: Seq<AwardView>)
    ensures
        forall|j: int| 0 <= j < located_only(awards).len() ==> awards.contains(#[trigger] located_only(awards)[j])
            && located(located_only(awards)[j]),
    decreases awards.len(),
{
    if awards.len() > 0 {
        let d = awards.drop_last();
        lemma_located_only(d);
        let r = located_only(awards);
        assert forall|j: int| 0 <= j < r.len() implies awards.contains(#[trigger] r[j]) && located(r[j]) by {
            if j < located_only(d).len() {
                let k = choose|k: int| 0 <= k < d.len() && d[k] == located_only(d)[j];
                assert(awards[k] == r[j]);
            } else {
                assert(awards[awards.len() - 1] == r[j]);
            }
        }
    }
}

/// Grouping awards that sit on known tabs gives usable groups.
proof fn lemma_groups_ok(awards: Seq<AwardView>)
    requires
        forall|j: int| 0 <= j < awards.len() ==> located(#[trigger] awards[j]) && on_known_tab(awards[j]),
    ensures
        groups_ok(group_by_column(awards)),
    decreases awards.len(),
{
    if awards.len() > 0 {
        let d = awards.drop_last();
        assert forall|j: int| 0 <= j < d.len() implies located(#[trigger] d[j]) && on_known_tab(d[j]) by {
            assert(d[j] == awards[j]);
        }
        lemma_groups_ok(d);
        let m = group_by_column(d);
        let a = awards.last();
        assert(located(awards[awards.len() - 1]) && on_known_tab(awards[awards.len() - 1]));
        let k = (a.sheet, a.col);
        lemma_key_pos(m, k);
        let r = group_by_column(awards);
        assert forall|i: int| 0 <= i < r.len() implies group_ok(#[trigger] r[i]) by {
            match key_pos(m, k) {
                Some(p) => {
                    if i == p {
                        assert(group_ok(m[p]));
                    } else {
                        assert(r[i] == m[i]);
                    }
                },
                None => {
                    if i < m.len() {
                        assert(r[i] == m[i]);
                    }
                },
            }
        }
    }
}

proof fn lemma_rename_groups_ok(index: Seq<(Seq<char>, Seq<AwardView>)>, key: Seq<char>)
    requires
        index_ok(index),
    ensures
        groups_ok(rename_groups(bucket_of(index, key))),
        rename_groups(bucket_of(index, key)).len() == group_by_column(located_only(bucket_of(index, key))).len(),
{
    let b = bucket_of(index, key);
    lemma_key_pos(index, key);
    assert forall|j: int| 0 <= j < b.len() implies on_known_tab(#[trigger] b[j]) by {
        if let Some(i) = key_pos(index, key) {
            assert(b[j] == index[i].1[j]);
        }
    }
    lemma_located_only(b);
    let l = located_only(b);
    assert forall|j: int| 0 <= j < l.len() implies located(#[trigger] l[j]) && on_known_tab(l[j]) by {
        let k = choose|k: int| 0 <= k < b.len() && b[k] == l[j];
    }
    lemma_groups_ok(l);
    let g = group_by_column(l);
    let le = order_of::<ColumnGroup, ColumnOrder>();
    lemma_sorted_members(g, le);
    let r = sorted_stable(g, le);
    assert forall|i: int| 0 <= i < r.len() implies group_ok(#[trigger] r[i]) by {
        let k = choose|k: int| 0 <= k < g.len() && g[k] == r[i];
        assert(group_ok(g[k]));
    }
}

proof fn lemma_groups_nonempty(awards: Seq<AwardView>)
    ensures
        awards.len() > 0 ==> group_by_column(awards).len() > 0,
    decreases awards.len(),
{
    if awards.len() > 0 {
        lemma_groups_nonempty(awards.drop_last());
        lemma_key_pos(group_by_column(awards.drop_last()), (awards.last().sheet, awards.last().col));
    }
}

fn located_awards(awards: &Vec<Award>) -> (r: Vec<Award>)
    ensures
        awards_view(r@) == located_only(awards_view(awards@)),
{
    let ghost av = awards_view(awards@);
    let mut out: Vec<Award> = Vec::new();
    let mut i: usize = 0;
    assert(awards_view(out@) =~= located_only(av.subrange(0, 0)));
    while i < awards.len()
        invariant
            i <= awards.len(),
            av == awards_view(awards@),
            awards_view(out@) == located_only(av.subrange(0, i as int)),
        decreases awards.len() - i,
    {
        let a = &awards[i];
        assert(av.subrange(0, i + 1).drop_last() =~= av.subrange(0, i as int));
        assert(av.subrange(0, i + 1).last() == a@);
        if !a.sheet.as_str().is_empty() && !a.col.as_str().is_empty() && a.row != 0 {
            let ghost before = out@;
            out.push(a.clone());
            assert(awards_view(out@) =~= awards_view(before).push(a@));
        }
        i += 1;
    }
    assert(av.subrange(0, awards.len() as int) =~= av);
    out
}

fn group_columns(awards: &Vec<Award>) -> (r: Vec<ColumnGroup>)
    ensures
        views(r@) == group_by_column(awards_view(awards@)),
{
    let ghost av = awards_view(awards@);
    let mut out: Vec<ColumnGroup> = Vec::new();
    assert(views(out@) =~= group_by_column(av.subrange(0, 0)));
    let mut i: usize = 0;
    while i < awards.len()
        invariant
            i <= awards.len(),
            av == awards_view(awards@),
            views(out@) == group_by_column(av.subrange(0, i as int)),
        decreases awards.len() - i,
    {
        let a = &awards[i];
        assert(av.subrange(0, i + 1).drop_last() =~= av.subrange(0, i as int));
        assert(av.subrange(0, i + 1).last() == a@);
        let ghost gv = views(out@);
        let ghost k = (a@.sheet, a@.col);
        proof {
            lemma_key_pos(gv, k);
        }
        let mut j: usize = 0;
        let mut found = false;
        while j < out.len() && !found
            invariant
                j <= out.len(),
                gv == views(out@),
                k == (a@.sheet, a@.col),
                found ==> j < out.len() && gv[j as int].0 == k,
                forall|q: int| 0 <= q < j ==> gv[q].0 != k,
            decreases out.len() - j + (if found { 0int } else { 1int }),
        {
            if str_eq(out[j].sheet.as_str(), a.sheet.as_str()) && str_eq(out[j].col.as_str(), a.col.as_str()) {
                found = true;
            } else {
                j += 1;
            }
        }
        if found {
            proof {
                lemma_key_pos_unique(gv, k, j as int);
            }
            let mut g = out.remove(j);
            let ghost before = g.awards@;
            g.awards.push(a.clone());
            assert(awards_view(g.awards@) =~= awards_view(before).push(a@));
            out.insert(j, g);
            assert(views(out@) =~= gv.update(j as int, (k, gv[j as int].1.push(a@))));
        } else {
            let mut aw: Vec<Award> = Vec::new();
            aw.push(a.clone());
            assert(awards_view(aw@) =~= seq![a@]);
            out.push(ColumnGroup { sheet: copy_string(&a.sheet), col: copy_string(&a.col), awards: aw });
            assert(views(out@) =~= gv.push((k, seq![a@])));
        }
        i += 1;
    }
    assert(av.subrange(0, awards.len() as int) =~= av);
    out
}

fn empty_rename(phase: RenamePhase, old_key: String, new_key: String, display_new: String) -> (r: RenameFlow)
    requires
        phase == RenamePhase::Done || phase == RenamePhase::Loading,
    ensures
        r@ == (RenameView { phase, ..rename_stop(old_key@, new_key@, display_new@) }),
        r.wf(),
{
    let r = RenameFlow {
        phase,
        old_key,
        new_key,
        display_new,
        groups: Vec::new(),
        existing_new: 0,
        writes: Vec::new(),
        done: Vec::new(),
        skipped: 0,
        overlaps: Vec::new(),
    };
    assert(views(r.groups@) =~= Seq::<((Seq<char>, Seq<char>), Seq<AwardView>)>::empty());
    assert(writes3_view(r.writes@) =~= Seq::<(Seq<char>, Seq<Seq<Seq<char>>>, AwardView)>::empty());
    assert(awards_view(r.done@) =~= Seq::<AwardView>::empty());
    assert(strings_view(r.overlaps@) =~= Seq::<Seq<char>>::empty());
    r
}

fn rename_prepare_exec(old_key: String, new_key: String, display_new: String, index: &AwardIndex) -> (r: (RenameFlow, SheetRequest))
    requires
        index_ok(index@),
    ensures
        (r.0@, r.1@) == rename_prepare(old_key@, new_key@, display_new@, index@),
        r.0.wf(),
{
    let bucket = get_awards_for_username(index, old_key.as_str());
    let existing_new = get_awards_for_username(index, new_key.as_str()).len();
    let located = located_awards(&bucket);
    let grouped = group_columns(&located);
    let groups = stable_sort::<ColumnGroup, ColumnOrder>(grouped);
    proof {
        lemma_rename_groups_ok(index@, lookup_key(old_key@));
        lemma_groups_nonempty(located_only(awards_view(bucket@)));
        lemma_sorted_members(views(grouped@), order_of::<ColumnGroup, ColumnOrder>());
    }
    let n = located.len();
    let mut f = empty_rename(RenamePhase::Done, old_key, new_key, display_new);
    f.groups = groups;
    f.existing_new = existing_new;
    if n == 0 {
        let mut m = chars_of("No sheet cells found for @");
        extend_str(&mut m, f.old_key.as_str());
        (f, finish_err(EditError::NotFound(text_of(m))))
    } else {
        f.phase = RenamePhase::Connecting;
        (f, SheetRequest::Connect)
    }
}

/// Start renaming the member `old_username` to `new_username`, working from
/// `data` when the caller already has a fresh sync.
pub fn rename_username(old_username: &str, new_username: &str, data: Option<&AwardsData>) -> (r: (RenameFlow, SheetRequest))
    requires
        data matches Some(d) ==> index_ok(d.index@),
    ensures
        (r.0@, r.1@) == rename_start(
            old_username@,
            new_username@,
            match data {
                Some(d) => Some(d.index@),
                None => None,
            },
        ),
        r.0.wf(),
{
    let old_key = match normalize_username(Some(old_username)) {
        Some(k) => k,
        None => {
            let f = empty_rename(RenamePhase::Done, String::new(), String::new(), String::new());
            return (f, finish_err(EditError::Validation(crate::text::owned("Old username required"))));
        },
    };
    let display_new = match parse_bare_username(new_username) {
        Some(d) => d,
        None => {
            let f = empty_rename(RenamePhase::Done, old_key, String::new(), String::new());
            return (f, finish_err(EditError::Validation(crate::text::owned(
                "New username must be a bare Roblox name (letters, digits, underscore only)",
            ))));
        },
    };
    let new_key = string_of(&crate::text::lower_chars(&chars_of(display_new.as_str())));
    if str_eq(old_key.as_str(), new_key.as_str()) {
        let f = empty_rename(RenamePhase::Done, old_key, new_key, display_new);
        return (f, finish_err(EditError::Validation(crate::text::owned("New username is the same as the current name"))));
    }
    match data {
        None => (empty_rename(RenamePhase::Loading, old_key, new_key, display_new), SheetRequest::LoadData),
        Some(d) => rename_prepare_exec(old_key, new_key, display_new, &d.index),
    }
}

fn renamed_award(a: &Award, row: i32, cell: &String) -> (r: Award)
    ensures
        r@ == renamed(a@, row, cell@),
{
    let name = match format_award_name(a.category.as_str(), Some(a.base_name.as_str()), cell.as_str()) {
        Some(n) => n,
        None => copy_string(&a.name),
    };
    Award {
        category: copy_string(&a.category),
        name,
        sheet: copy_string(&a.sheet),
        col: copy_string(&a.col),
        row,
        cell: copy_string(cell),
        base_name: copy_string(&a.base_name),
    }
}

fn live_at_exec(v: &Vec<Vec<String>>, row: i32) -> (r: String)
    requires
        1 <= row <= v@.len(),
    ensures
        r@ == live_at(rows_view(v@), row as int),
{
    let c = first_of(&v[(row - 1) as usize]);
    string_of(&clean_chars(c))
}

fn owned_by(cell: &String, key: &String) -> (r: bool)
    ensures
        r == (username_key(cell@) == Some(key@)),
{
    match normalize_username(Some(cell.as_str())) {
        Some(u) => str_eq(u.as_str(), key.as_str()),
        None => false,
    }
}

pub open spec fn col_state(
    pending: Seq<(String, Vec<Vec<String>>, Award)>,
    done: Seq<Award>,
    skipped: u64,
    allowed: Set<i32>,
) -> ColState {
    ColState { pending: writes3_view(pending), done: awards_view(done), skipped, allowed }
}

fn push_done(done: &mut Vec<Award>, a: Award)
    ensures
        awards_view(final(done)@) == awards_view(old(done)@).push(a@),
{
    let ghost before = done@;
    let ghost av = a@;
    done.push(a);
    assert(awards_view(done@) =~= awards_view(before).push(av));
}

fn push_write(writes: &mut Vec<(String, Vec<Vec<String>>, Award)>, w: (String, Vec<Vec<String>>, Award))
    ensures
        writes3_view(final(writes)@) == writes3_view(old(writes)@).push((w.0@, rows_view(w.1@), w.2@)),
{
    let ghost before = writes@;
    let ghost wv = (w.0@, rows_view(w.1@), w.2@);
    writes.push(w);
    assert(writes3_view(writes@) =~= writes3_view(before).push(wv));
}

/// One column of a rename, checked against its live values.
fn process_column(
    v: &Vec<Vec<String>>,
    awards: &Vec<Award>,
    old_key: &String,
    new_key: &String,
    display_new: &String,
    done: &mut Vec<Award>,
    skipped: &mut u64,
) -> (r: (Vec<(String, Vec<Vec<String>>, Award)>, HashSet<i32>))
    requires
        forall|j: int| 0 <= j < awards@.len() ==> window_fits(1, v@.len(), #[trigger] awards@[j].row),
    ensures
        col_state(r.0@, final(done)@, *final(skipped), r.1@) == rename_column(
            col_state(Seq::empty(), old(done)@, *old(skipped), Set::empty()),
            rows_view(v@),
            awards_view(awards@),
            old_key@,
            new_key@,
            display_new@,
            awards@.len() as int,
        ),
{
    let ghost rv = rows_view(v@);
    let ghost av = awards_view(awards@);
    let ghost cs0 = col_state(Seq::empty(), done@, *skipped, Set::empty());
    let mut pending: Vec<(String, Vec<Vec<String>>, Award)> = Vec::new();
    let mut allowed: HashSet<i32> = HashSet::new();
    assert(writes3_view(pending@) =~= Seq::<(Seq<char>, Seq<Seq<Seq<char>>>, AwardView)>::empty());
    assert(allowed@ =~= Set::<i32>::empty());
    let mut i: usize = 0;
    while i < awards.len()
        invariant
            i <= awards.len(),
            rv == rows_view(v@),
            av == awards_view(awards@),
            forall|j: int| 0 <= j < awards@.len() ==> window_fits(1, v@.len(), #[trigger] awards@[j].row),
            col_state(pending@, done@, *skipped, allowed@) == rename_column(cs0, rv, av, old_key@, new_key@, display_new@, i as int),
        decreases awards.len() - i,
    {
        let a = &awards[i];
        assert(av[i as int] == a@);
        assert(window_fits(1, v@.len(), awards@[i as int].row));
        let ghost cs = col_state(pending@, done@, *skipped, allowed@);
        match replace_username_in_cell(a.cell.as_str(), display_new.as_str()) {
            None => {
                if *skipped < u64::MAX {
                    *skipped = *skipped + 1;
                }
            },
            Some(expected_new) => {
                let mut handled = false;
                if let Some(row) = match_row_in_window(v, 1, a.cell.as_str(), a.row) {
                    proof {
                        crate::parse::lemma_window_match_range(rv, 1, a@.cell, a@.row as int);
                    }
                    let live = live_at_exec(v, row);
                    if owned_by(&live, old_key) {
                        handled = true;
                        match replace_username_in_cell(live.as_str(), display_new.as_str()) {
                            None => {
                                if *skipped < u64::MAX {
                                    *skipped = *skipped + 1;
                                }
                            },
                            Some(nc) => {
                                if str_eq(nc.as_str(), live.as_str()) {
                                    push_done(done, renamed_award(a, row, &nc));
                                    allowed.insert(row);
                                } else {
                                    let updated = renamed_award(a, row, &nc);
                                    let range = a1(a.sheet.as_str(), a.col.as_str(), row);
                                    let vals = one_cell(&nc);
                                    push_write(&mut pending, (range, vals, updated));
                                    allowed.insert(row);
                                }
                            },
                        }
                    }
                }
                if !handled {
                    match match_row_in_window(v, 1, expected_new.as_str(), a.row) {
                        Some(row) => {
                            proof {
                                crate::parse::lemma_window_match_range(rv, 1, expected_new@, a@.row as int);
                            }
                            let live = live_at_exec(v, row);
                            if owned_by(&live, new_key) {
                                push_done(done, renamed_award(a, row, &live));
                                allowed.insert(row);
                            } else if *skipped < u64::MAX {
                                *skipped = *skipped + 1;
                            }
                        },
                        None => {
                            if *skipped < u64::MAX {
                                *skipped = *skipped + 1;
                            }
                        },
                    }
                }
            },
        }
        assert(col_state(pending@, done@, *skipped, allowed@) =~~= rename_one(cs, rv, a@, old_key@, new_key@, display_new@));
        i += 1;
    }
    (pending, allowed)
}

fn last_in_column_exec(done: &Vec<Award>, sheet: &String, col: &String) -> (r: Option<usize>)
    ensures
        match r {
            Some(i) => last_in_column(awards_view(done@), sheet@, col@) == Some(i as int) && i < done@.len(),
            None => last_in_column(awards_view(done@), sheet@, col@) is None,
        },
{
    let ghost dv = awards_view(done@);
    let mut j: usize = done.len();
    assert(dv.subrange(0, j as int) =~= dv);
    while j > 0
        invariant
            j <= done.len(),
            dv == awards_view(done@),
            last_in_column(dv, sheet@, col@) == last_in_column(dv.subrange(0, j as int), sheet@, col@),
        decreases j,
    {
        let a = &done[j - 1];
        let ghost pre = dv.subrange(0, j as int);
        assert(pre.drop_last() =~= dv.subrange(0, j - 1));
        assert(pre.last() == a@);
        if str_eq(a.sheet.as_str(), sheet.as_str()) && str_eq(a.col.as_str(), col.as_str()) {
            return Some(j - 1);
        }
        j -= 1;
    }
    None
}

impl RenameFlow {
    fn conclude(&mut self) -> (r: SheetRequest)
        requires
            old(self).wf(),
        ensures
            (final(self)@, r@) == rename_conclude(old(self)@),
            final(self).wf(),
    {
        let ghost st = self@;
        if self.overlaps.len() > 0 {
            self.phase = RenamePhase::Done;
            let count = self.overlaps.len();
            let mut sample: Vec<String> = Vec::new();
            let n = if count < 5 { count } else { 5 };
            let mut i: usize = 0;
            while i < n
                invariant
                    i <= n,
                    n <= self.overlaps@.len(),
                    strings_view(sample@) == strings_view(self.overlaps@).take(i as int),
                decreases n - i,
            {
                let ghost before = sample@;
                sample.push(copy_string(&self.overlaps[i]));
                assert(strings_view(sample@) =~= strings_view(before).push(self.overlaps@[i as int]@));
                i += 1;
                assert(strings_view(sample@) =~= strings_view(self.overlaps@).take(i as int));
            }
            let joined = join_strings(&sample, ", ");
            let mut m = chars_of("@");
            extend_str(&mut m, self.new_key.as_str());
            extend_str(&mut m, " already has ");
            extend_chars(&mut m, &usize_decimal(count));
            extend_str(&mut m, " overlapping award column(s) on the live sheet (");
            extend_str(&mut m, joined.as_str());
            extend_str(&mut m, "). Resolve those first.");
            return finish_err(EditError::Conflict(text_of(m)));
        }
        if self.writes.len() == 0 {
            self.phase = RenamePhase::Done;
            if self.done.len() > 0 {
                let mut m = chars_of("@");
                extend_str(&mut m, self.old_key.as_str());
                extend_str(&mut m, " → ");
                extend_str(&mut m, self.display_new.as_str());
                extend_str(&mut m, ": ");
                extend_chars(&mut m, &usize_decimal(self.done.len()));
                extend_str(&mut m, " cell(s) already updated on the live sheet");
                let done = crate::index::clone_awards(&self.done);
                assert(awards_view(done@) == awards_view(self.done@));
                return SheetRequest::Finish(EditResult::ok_many(text_of(m), done));
            }
            let mut m = chars_of("No live cells still belonged to @");
            extend_str(&mut m, self.old_key.as_str());
            extend_str(&mut m, ". Refresh and try again.");
            return finish_err(EditError::Stale(text_of(m)));
        }
        self.phase = RenamePhase::Batch;
        let mut payload: Vec<(String, Vec<Vec<String>>)> = Vec::new();
        let ghost want = writes3_view(self.writes@).map_values(|w: (Seq<char>, Seq<Seq<Seq<char>>>, AwardView)| (w.0, w.1));
        let mut i: usize = 0;
        while i < self.writes.len()
            invariant
                i <= self.writes@.len(),
                want == writes3_view(self.writes@).map_values(|w: (Seq<char>, Seq<Seq<Seq<char>>>, AwardView)| (w.0, w.1)),
                writes_view(payload@) == want.subrange(0, i as int),
            decreases self.writes@.len() - i,
        {
            let w = &self.writes[i];
            let rows = copy_rows2(&w.1);
            let ghost before = payload@;
            payload.push((copy_string(&w.0), rows));
            assert(writes_view(payload@) =~= writes_view(before).push(want[i as int]));
            i += 1;
            assert(writes_view(payload@) =~= want.subrange(0, i as int));
        }
        assert(want.subrange(0, want.len() as int) =~= want);
        SheetRequest::BatchUpdate(payload)
    }

    fn column_step(&mut self, k: usize, v: Vec<Vec<String>>) -> (r: SheetRequest)
        requires
            old(self).wf(),
            old(self).phase == RenamePhase::Column(k),
            rename_reply_ok(old(self)@, ReplyView::Values(rows_view(v@))),
        ensures
            (final(self)@, r@) == rename_step(old(self)@, ReplyView::Values(rows_view(v@))),
            final(self).wf(),
    {
        let ghost st = self@;
        let ghost g = views(self.groups@)[k as int];
        assert(g == self.groups@[k as int]@);
        assert(group_ok(g));
        assert(rows_view(v@).len() == v@.len());
        assert forall|j: int| 0 <= j < self.groups@[k as int].awards@.len() implies window_fits(
            1,
            v@.len(),
            #[trigger] self.groups@[k as int].awards@[j].row,
        ) by {
            assert(g.1[j] == self.groups@[k as int].awards@[j]@);
            assert(window_fits(1, rows_view(v@).len(), st.groups[k as int].1[j].row));
        }
        let ghost done0 = self.done@;
        let ghost skipped0 = self.skipped;
        let (pending, allowed) = process_column(
            &v,
            &self.groups[k].awards,
            &self.old_key,
            &self.new_key,
            &self.display_new,
            &mut self.done,
            &mut self.skipped,
        );
        let ghost cs = col_state(pending@, self.done@, self.skipped, allowed@);
        assert(col_state(Seq::empty(), done0, skipped0, Set::empty()) == (ColState {
            pending: seq![],
            done: st.acc.done,
            skipped: st.acc.skipped,
            allowed: Set::empty(),
        })) by {
            assert(writes3_view(Seq::<(String, Vec<Vec<String>>, Award)>::empty()) =~= Seq::<(Seq<char>, Seq<Seq<Seq<char>>>, AwardView)>::empty());
        }
        let start = sheet_data_start_row(self.groups[k].sheet.as_str());
        proof {
            lemma_data_start(g.0.0);
        }
        match column_foreign_username(&v, start, self.new_key.as_str(), &allowed) {
            Some(row) => {
                let name: String = if pending.len() > 0 {
                    assert(writes3_view(pending@)[0] == (pending@[0].0@, rows_view(pending@[0].1@), pending@[0].2@));
                    let a = &pending[0].2;
                    if a.base_name.as_str().is_empty() { copy_string(&a.name) } else { copy_string(&a.base_name) }
                } else {
                    match last_in_column_exec(&self.done, &self.groups[k].sheet, &self.groups[k].col) {
                        Some(i) => {
                            let a = &self.done[i];
                            if a.base_name.as_str().is_empty() { copy_string(&a.name) } else { copy_string(&a.base_name) }
                        },
                        None => {
                            let mut m = chars_of(self.groups[k].col.as_str());
                            extend_chars(&mut m, &decimal_chars(row as i64));
                            text_of(m)
                        },
                    }
                };
                let mut m = chars_of(name.as_str());
                extend_str(&mut m, " ");
                extend_str(&mut m, self.groups[k].col.as_str());
                extend_chars(&mut m, &decimal_chars(row as i64));
                let ghost before = self.overlaps@;
                self.overlaps.push(text_of(m));
                assert(strings_view(self.overlaps@) =~= strings_view(before).push(m@));
            },
            None => {},
        }
        let ghost wbefore = writes3_view(self.writes@);
        let ghost done1 = self.done@;
        let ghost skipped1 = self.skipped;
        let ghost over1 = self.overlaps@;
        let ghost groups1 = self.groups@;
        let ghost phase1 = self.phase;
        let mut j: usize = 0;
        let mut pending = pending;
        let ghost pv = writes3_view(pending@);
        while j < pending.len()
            invariant
                j <= pending.len(),
                pv == writes3_view(pending@),
                writes3_view(self.writes@) == wbefore + pv.subrange(0, j as int),
                self.done@ == done1,
                self.skipped == skipped1,
                self.overlaps@ == over1,
                self.groups@ == groups1,
                self.phase == phase1,
                self.old_key == old(self).old_key,
                self.new_key == old(self).new_key,
                self.display_new == old(self).display_new,
                self.existing_new == old(self).existing_new,
                k < self.groups@.len(),
            decreases pending.len() - j,
        {
            let w = (copy_string(&pending[j].0), copy_rows2(&pending[j].1), pending[j].2.clone());
            assert((w.0@, rows_view(w.1@), w.2@) == pv[j as int]);
            push_write(&mut self.writes, w);
            j += 1;
            assert(writes3_view(self.writes@) =~= wbefore + pv.subrange(0, j as int));
        }
        assert(pv.subrange(0, pv.len() as int) =~= pv);
        let ghost exp = rename_after_column(st.acc, g.0, g.1, rows_view(v@), st.old_key, st.new_key, st.display_new);
        assert(self@.acc.writes =~= exp.writes);
        assert(self@.acc.done =~= exp.done);
        assert(self@.acc.skipped == exp.skipped);
        assert(self@.acc.overlaps =~= exp.overlaps);
        assert(self@.acc == exp);
        assert(k < self.groups@.len());
        let n = self.groups.len();
        if k + 1 < n {
            self.phase = RenamePhase::Column(k + 1);
            assert(views(self.groups@)[k + 1] == self.groups@[k + 1]@);
            SheetRequest::GetValues(column_range_of(self.groups[k + 1].sheet.as_str(), self.groups[k + 1].col.as_str()))
        } else {
            self.conclude()
        }
    }

    /// Whether `reply` may be handed to `step` (`rename_reply_ok`).
    pub fn accepts(&self, reply: &SheetReply) -> (r: bool)
        ensures
            r == rename_reply_ok(self@, reply@),
    {
        match (self.phase, reply) {
            (RenamePhase::Column(k), SheetReply::Values(v)) => {
                if k >= self.groups.len() {
                    return true;
                }
                let ghost g = views(self.groups@)[k as int];
                assert(g == self.groups@[k as int]@);
                assert(g == self@.groups[k as int]);
                let n = v.len();
                assert(rows_view(v@).len() == n);
                if n > 2147483646 {
                    proof {
                        if g.1.len() > 0 {
                            assert(g.1[0] == self.groups@[k as int].awards@[0]@);
                            assert(!window_fits(1, n as nat, g.1[0].row));
                        }
                    }
                    return self.groups[k].awards.len() == 0;
                }
                let awards = &self.groups[k].awards;
                let mut j: usize = 0;
                while j < awards.len()
                    invariant
                        j <= awards@.len(),
                        n == v@.len(),
                        n <= 2147483646,
                        rows_view(v@).len() == n,
                        self.phase == RenamePhase::Column(k),
                        reply@ == ReplyView::Values(rows_view(v@)),
                        k < self.groups@.len(),
                        g == self.groups@[k as int]@,
                        g == self@.groups[k as int],
                        awards@ == self.groups@[k as int].awards@,
                        forall|i: int| 0 <= i < j ==> window_fits(1, n as nat, #[trigger] g.1[i].row),
                    decreases awards.len() - j,
                {
                    let row = awards[j].row as i64;
                    assert(g.1[j as int] == awards@[j as int]@);
                    if !(1 - row > -2147483648 && 1 + (n as i64) - row <= 2147483647) {
                        assert(!window_fits(1, v@.len(), self@.groups[k as int].1[j as int].row));
                        return false;
                    }
                    j += 1;
                }
                true
            },
            _ => true,
        }
    }

    /// Take the client's reply and say what to do next.
    pub fn step(&mut self, reply: SheetReply) -> (r: SheetRequest)
        requires
            old(self).wf(),
            rename_reply_ok(old(self)@, reply@),
            reply@ matches ReplyView::Data(idx) ==> index_ok(idx),
        ensures
            (final(self)@, r@) == rename_step(old(self)@, reply@),
            final(self).wf(),
    {
        match self.phase {
            RenamePhase::Loading => match reply {
                SheetReply::Data(d) => {
                    let ok = copy_string(&self.old_key);
                    let nk = copy_string(&self.new_key);
                    let dn = copy_string(&self.display_new);
                    let (f, req) = rename_prepare_exec(ok, nk, dn, &d.index);
                    *self = f;
                    req
                },
                SheetReply::Failed(e) => {
                    self.phase = RenamePhase::Done;
                    finish_err(EditError::Api(e))
                },
                _ => {
                    self.phase = RenamePhase::Done;
                    unexpected()
                },
            },
            RenamePhase::Connecting => match reply {
                SheetReply::Connected => {
                    self.phase = RenamePhase::Column(0);
                    assert(views(self.groups@)[0] == self.groups@[0]@);
                    SheetRequest::GetValues(column_range_of(self.groups[0].sheet.as_str(), self.groups[0].col.as_str()))
                },
                SheetReply::Failed(e) => {
                    self.phase = RenamePhase::Done;
                    finish_err(EditError::Api(e))
                },
                _ => {
                    self.phase = RenamePhase::Done;
                    unexpected()
                },
            },
            RenamePhase::Column(k) => match reply {
                SheetReply::Values(v) => self.column_step(k, v),
                SheetReply::Failed(e) => {
                    assert(views(self.groups@)[k as int] == self.groups@[k as int]@);
                    let mut m = chars_of("Could not re-read ");
                    extend_str(&mut m, self.groups[k].sheet.as_str());
                    extend_str(&mut m, "!");
                    extend_str(&mut m, self.groups[k].col.as_str());
                    extend_str(&mut m, " before rename: ");
                    extend_str(&mut m, e.as_str());
                    self.phase = RenamePhase::Done;
                    finish_err(EditError::Api(text_of(m)))
                },
                _ => {
                    self.phase = RenamePhase::Done;
                    unexpected()
                },
            },
            RenamePhase::Batch => match reply {
                SheetReply::Written => {
                    self.phase = RenamePhase::Done;
                    assert(self@.acc.writes.take(self.writes@.len() as int) =~= self@.acc.writes);
                    let msg = self.summary();
                    SheetRequest::Finish(EditResult::ok_many(msg, self.all_updated(self.writes.len())))
                },
                SheetReply::BatchFailed(n, e) => {
                    self.phase = RenamePhase::Done;
                    SheetRequest::Finish(self.partial(n, &e))
                },
                SheetReply::Failed(e) => {
                    self.phase = RenamePhase::Done;
                    SheetRequest::Finish(self.partial(0, &e))
                },
                _ => {
                    self.phase = RenamePhase::Done;
                    unexpected()
                },
            },
            RenamePhase::Done => unexpected(),
        }
    }

    /// The done awards, then the first `n` planned ones.
    fn all_updated(&self, n: usize) -> (r: Vec<Award>)
        requires
            n <= self.writes@.len(),
        ensures
            awards_view(r@) == self@.acc.done + write_awards(self@.acc.writes.take(n as int)),
    {
        let mut out = crate::index::clone_awards(&self.done);
        let ghost d = awards_view(out@);
        assert(d == self@.acc.done);
        let ghost wa = write_awards(self@.acc.writes.take(n as int));
        let mut i: usize = 0;
        while i < n
            invariant
                i <= n,
                n <= self.writes@.len(),
                d == self@.acc.done,
                wa == write_awards(self@.acc.writes.take(n as int)),
                awards_view(out@) == d + wa.subrange(0, i as int),
            decreases n - i,
        {
            assert(wa[i as int] == self.writes@[i as int].2@);
            push_done(&mut out, self.writes[i].2.clone());
            i += 1;
            assert(awards_view(out@) =~= d + wa.subrange(0, i as int));
        }
        assert(wa.subrange(0, n as int) =~= wa);
        out
    }

    #[verifier::spinoff_prover]
    #[verifier::rlimit(30)]
    fn summary(&self) -> (r: String)
        ensures
            r@ == rename_message(self@),
    {
        let mut m = chars_of("Renamed @");
        extend_str(&mut m, self.old_key.as_str());
        extend_str(&mut m, " → ");
        extend_str(&mut m, self.display_new.as_str());
        extend_str(&mut m, " in ");
        extend_chars(&mut m, &usize_decimal(self.writes.len()));
        extend_str(&mut m, " cell(s)");
        let ghost m0 = m@;
        if self.done.len() > 0 {
            extend_str(&mut m, " · ");
            extend_chars(&mut m, &usize_decimal(self.done.len()));
            extend_str(&mut m, " already done");
        }
        let ghost m1 = m@;
        if self.skipped > 0 {
            extend_str(&mut m, " · skipped ");
            extend_chars(&mut m, &crate::text::u64_decimal(self.skipped));
            extend_str(&mut m, " stale/moved");
        }
        let ghost m2 = m@;
        if self.existing_new > 0 {
            extend_str(&mut m, " · merged with ");
            extend_chars(&mut m, &usize_decimal(self.existing_new));
            extend_str(&mut m, " existing @");
            extend_str(&mut m, self.new_key.as_str());
            extend_str(&mut m, " award(s)");
        }
        assert(m@ =~= rename_message(self@));
        text_of(m)
    }

    fn partial(&self, n: usize, e: &String) -> (r: EditResult)
        ensures
            r@ == rename_partial(self@, n, e@),
    {
        let w = if n < self.writes.len() { n } else { self.writes.len() };
        let mut rest: Vec<String> = Vec::new();
        let ghost want = self@.acc.writes.skip(w as int).map_values(|x: (Seq<char>, Seq<Seq<Seq<char>>>, AwardView)| x.0);
        let mut i: usize = w;
        while i < self.writes.len()
            invariant
                w <= i <= self.writes@.len(),
                want == self@.acc.writes.skip(w as int).map_values(|x: (Seq<char>, Seq<Seq<Seq<char>>>, AwardView)| x.0),
                strings_view(rest@) == want.subrange(0, i - w),
            decreases self.writes@.len() - i,
        {
            let ghost before = rest@;
            rest.push(copy_string(&self.writes[i].0));
            assert(strings_view(rest@) =~= strings_view(before).push(want[i - w]));
            i += 1;
            assert(strings_view(rest@) =~= want.subrange(0, i - w));
        }
        assert(want.subrange(0, want.len() as int) =~= want);
        let updated = self.all_updated(w);
        if updated.len() == 0 {
            let mut m = chars_of("Rename write failed: ");
            extend_str(&mut m, e.as_str());
            return EditResult::err(EditError::Api(text_of(m)));
        }
        let mut m = chars_of("Renamed ");
        extend_chars(&mut m, &usize_decimal(w));
        extend_str(&mut m, " cell(s) for @");
        extend_str(&mut m, self.old_key.as_str());
        extend_str(&mut m, " → ");
        extend_str(&mut m, self.display_new.as_str());
        extend_str(&mut m, ", then write failed (");
        extend_str(&mut m, e.as_str());
        extend_str(&mut m, "). Remaining ");
        extend_chars(&mut m, &usize_decimal(rest.len()));
        extend_str(&mut m, ": ");
        extend_str(&mut m, format_remaining_ranges(&rest).as_str());
        extend_str(&mut m, ". Retry the same rename to finish.");
        EditResult::err_partial(EditError::Api(text_of(m)), updated)
    }
}

fn copy_rows2(v: &Vec<Vec<String>>) -> (r: Vec<Vec<String>>)
    ensures
        rows_view(r@) == rows_view(v@),
{
    let mut out: Vec<Vec<String>> = Vec::new();
    let mut i: usize = 0;
    while i < v.len()
        invariant
            i <= v.len(),
            rows_view(out@) == rows_view(v@).subrange(0, i as int),
        decreases v.len() - i,
    {
        let mut row: Vec<String> = Vec::new();
        let mut j: usize = 0;
        while j < v[i].len()
            invariant
                i < v.len(),
                j <= v@[i as int].len(),
                cells_view(row@) == cells_view(v@[i as int]@).subrange(0, j as int),
            decreases v@[i as int].len() - j,
        {
            let ghost b = row@;
            row.push(copy_string(&v[i][j]));
            assert(cells_view(row@) =~= cells_view(b).push(v@[i as int]@[j as int]@));
            j += 1;
            assert(cells_view(row@) =~= cells_view(v@[i as int]@).subrange(0, j as int));
        }
        assert(cells_view(v@[i as int]@).subrange(0, v@[i as int].len() as int) =~= cells_view(v@[i as int]@));
        let ghost before = out@;
        let ghost rv = cells_view(row@);
        out.push(row);
        assert(rows_view(out@) =~= rows_view(before).push(rv));
        i += 1;
        assert(rows_view(out@) =~= rows_view(v@).subrange(0, i as int));
    }
    assert(rows_view(v@).subrange(0, v.len() as int) =~= rows_view(v@));
    out
}

} // verus!
