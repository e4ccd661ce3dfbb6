//! The decisions behind the terminal browser's dialogs: what the add picker
//! offers, where a pasted request lands, which fix a finding opens, whether a
//! rename or delete may go ahead, and how a written cell is patched into the
//! cached rows.
use vstd::prelude::*;
use crate::audit::{finding_award, AuditFinding, FindingView};
use crate::gui::{has_column, not_owned};
use crate::index::{
    get_awards_for_username, located, lookup_key, owned_award_columns, owned_columns, padded_set, pad_set,
    pairs_view,
};
use crate::meta::{col_fits, col_index, col_to_index, offset_of, row_offset};
use crate::parse::{
    bare_name, defs_matching, match_catalog_entries, normalize_username, parse_bare_username, split_award_suffix,
    suffix_split, last_space_is_ascii, username_key,
};
use crate::text::{
    chars_of, copy_string, eq_ignore_case, lower_chars, lower_seq, owned, str_eq, strip_leading, strip_leading_chars,
    string_of, trim, trim_str,
};
use crate::types::{
    awards_view, bucket_of, cells_view, defs_view, key_pos, lemma_key_pos, rows_of, rows_view, Award,
    AwardDef, AwardDefView, AwardIndex, AwardView, AwardsData,
};

verus! {

// ---------------------------------------------------------------------------
// The add picker
// ---------------------------------------------------------------------------

/// The catalog entries the member does not hold a column of (`owned_source`
/// is what the member's lookup shows, duplicates included).
pub fn add_candidates(catalog: &[AwardDef], owned_source: &[Award], username: &str) -> (r: Vec<AwardDef>)
    ensures
        defs_view(r@) == not_owned(defs_view(catalog@), owned_columns(awards_view(owned_source@), username@)),
{
    let owned = owned_award_columns(owned_source, username);
    let ghost ov = owned_columns(awards_view(owned_source@), username@);
    let ghost cat = defs_view(catalog@);
    let mut out: Vec<AwardDef> = Vec::new();
    let mut i: usize = 0;
    assert(defs_view(out@) =~= not_owned(cat.subrange(0, 0), ov));
    while i < catalog.len()
        invariant
            i <= catalog.len(),
            cat == defs_view(catalog@),
            pairs_view(owned@).to_set() == ov,
            defs_view(out@) == not_owned(cat.subrange(0, i as int), ov),
        decreases catalog.len() - i,
    {
        let d = &catalog[i];
        assert(cat.subrange(0, i + 1).drop_last() =~= cat.subrange(0, i as int));
        assert(cat.subrange(0, i + 1).last() == d@);
        if !has_column(&owned, &d.sheet, &d.col) {
            let ghost before = out@;
            out.push(d.clone());
            assert(defs_view(out@) =~= defs_view(before).push(d@));
        }
        i += 1;
    }
    assert(cat.subrange(0, catalog.len() as int) =~= cat);
    out
}

// ---------------------------------------------------------------------------
// A pasted request
// ---------------------------------------------------------------------------

/// Where a pasted request lands once its member is known.
#[derive(Debug)]
pub enum PastePlan {
    /// The member holds every catalog column: the dialog closes.
    NothingLeft,
    /// The picker over `candidates`, with `filter` typed and `filtered` listed.
    Picker { candidates: Vec<AwardDef>, filter: String, filtered: Vec<AwardDef> },
    /// One confident match: the suffix step, prefilled.
    Suffix { candidates: Vec<AwardDef>, chosen: AwardDef, suffix: String },
}

pub enum PastePlanView {
    NothingLeft,
    Picker { candidates: Seq<AwardDefView>, filter: Seq<char>, filtered: Seq<AwardDefView> },
    Suffix { candidates: Seq<AwardDefView>, chosen: AwardDefView, suffix: Seq<char> },
}

impl View for PastePlan {
    type V = PastePlanView;

    open spec fn view(&self) -> PastePlanView {
        match self {
            PastePlan::NothingLeft => PastePlanView::NothingLeft,
            PastePlan::Picker { candidates, filter, filtered } => PastePlanView::Picker {
                candidates: defs_view(candidates@),
                filter: filter@,
                filtered: defs_view(filtered@),
            },
            PastePlan::Suffix { candidates, chosen, suffix } => PastePlanView::Suffix {
                candidates: defs_view(candidates@),
                chosen: chosen@,
                suffix: suffix@,
            },
        }
    }
}

/// With candidates left: no award text opens the whole picker; an award text
/// whose name (count suffix split off) matches exactly one candidate goes
/// straight to the suffix step; otherwise the picker opens filtered by the
/// whole text.
pub open spec fn paste_plan(award_text: Option<Seq<char>>, candidates: Seq<AwardDefView>) -> PastePlanView {
    if candidates.len() == 0 {
        PastePlanView::NothingLeft
    } else {
        match award_text {
            None => PastePlanView::Picker { candidates, filter: Seq::empty(), filtered: candidates },
            Some(t) => {
                let (base, suffix) = suffix_split(t);
                let m = defs_matching(candidates, lower_seq(trim(base)));
                if m.len() == 1 {
                    PastePlanView::Suffix { candidates, chosen: m[0], suffix }
                } else {
                    PastePlanView::Picker {
                        candidates,
                        filter: t,
                        filtered: defs_matching(candidates, lower_seq(trim(t))),
                    }
                }
            },
        }
    }
}

fn clone_defs(v: &Vec<AwardDef>) -> (r: Vec<AwardDef>)
    ensures
        r@ == v@,
{
    let mut r: Vec<AwardDef> = Vec::new();
    let mut i: usize = 0;
    while i < v.len()
        invariant
            i <= v.len(),
            r@ == v@.subrange(0, i as int),
        decreases v.len() - i,
    {
        r.push(v[i].clone());
        i += 1;
        assert(r@ =~= v@.subrange(0, i as int));
    }
    assert(v@.subrange(0, v.len() as int) =~= v@);
    r
}

/// Where a pasted request for `username` lands, given the catalog and what the
/// member's lookup shows.
pub fn plan_paste_add(award_text: Option<&str>, catalog: &[AwardDef], owned_source: &[Award], username: &str) -> (r: PastePlan)
    requires
        not_owned(defs_view(catalog@), owned_columns(awards_view(owned_source@), username@)).len() > 0 ==> (
        award_text matches Some(t) ==> last_space_is_ascii(t@)),
    ensures
        r@ == paste_plan(
            match award_text {
                Some(t) => Some(t@),
                None => None,
            },
            not_owned(defs_view(catalog@), owned_columns(awards_view(owned_source@), username@)),
        ),
{
    let candidates = add_candidates(catalog, owned_source, username);
    if candidates.len() == 0 {
        return PastePlan::NothingLeft;
    }
    match award_text {
        None => {
            let filtered = clone_defs(&candidates);
            PastePlan::Picker { candidates, filter: String::new(), filtered }
        },
        Some(text) => {
            let (base, suffix) = split_award_suffix(text);
            let matches = match_catalog_entries(candidates.as_slice(), base.as_str());
            if matches.len() == 1 {
                let chosen = matches[0].clone();
                PastePlan::Suffix { candidates, chosen, suffix }
            } else {
                let filtered = match_catalog_entries(candidates.as_slice(), text);
                PastePlan::Picker { candidates, filter: owned(text), filtered }
            }
        },
    }
}

// ---------------------------------------------------------------------------
// Fixing a finding
// ---------------------------------------------------------------------------

/// The fix a selected finding opens.
#[derive(Debug)]
pub enum FixPlan {
    /// Delete the duplicate row, confirming with the member's name shown.
    Delete { award: Award, viewed_username: String },
    /// Correct the malformed cell, starting from its text.
    Edit { award: Award, prefill: String, username: String },
    /// Ask which of the two similar names is the typo.
    ChooseUsername { a: String, b: String },
    /// Nothing the browser can fix.
    NoFix,
}

/// The member a finding names, or `?`.
pub open spec fn finding_member(f: FindingView) -> Seq<char> {
    match f {
        FindingView::DuplicateRow { user, .. } => user,
        FindingView::SimilarUsernames { a, .. } => a,
        FindingView::MalformedCell { user, .. } => user,
        FindingView::UnparseableCell { .. } => "?"@,
    }
}

/// The status line shown when a finding's fix opens.
pub open spec fn fix_status(f: FindingView) -> Seq<char> {
    match f {
        FindingView::DuplicateRow { .. } => "Type \"delete\" to remove this duplicate row"@,
        FindingView::MalformedCell { .. } => "Fix the malformed cell, then Enter to save"@,
        FindingView::SimilarUsernames { .. } => "Which account is the typo? Press 1 or 2"@,
        FindingView::UnparseableCell { .. } => "No direct fix available for this cell \u{2014} edit it manually on the sheet"@,
    }
}

/// A duplicate row opens a delete of its award, a malformed cell an edit
/// prefilled with its text (its name when empty), a similar pair the choice of
/// name, an unparseable cell nothing.
pub fn fix_for_finding(finding: &AuditFinding) -> (r: (FixPlan, &'static str))
    ensures
        r.1@ == fix_status(finding@),
        match finding@ {
            FindingView::DuplicateRow { .. } => r.0 matches FixPlan::Delete { award, viewed_username } && Some(award@)
                == finding_award(finding@) && viewed_username@ == finding_member(finding@),
            FindingView::MalformedCell { .. } => r.0 matches FixPlan::Edit { award, prefill, username } && Some(
                award@,
            ) == finding_award(finding@) && prefill@ == (if award@.cell.len() == 0 {
                award@.name
            } else {
                award@.cell
            }) && username@ == finding_member(finding@),
            FindingView::SimilarUsernames { a, b, .. } => r.0 matches FixPlan::ChooseUsername { a: x, b: y } && x@ == a
                && y@ == b,
            FindingView::UnparseableCell { .. } => r.0 is NoFix,
        },
{
    match finding {
        AuditFinding::DuplicateRow { user, .. } => match finding.to_award() {
            Some(award) => (
                FixPlan::Delete { award, viewed_username: copy_string(user) },
                "Type \"delete\" to remove this duplicate row",
            ),
            None => (FixPlan::NoFix, "Type \"delete\" to remove this duplicate row"),
        },
        AuditFinding::MalformedCell { user, .. } => match finding.to_award() {
            Some(award) => {
                let prefill = if award.cell.as_str().is_empty() {
                    copy_string(&award.name)
                } else {
                    copy_string(&award.cell)
                };
                (
                    FixPlan::Edit { award, prefill, username: copy_string(user) },
                    "Fix the malformed cell, then Enter to save",
                )
            },
            None => (FixPlan::NoFix, "Fix the malformed cell, then Enter to save"),
        },
        AuditFinding::SimilarUsernames { a, b, .. } => (
            FixPlan::ChooseUsername { a: copy_string(a), b: copy_string(b) },
            "Which account is the typo? Press 1 or 2",
        ),
        AuditFinding::UnparseableCell { .. } => (
            FixPlan::NoFix,
            "No direct fix available for this cell \u{2014} edit it manually on the sheet",
        ),
    }
}

// ---------------------------------------------------------------------------
// Rename and delete dialogs
// ---------------------------------------------------------------------------

/// The located awards of `s`.
pub open spec fn count_located(s: Seq<AwardView>) -> int
    decreases s.len(),
{
    if s.len() == 0 {
        0
    } else {
        count_located(s.drop_last()) + if located(s.last()) {
            1int
        } else {
            0int
        }
    }
}

/// The located awards of `s` whose cell names `key`.
pub open spec fn count_owned_cells(s: Seq<AwardView>, key: Seq<char>) -> int
    decreases s.len(),
{
    if s.len() == 0 {
        0
    } else {
        count_owned_cells(s.drop_last(), key) + if located(s.last()) && username_key(s.last().cell) == Some(key) {
            1int
        } else {
            0int
        }
    }
}

proof fn lemma_count_step(s: Seq<AwardView>, key: Seq<char>, i: int)
    requires
        0 <= i < s.len(),
    ensures
        count_located(s.subrange(0, i + 1)) == count_located(s.subrange(0, i)) + if located(s[i]) {
            1int
        } else {
            0int
        },
        count_owned_cells(s.subrange(0, i + 1), key) == count_owned_cells(s.subrange(0, i), key) + if located(s[i])
            && username_key(s[i].cell) == Some(key) {
            1int
        } else {
            0int
        },
        count_located(s.subrange(0, i)) <= i,
        count_owned_cells(s.subrange(0, i), key) <= i,
    decreases i,
{
    assert(s.subrange(0, i + 1).drop_last() =~= s.subrange(0, i));
    if i > 0 {
        lemma_count_step(s, key, i - 1);
    }
}

/// How many sheet cells a rename of `from` would rewrite: the located cells
/// of the lookup (`shown`, duplicates included) that name `from`, or when there
/// are none, the located awards filed under `from` in the index.
pub open spec fn rename_cells(shown: Seq<AwardView>, from: Seq<char>, indexed: Seq<AwardView>) -> int {
    if count_owned_cells(shown, from) > 0 {
        count_owned_cells(shown, from)
    } else {
        count_located(indexed)
    }
}

fn is_located(a: &Award) -> (r: bool)
    ensures
        r == located(a@),
{
    !a.sheet.as_str().is_empty() && !a.col.as_str().is_empty() && a.row != 0
}

/// The number of cells a rename of the looked-up member `from` would rewrite.
pub fn rename_cell_count(shown: &[Award], from: &str, index: &AwardIndex) -> (r: usize)
    ensures
        r == rename_cells(awards_view(shown@), from@, bucket_of(index@, lookup_key(from@))),
{
    let ghost sv = awards_view(shown@);
    let mut owned_n: usize = 0;
    let mut i: usize = 0;
    while i < shown.len()
        invariant
            i <= shown.len(),
            sv == awards_view(shown@),
            owned_n == count_owned_cells(sv.subrange(0, i as int), from@),
        decreases shown.len() - i,
    {
        proof {
            lemma_count_step(sv, from@, i as int);
        }
        assert(sv[i as int] == shown@[i as int]@);
        if is_located(&shown[i]) {
            let key = normalize_username(Some(shown[i].cell.as_str()));
            let same = match &key {
                Some(k) => str_eq(k.as_str(), from),
                None => false,
            };
            if same {
                owned_n += 1;
            }
        }
        i += 1;
    }
    assert(sv.subrange(0, shown.len() as int) =~= sv);
    if owned_n > 0 {
        return owned_n;
    }
    let indexed = get_awards_for_username(index, from);
    let ghost iv = awards_view(indexed@);
    let mut n: usize = 0;
    let mut j: usize = 0;
    while j < indexed.len()
        invariant
            j <= indexed.len(),
            iv == awards_view(indexed@),
            n == count_located(iv.subrange(0, j as int)),
        decreases indexed.len() - j,
    {
        proof {
            lemma_count_step(iv, from@, j as int);
        }
        assert(iv[j as int] == indexed@[j as int]@);
        if is_located(&indexed[j]) {
            n += 1;
        }
        j += 1;
    }
    assert(iv.subrange(0, indexed.len() as int) =~= iv);
    n
}

/// The typed text, trimmed, is `word` in any case (`delete`, `rename`).
pub open spec fn confirms(input: Seq<char>, word: Seq<char>) -> bool {
    lower_seq(trim(input)) == lower_seq(word)
}

pub fn confirm_word(input: &str, word: &str) -> (r: bool)
    ensures
        r == confirms(input@, word@),
{
    let t = trim_str(input);
    let w = chars_of(word);
    eq_ignore_case(&t, &w)
}

/// What the rename dialog makes of a typed new name: the bare name to go on
/// with, or why not.
pub open spec fn new_name_check(raw: Seq<char>, from: Seq<char>) -> Result<Seq<char>, Seq<char>> {
    match bare_name(trim(raw)) {
        None => Err("Enter a bare Roblox username (no suffixes)"@),
        Some(n) => if lower_seq(n) == from {
            Err("New username is the same as the current name"@)
        } else {
            Ok(n)
        },
    }
}

pub fn check_new_username(raw: &str, from: &str) -> (r: Result<String, &'static str>)
    ensures
        match r {
            Ok(n) => new_name_check(raw@, from@) == Ok::<Seq<char>, Seq<char>>(n@),
            Err(m) => new_name_check(raw@, from@) == Err::<Seq<char>, Seq<char>>(m@),
        },
{
    let t = crate::text::trimmed_string(raw);
    match parse_bare_username(t.as_str()) {
        None => Err("Enter a bare Roblox username (no suffixes)"),
        Some(n) => {
            let low = lower_chars(&chars_of(n.as_str()));
            if crate::text::chars_eq(&low, &chars_of(from)) {
                Err("New username is the same as the current name")
            } else {
                Ok(n)
            }
        },
    }
}

/// How many awards the index files under the new name typed so far (its bare
/// form, lower-cased; nothing typed that is bare counts as the empty name).
pub fn awards_under_new_name(index: &AwardIndex, typed: &str) -> (r: usize)
    ensures
        r == bucket_of(
            index@,
            lookup_key(
                match bare_name(typed@) {
                    Some(n) => lower_seq(n),
                    None => Seq::empty(),
                },
            ),
        ).len(),
{
    let key = match parse_bare_username(typed) {
        Some(n) => string_of(&lower_chars(&chars_of(n.as_str()))),
        None => String::new(),
    };
    get_awards_for_username(index, key.as_str()).len()
}

/// The member the browser shows after a rename: the new name's key when it
/// succeeded, the old one otherwise.
pub open spec fn view_after_rename(ok: bool, new_username: Seq<char>, old_username: Seq<char>) -> Seq<char> {
    if ok {
        match bare_name(new_username) {
            Some(n) => lower_seq(n),
            None => lower_seq(strip_leading(trim(new_username), '@')),
        }
    } else {
        old_username
    }
}

pub fn member_after_rename(ok: bool, new_username: &str, old_username: &str) -> (r: String)
    ensures
        r@ == view_after_rename(ok, new_username@, old_username@),
{
    if !ok {
        return owned(old_username);
    }
    match parse_bare_username(new_username) {
        Some(n) => string_of(&lower_chars(&chars_of(n.as_str()))),
        None => {
            let t = trim_str(new_username);
            let s = strip_leading_chars(&t, '@');
            string_of(&lower_chars(&s))
        },
    }
}

// ---------------------------------------------------------------------------
// Patching a written cell into the cached rows
// ---------------------------------------------------------------------------

/// `rows` grown with empty rows to hold row `r`, with cell `c` of row `r` set
/// to `v` (the row padded with empty cells to reach it).
pub open spec fn patch_rows(rows: Seq<Seq<Seq<char>>>, r: int, c: int, v: Seq<char>) -> Seq<Seq<Seq<char>>> {
    let grown = if rows.len() > r {
        rows
    } else {
        rows + Seq::new((r + 1 - rows.len()) as nat, |k: int| Seq::<Seq<char>>::empty())
    };
    grown.update(r, pad_set(grown[r], c, v))
}

/// The cached tabs after the cell of `a` is written with `a`'s text; a cell
/// above the tab's data is left alone.
pub open spec fn tabs_after_patch(
    tabs: Seq<(Seq<char>, Seq<Seq<Seq<char>>>)>,
    a: AwardView,
) -> Seq<(Seq<char>, Seq<Seq<Seq<char>>>)> {
    let r = a.row - 1 - offset_of(a.sheet);
    if r < 0 {
        tabs
    } else {
        let rows = match rows_of(tabs, a.sheet) {
            Some(x) => x,
            None => Seq::empty(),
        };
        let patched = patch_rows(rows, r, col_index(a.col), a.cell);
        match key_pos(tabs, a.sheet) {
            Some(i) => tabs.update(i, (a.sheet, patched)),
            None => tabs.push((a.sheet, patched)),
        }
    }
}

/// Write `award`'s cell into the cached rows of its tab.
pub fn patch_sheet_cell(data: &mut AwardsData, award: &Award)
    requires
        col_fits(award@.col),
        col_index(award@.col) < usize::MAX,
        award.row as int - 1 - offset_of(award@.sheet) >= i32::MIN,
    ensures
        final(data).sheet_rows@ == tabs_after_patch(old(data).sheet_rows@, award@),
        final(data).index@ == old(data).index@,
        final(data).catalog@ == old(data).catalog@,
{
    let off = row_offset(award.sheet.as_str());
    let csv_index = award.row - 1 - off;
    if csv_index < 0 {
        return;
    }
    let r = csv_index as usize;
    let c = col_to_index(award.col.as_str());
    proof {
        lemma_key_pos(data.sheet_rows@, award@.sheet);
    }
    let pos = data.sheet_rows.position(award.sheet.as_str());
    let mut rows: Vec<Vec<String>> = match pos {
        Some(i) => data.sheet_rows.take_rows(i),
        None => Vec::new(),
    };
    let ghost start = rows_view(rows@);
    assert(start == match rows_of(old(data).sheet_rows@, award@.sheet) {
        Some(x) => x,
        None => Seq::<Seq<Seq<char>>>::empty(),
    }) by {
        if pos is None {
            assert(rows_view(rows@) =~= Seq::<Seq<Seq<char>>>::empty());
        }
    }
    while rows.len() <= r
        invariant
            rows_view(rows@).len() >= start.len(),
            rows.len() <= r + 1 || rows.len() == start.len(),
            r < i32::MAX,
            rows_view(rows@) == start + Seq::new(
                (rows@.len() - start.len()) as nat,
                |k: int| Seq::<Seq<char>>::empty(),
            ),
        decreases r + 1 - rows.len(),
    {
        let ghost before = rows_view(rows@);
        let empty_row: Vec<String> = Vec::new();
        assert(cells_view(empty_row@) =~= Seq::<Seq<char>>::empty());
        rows.push(empty_row);
        assert(rows_view(rows@) =~= before.push(Seq::<Seq<char>>::empty()));
        assert(rows_view(rows@) =~= start + Seq::new(
            (rows@.len() - start.len()) as nat,
            |k: int| Seq::<Seq<char>>::empty(),
        ));
    }
    let ghost grown = rows_view(rows@);
    assert(grown == if start.len() > r {
        start
    } else {
        start + Seq::new((r + 1 - start.len()) as nat, |k: int| Seq::<Seq<char>>::empty())
    }) by {
        if start.len() > r {
            assert(grown =~= start);
        }
    }
    let updated = padded_set(&rows[r], c, copy_string(&award.cell));
    rows.set(r, updated);
    assert(rows_view(rows@) =~= grown.update(r as int, pad_set(grown[r as int], c as int, award@.cell)));
    match pos {
        Some(i) => {
            data.sheet_rows.put_rows(i, rows);
        },
        None => {
            data.sheet_rows.insert(copy_string(&award.sheet), rows);
        },
    }
}

} // verus!
