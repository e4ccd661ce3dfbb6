//! Reading member cells: cleaning, usernames, typo detection, cell formatting
//! and the parts of a pasted Discord request.
use vstd::prelude::*;
use crate::text::{
    all_digits, all_digits_chars, chars_eq, chars_of, contains_chars, contains_seq, extend_chars,
    extend_str, find_chars, find_seq, is_ws, lower, lower_chars, lower_seq, rfind_ws,
    rfind_ws_chars, slice_chars, starts_with, starts_with_chars, strip_leading,
    strip_leading_chars, string_of, strings_view, trim, trim_chars, trim_start, trim_start_chars,
};
use crate::trusted::{
    captures_view, dash_after_word, drop_at_sign, levenshtein,
    edit_distance, regex_captures, regex_is_match, word_run_len,
    BARE_USERNAME, DASH_AFTER_WORD, USERNAME_PREFIX,
};
use crate::meta::{
    col_fits, col_index, col_to_index, csv_index_to_sheet_row, known_sheet, label_of, meta_of,
    offset_of, sheet_meta, category_label_for,
};
use crate::types::{
    defs_view, opt_view, rows_view, AwardDef, AwardDefView, ExtractedRequest,
};

verus! {

// ---------------------------------------------------------------------------
// Cleaning
// ---------------------------------------------------------------------------

/// Zero-width characters that paste in from chat clients.
pub open spec fn is_invisible(c: char) -> bool {
    c == '\u{200b}' || c == '\u{200c}' || c == '\u{200d}' || c == '\u{feff}'
}

/// `s` without zero-width characters.
pub open spec fn visible(s: Seq<char>) -> Seq<char>
    decreases s.len(),
{
    if s.len() == 0 {
        s
    } else if is_invisible(s.last()) {
        visible(s.drop_last())
    } else {
        visible(s.drop_last()).push(s.last())
    }
}

/// A cell as the database means it: zero-width characters stripped, then trimmed.
pub open spec fn clean(s: Seq<char>) -> Seq<char> {
    trim(visible(s))
}

pub open spec fn clean_opt(o: Option<Seq<char>>) -> Seq<char> {
    match o {
        Some(s) => clean(s),
        None => Seq::empty(),
    }
}

fn visible_chars(v: &Vec<char>) -> (r: Vec<char>)
    ensures
        r@ == visible(v@),
{
    let mut r: Vec<char> = Vec::new();
    let mut i: usize = 0;
    while i < v.len()
        invariant
            i <= v.len(),
            r@ == visible(v@.subrange(0, i as int)),
        decreases v.len() - i,
    {
        let c = v[i];
        let ghost pre = v@.subrange(0, i as int);
        assert(v@.subrange(0, i + 1).drop_last() =~= pre);
        if !(c == '\u{200b}' || c == '\u{200c}' || c == '\u{200d}' || c == '\u{feff}') {
            r.push(c);
        }
        i += 1;
    }
    assert(v@.subrange(0, v.len() as int) =~= v@);
    r
}

/// The cleaned characters of a cell.
pub fn clean_chars(cell: &str) -> (r: Vec<char>)
    ensures
        r@ == clean(cell@),
{
    let v = chars_of(cell);
    let vis = visible_chars(&v);
    trim_chars(&vis)
}

/// Strip zero-width characters and surrounding whitespace.
pub fn clean_cell(cell: Option<&str>) -> (r: String)
    ensures
        r@ == clean_opt(match cell {
            Some(s) => Some(s@),
            None => None,
        }),
{
    match cell {
        Some(text) => {
            let v = clean_chars(text);
            string_of(&v)
        },
        None => String::new(),
    }
}

// ---------------------------------------------------------------------------
// Usernames
// ---------------------------------------------------------------------------

/// The username a cleaned cell starts with, case preserved.
pub open spec fn leading_name(t: Seq<char>) -> Option<Seq<char>> {
    let body = drop_at_sign(t);
    let n = word_run_len(body);
    if n == 0 {
        None
    } else {
        Some(body.subrange(0, n as int))
    }
}

/// The normalized (lower-case) username a cell belongs to.
pub open spec fn username_key(cell: Seq<char>) -> Option<Seq<char>> {
    match leading_name(clean(cell)) {
        Some(n) => Some(lower_seq(n)),
        None => None,
    }
}

/// A bare username (optional `@`, word characters only), case preserved.
pub open spec fn bare_name(input: Seq<char>) -> Option<Seq<char>> {
    let t = clean(input);
    let body = drop_at_sign(t);
    if body.len() > 0 && crate::text::all_word(body) {
        Some(body)
    } else {
        None
    }
}

proof fn lemma_word_run_bound(s: Seq<char>)
    ensures
        word_run_len(s) <= s.len(),
    decreases s.len(),
{
    if s.len() > 0 && crate::text::is_word(s[0]) {
        lemma_word_run_bound(s.drop_first());
    }
}

/// The lower-case username at the start of a cell, if any.
pub fn normalize_username(cell: Option<&str>) -> (r: Option<String>)
    ensures
        opt_view(r) == match cell {
            Some(s) => username_key(s@),
            None => None,
        },
{
    let text = clean_cell(cell);
    let caps = regex_captures(USERNAME_PREFIX, text.as_str());
    proof {
        lemma_word_run_bound(drop_at_sign(text@));
    }
    match caps {
        Some(groups) => {
            assert(captures_view(Some(groups)).unwrap().len() == groups@.len());
            if groups.len() < 2 {
                return None;
            }
            match &groups[1] {
                Some(name) => {
                    let v = chars_of(name.as_str());
                    let low = lower_chars(&v);
                    Some(string_of(&low))
                },
                None => None,
            }
        },
        None => None,
    }
}

/// Parse a bare Roblox username (optional `@`, letters/digits/`_` only).
///
/// Rejects cell-style values like `Bob - Master` or `Alice x2`. Preserves case.
pub fn parse_bare_username(input: &str) -> (r: Option<String>)
    ensures
        opt_view(r) == bare_name(input@),
{
    let text = clean_cell(Some(input));
    let caps = regex_captures(BARE_USERNAME, text.as_str());
    match caps {
        Some(groups) => {
            assert(captures_view(Some(groups)).unwrap().len() == groups@.len());
            if groups.len() < 2 {
                return None;
            }
            match &groups[1] {
                Some(name) => Some(name.clone()),
                None => None,
            }
        },
        None => None,
    }
}

/// Length of the common leading run of `a` and `b`.
pub open spec fn common_prefix_len(a: Seq<char>, b: Seq<char>) -> nat
    decreases a.len(),
{
    if a.len() > 0 && b.len() > 0 && a[0] == b[0] {
        1 + common_prefix_len(a.drop_first(), b.drop_first())
    } else {
        0
    }
}

/// UTF-8 width of a character.
pub open spec fn char_width(c: char) -> int {
    if (c as u32) < 0x80 {
        1
    } else if (c as u32) < 0x800 {
        2
    } else if (c as u32) < 0x10000 {
        3
    } else {
        4
    }
}

/// UTF-8 length of a text (what `str::len` reports).
pub open spec fn byte_len(s: Seq<char>) -> int
    decreases s.len(),
{
    if s.len() == 0 {
        0
    } else {
        byte_len(s.drop_last()) + char_width(s.last())
    }
}

pub fn byte_len_of(v: &Vec<char>) -> (r: u128)
    ensures
        r == byte_len(v@),
        r <= 4 * v@.len(),
{
    let mut total: u128 = 0;
    let mut i: usize = 0;
    while i < v.len()
        invariant
            i <= v.len(),
            total == byte_len(v@.subrange(0, i as int)),
            total <= 4 * i,
        decreases v.len() - i,
    {
        let c = v[i];
        assert(v@.subrange(0, i + 1).drop_last() =~= v@.subrange(0, i as int));
        let w: u128 = if (c as u32) < 0x80 {
            1
        } else if (c as u32) < 0x800 {
            2
        } else if (c as u32) < 0x10000 {
            3
        } else {
            4
        };
        total = total + w;
        i += 1;
    }
    assert(v@.subrange(0, v.len() as int) =~= v@);
    total
}

/// True when two usernames are likely the same person with a typo.
///
/// Similarity is the normalized Levenshtein score `1 - d/m` (`d` the edit distance,
/// `m` the longer length in characters); the thresholds 0.90 and 0.84 are
/// compared exactly: `10·d <= m` and `25·d <= 4·m`.
pub open spec fn similar_names(a: Seq<char>, b: Seq<char>) -> bool {
    if a.len() == 0 || b.len() == 0 || a == b {
        false
    } else if byte_len(a) - byte_len(b) > 3 || byte_len(b) - byte_len(a) > 3 {
        false
    } else {
        let prefix = common_prefix_len(a, b);
        let d = edit_distance(a, b) as int;
        let m = if a.len() >= b.len() {
            a.len() as int
        } else {
            b.len() as int
        };
        let min_bytes = if byte_len(a) <= byte_len(b) {
            byte_len(a)
        } else {
            byte_len(b)
        };
        let scaled = (min_bytes * 55) / 100;
        let need = if scaled > 4 {
            scaled
        } else {
            4
        };
        if 10 * d <= m && prefix >= 3 {
            true
        } else if prefix < need {
            false
        } else {
            25 * d <= 4 * m
        }
    }
}

fn common_prefix(a: &Vec<char>, b: &Vec<char>) -> (r: usize)
    ensures
        r == common_prefix_len(a@, b@),
{
    let mut i: usize = 0;
    assert(a@.subrange(0, a.len() as int) =~= a@);
    assert(b@.subrange(0, b.len() as int) =~= b@);
    while i < a.len() && i < b.len() && a[i] == b[i]
        invariant
            i <= a.len(),
            i <= b.len(),
            common_prefix_len(a@, b@) == i + common_prefix_len(
                a@.subrange(i as int, a.len() as int),
                b@.subrange(i as int, b.len() as int),
            ),
        decreases a.len() - i,
    {
        let ghost sa = a@.subrange(i as int, a.len() as int);
        let ghost sb = b@.subrange(i as int, b.len() as int);
        assert(sa.drop_first() =~= a@.subrange(i + 1, a.len() as int));
        assert(sb.drop_first() =~= b@.subrange(i + 1, b.len() as int));
        i += 1;
    }
    i
}

/// True when two usernames are likely the same person with a typo.
pub fn usernames_similar(a: &str, b: &str) -> (r: bool)
    ensures
        r == similar_names(a@, b@),
{
    let av = chars_of(a);
    let bv = chars_of(b);
    if av.len() == 0 || bv.len() == 0 || chars_eq(&av, &bv) {
        return false;
    }
    let alen = byte_len_of(&av);
    let blen = byte_len_of(&bv);
    if (alen > blen && alen - blen > 3) || (blen > alen && blen - alen > 3) {
        return false;
    }
    let prefix = common_prefix(&av, &bv);
    let d = levenshtein(a, b);
    let m = if av.len() >= bv.len() {
        av.len()
    } else {
        bv.len()
    };
    if d as u128 * 10 <= m as u128 && prefix >= 3 {
        return true;
    }
    let min_len = if alen <= blen {
        alen
    } else {
        blen
    };
    assert(min_len <= 4 * (av.len() + bv.len()));
    let scaled = min_len * 55 / 100;
    let need = if scaled > 4 {
        scaled
    } else {
        4
    };
    if (prefix as u128) < need {
        return false;
    }
    d as u128 * 25 <= 4 * (m as u128)
}

// ---------------------------------------------------------------------------
// Cell text
// ---------------------------------------------------------------------------

/// Real entry problems in a cell. Trailing space / zero-width characters are
/// cleaned, not flagged.
pub open spec fn format_issues(cell: Seq<char>) -> Seq<Seq<char>> {
    let t = clean(cell);
    let first: Seq<Seq<char>> = if dash_after_word(t) {
        seq!["missing_space_before_dash"@]
    } else {
        seq![]
    };
    if contains_seq(t, "  "@) {
        first.push("extra_spaces"@)
    } else {
        first
    }
}

/// Detect real entry problems. Trailing space / ZWSP are cleaned, not flagged.
pub fn cell_format_issues(cell: &str) -> (r: Vec<String>)
    ensures
        strings_view(r@) == format_issues(cell@),
{
    let text = clean_cell(Some(cell));
    let tv = chars_of(text.as_str());
    let mut issues: Vec<String> = Vec::new();
    if regex_is_match(DASH_AFTER_WORD, text.as_str()) {
        issues.push(crate::text::owned("missing_space_before_dash"));
    }
    let two = chars_of("  ");
    if contains_chars(&tv, &two) {
        issues.push(crate::text::owned("extra_spaces"));
    }
    assert(strings_view(issues@) =~= format_issues(cell@));
    issues
}

/// Length of the username match (`@` included) at the start of `t`.
pub open spec fn name_match_len(t: Seq<char>) -> int {
    (t.len() - drop_at_sign(t).len()) + word_run_len(drop_at_sign(t))
}

/// The cell with its leading username replaced by `new_username`, suffixes kept.
pub open spec fn replaced_cell(cell: Seq<char>, new_username: Seq<char>) -> Option<Seq<char>> {
    match bare_name(new_username) {
        None => None,
        Some(user) => {
            let t = clean(cell);
            match leading_name(t) {
                None => None,
                Some(_) => {
                    let rest = trim_start(t.subrange(name_match_len(t), t.len() as int));
                    if rest.len() == 0 {
                        Some(user)
                    } else {
                        Some(user + seq![' '] + rest)
                    }
                },
            }
        },
    }
}

/// Replace the leading username in a cell, keeping suffixes (`x2`, `- detail`).
///
/// `new_username` must be a bare Roblox name (no award suffixes).
pub fn replace_username_in_cell(cell: &str, new_username: &str) -> (r: Option<String>)
    ensures
        opt_view(r) == replaced_cell(cell@, new_username@),
{
    let new_user = match parse_bare_username(new_username) {
        Some(u) => u,
        None => return None,
    };
    let text = clean_cell(Some(cell));
    let caps = regex_captures(USERNAME_PREFIX, text.as_str());
    proof {
        lemma_word_run_bound(drop_at_sign(text@));
    }
    let groups = match caps {
        Some(g) => g,
        None => return None,
    };
    assert(captures_view(Some(groups)).unwrap().len() == groups@.len());
    if groups.len() < 2 {
        return None;
    }
    let whole_len = match &groups[0] {
        Some(m) => chars_of(m.as_str()).len(),
        None => return None,
    };
    let tv = chars_of(text.as_str());
    let tail = slice_chars(&tv, whole_len, tv.len());
    let rest = trim_start_chars(&tail);
    let mut out = chars_of(new_user.as_str());
    if rest.len() == 0 {
        return Some(new_user);
    }
    out.push(' ');
    extend_chars(&mut out, &rest);
    Some(string_of(&out))
}

/// `x<digits>`: a repeat/count indicator.
pub open spec fn count_suffix(t: Seq<char>) -> bool {
    t.len() > 1 && lower(t[0]) == 'x' && all_digits(t.drop_first())
}

/// The sheet cell for a username and optional suffix.
pub open spec fn cell_value(username: Seq<char>, suffix: Seq<char>) -> Seq<char> {
    let user = strip_leading(trim(username), '@');
    let suf = trim(suffix);
    if suf.len() == 0 {
        user
    } else if count_suffix(suf) {
        user + seq![' '] + suf
    } else if suf[0] == '-' {
        user + seq![' '] + suf
    } else {
        user + " - "@ + suf
    }
}

fn count_suffix_chars(t: &Vec<char>) -> (r: bool)
    ensures
        r == count_suffix(t@),
{
    if t.len() <= 1 {
        return false;
    }
    if crate::text::lower_char(t[0]) != 'x' {
        return false;
    }
    let rest = slice_chars(t, 1, t.len());
    assert(rest@ =~= t@.drop_first());
    all_digits_chars(&rest)
}

/// True when `tail` is a repeat/count indicator like `x1`, `x2`, ...
pub fn is_count_suffix(tail: &str) -> (r: bool)
    ensures
        r == count_suffix(tail@),
{
    let v = chars_of(tail);
    count_suffix_chars(&v)
}

/// Build a sheet cell value from username + optional suffix.
pub fn build_cell_value(username: &str, suffix: &str) -> (r: String)
    ensures
        r@ == cell_value(username@, suffix@),
{
    let uv = crate::text::trim_str(username);
    let user = strip_leading_chars(&uv, '@');
    let suf = crate::text::trim_str(suffix);
    if suf.len() == 0 {
        return string_of(&user);
    }
    let mut out = user.clone();
    assert(out@ == user@);
    if count_suffix_chars(&suf) || suf[0] == '-' {
        out.push(' ');
    } else {
        extend_str(&mut out, " - ");
    }
    extend_chars(&mut out, &suf);
    string_of(&out)
}

/// The (possibly absent) cell `c` of row `r`.
pub open spec fn cell_at(rows: Seq<Seq<Seq<char>>>, r: int, c: int) -> Seq<char> {
    if 0 <= r < rows.len() && 0 <= c < rows[r].len() {
        rows[r][c]
    } else {
        Seq::empty()
    }
}

/// First row at or after `r` whose cell in column `c` is blank (or the row count).
pub open spec fn first_empty_from(rows: Seq<Seq<Seq<char>>>, c: int, r: int) -> int
    decreases rows.len() - r,
{
    if r >= rows.len() {
        r
    } else if clean(cell_at(rows, r, c)).len() == 0 {
        r
    } else {
        first_empty_from(rows, c, r + 1)
    }
}

/// The text of cell `c` of a row, or `""`.
pub fn cell_text(row: &Vec<String>, c: usize) -> (r: &str)
    ensures
        r@ == (if c < row@.len() {
            row@[c as int]@
        } else {
            Seq::<char>::empty()
        }),
{
    proof {
        reveal_strlit("");
    }
    if c < row.len() {
        row[c].as_str()
    } else {
        ""
    }
}

proof fn lemma_first_empty_bound(rows: Seq<Seq<Seq<char>>>, c: int, r: int)
    ensures
        first_empty_from(rows, c, r) >= r,
        r <= rows.len() ==> first_empty_from(rows, c, r) <= rows.len(),
    decreases rows.len() - r,
{
    if r < rows.len() && clean(cell_at(rows, r, c)).len() != 0 {
        lemma_first_empty_bound(rows, c, r + 1);
    }
}

/// First empty cell row in a column (1-based sheet row).
pub fn find_first_empty_row(rows: &[Vec<String>], sheet: &str, col: &str) -> (r: i32)
    requires
        known_sheet(sheet@),
        col_fits(col@),
        rows@.len() + 12 <= i32::MAX,
    ensures
        r == first_empty_from(
            rows_view(rows@),
            col_index(col@),
            meta_of(sheet@).unwrap().data_start_row - 1,
        ) + 1 + offset_of(sheet@),
{
    let meta = sheet_meta(sheet).unwrap();
    let col_idx = col_to_index(col);
    let start = meta.data_start_row - 1;
    let ghost rv = rows_view(rows@);
    let mut r = start;
    while r < rows.len()
        invariant
            start <= r,
            rows@.len() + 12 <= i32::MAX,
            r <= start || r <= rows.len(),
            rv == rows_view(rows@),
            start == meta_of(sheet@).unwrap().data_start_row - 1,
            col_idx == col_index(col@),
            meta_of(sheet@) is Some,
            first_empty_from(rv, col_idx as int, start as int) == first_empty_from(rv, col_idx as int, r as int),
        decreases rows.len() - r,
    {
        let cell = cell_text(&rows[r], col_idx);
        let cleaned = clean_chars(cell);
        assert(cell@ == cell_at(rv, r as int, col_idx as int));
        if cleaned.len() == 0 {
            return csv_index_to_sheet_row(sheet, r);
        }
        r += 1;
    }
    assert(start <= 3);
    csv_index_to_sheet_row(sheet, r)
}

/// The first cell of a fetched API row (blank rows are empty lists).
pub open spec fn first_cell(row: Seq<Seq<char>>) -> Seq<char> {
    if row.len() > 0 {
        row[0]
    } else {
        Seq::empty()
    }
}

pub open spec fn abs_int(x: int) -> int {
    if x < 0 {
        -x
    } else {
        x
    }
}

/// Among the first `n` rows of a window starting at sheet row `start`, the matching
/// row closest to `hint` (the earliest one on a tie).
pub open spec fn closest_match(
    rows: Seq<Seq<Seq<char>>>,
    start: int,
    want: Seq<char>,
    hint: int,
    n: int,
) -> Option<int>
    decreases n,
{
    if n <= 0 {
        None
    } else {
        let prev = closest_match(rows, start, want, hint, n - 1);
        let r = start + n - 1;
        if clean(first_cell(rows[n - 1])) == want {
            match prev {
                None => Some(r),
                Some(p) => if abs_int(r - hint) < abs_int(p - hint) {
                    Some(r)
                } else {
                    Some(p)
                },
            }
        } else {
            prev
        }
    }
}

/// The live row an expected cell sits at within a fetched window.
pub open spec fn window_match(
    rows: Seq<Seq<Seq<char>>>,
    start: int,
    expected: Seq<char>,
    hint: int,
) -> Option<int> {
    let want = clean(expected);
    if want.len() == 0 {
        None
    } else {
        closest_match(rows, start, want, hint, rows.len() as int)
    }
}

proof fn lemma_closest_match_range(rows: Seq<Seq<Seq<char>>>, start: int, want: Seq<char>, hint: int, n: int)
    ensures
        closest_match(rows, start, want, hint, n) matches Some(p) ==> start <= p < start + n,
    decreases n,
{
    if n > 0 {
        lemma_closest_match_range(rows, start, want, hint, n - 1);
    }
}

/// A matched row lies inside the window.
pub proof fn lemma_window_match_range(rows: Seq<Seq<Seq<char>>>, start: int, expected: Seq<char>, hint: int)
    ensures
        window_match(rows, start, expected, hint) matches Some(p) ==> start <= p < start + rows.len(),
{
    lemma_closest_match_range(rows, start, clean(expected), hint, rows.len() as int);
}

/// Map an API values window onto live sheet rows and find `expected_cell`.
///
/// `values[0]` is `start_row`. Blank API rows are empty lists. If several cells
/// match, pick the one closest to `hint_row` (handles mid-sheet CSV lag).
pub fn match_row_in_window(
    values: &[Vec<String>],
    start_row: i32,
    expected_cell: &str,
    hint_row: i32,
) -> (r: Option<i32>)
    requires
        values@.len() <= i32::MAX,
        start_row as int + values@.len() <= i32::MAX,
        start_row as int - hint_row > i32::MIN,
        start_row as int + values@.len() - hint_row <= i32::MAX,
    ensures
        match r {
            Some(x) => window_match(rows_view(values@), start_row as int, expected_cell@, hint_row as int)
                == Some(x as int),
            None => window_match(rows_view(values@), start_row as int, expected_cell@, hint_row as int) is None,
        },
{
    let want = clean_chars(expected_cell);
    if want.len() == 0 {
        return None;
    }
    let ghost rv = rows_view(values@);
    let mut best: Option<i32> = None;
    let mut i: usize = 0;
    while i < values.len()
        invariant
            i <= values.len(),
            rv == rows_view(values@),
            values@.len() <= i32::MAX,
            start_row as int + values@.len() <= i32::MAX,
            start_row as int - hint_row > i32::MIN,
            start_row as int + values@.len() - hint_row <= i32::MAX,
            match best {
                Some(b) => closest_match(rv, start_row as int, want@, hint_row as int, i as int) == Some(b as int),
                None => closest_match(rv, start_row as int, want@, hint_row as int, i as int) is None,
            },
        decreases values.len() - i,
    {
        let row = &values[i];
        proof {
            reveal_strlit("");
        }
        let first = if row.len() > 0 {
            row[0].as_str()
        } else {
            ""
        };
        assert(first@ == first_cell(rv[i as int]));
        let live = clean_chars(first);
        if chars_eq(&live, &want) {
            let r = start_row + i as i32;
            proof {
                lemma_closest_match_range(rv, start_row as int, want@, hint_row as int, i as int);
            }
            best = match best {
                None => Some(r),
                Some(p) => {
                    let dr = if r - hint_row < 0 { hint_row - r } else { r - hint_row };
                    let dp = if p - hint_row < 0 { hint_row - p } else { p - hint_row };
                    if dr < dp {
                        Some(r)
                    } else {
                        Some(p)
                    }
                },
            };
        }
        i += 1;
    }
    best
}

// ---------------------------------------------------------------------------
// Pasted Discord requests
// ---------------------------------------------------------------------------

/// A `Label: value` line split into its trimmed, zero-width-stripped halves.
pub open spec fn labeled_line(line: Seq<char>) -> Option<(Seq<char>, Seq<char>)> {
    let t = clean(line);
    if t.len() == 0 {
        None
    } else {
        match find_seq(t, seq![':']) {
            None => None,
            Some(i) => {
                let label = trim(t.subrange(0, i));
                if label.len() == 0 {
                    None
                } else {
                    Some((label, trim(t.subrange(i + 1, t.len() as int))))
                }
            },
        }
    }
}

proof fn lemma_find_in_range(s: Seq<char>, p: Seq<char>)
    ensures
        find_seq(s, p) matches Some(i) ==> 0 <= i && i + p.len() <= s.len(),
{
    crate::text::lemma_find_from_some(s, p, 0);
}

/// Split a `Label: value` line into its trimmed, zero-width-stripped halves.
pub fn split_labeled_line(line: &str) -> (r: Option<(String, String)>)
    ensures
        match r {
            Some((l, v)) => labeled_line(line@) == Some((l@, v@)),
            None => labeled_line(line@) is None,
        },
{
    let t = clean_chars(line);
    if t.len() == 0 {
        return None;
    }
    let colon = vec![':'];
    assert(colon@ =~= seq![':']);
    let idx = match find_chars(&t, &colon) {
        Some(i) => i,
        None => return None,
    };
    proof {
        lemma_find_in_range(t@, colon@);
    }
    let head = slice_chars(&t, 0, idx);
    let label = trim_chars(&head);
    if label.len() == 0 {
        return None;
    }
    let tail = slice_chars(&t, idx + 1, t.len());
    let value = trim_chars(&tail);
    Some((string_of(&label), string_of(&value)))
}

/// One emphasis marker removed from both ends of `s`, when it wraps `s`.
pub open spec fn strip_marker(s: Seq<char>, m: Seq<char>) -> (Seq<char>, bool) {
    if s.len() > 2 * m.len() && starts_with(s, m) && crate::text::ends_with(s, m) {
        (trim(s.subrange(m.len() as int, s.len() - m.len())), true)
    } else {
        (s, false)
    }
}

/// One pass over the markers `**`, `__`, `~~`, `*`, `_` in that order.
pub open spec fn strip_pass(s: Seq<char>) -> (Seq<char>, bool) {
    let a = strip_marker(s, "**"@);
    let b = strip_marker(a.0, "__"@);
    let c = strip_marker(b.0, "~~"@);
    let d = strip_marker(c.0, seq!['*']);
    let e = strip_marker(d.0, seq!['_']);
    (e.0, a.1 || b.1 || c.1 || d.1 || e.1)
}

/// Passes repeated until one strips nothing. (A pass that strips always
/// shortens the text: see `lemma_strip_pass_shrinks`.)
pub open spec fn strip_all(s: Seq<char>) -> Seq<char>
    decreases s.len(),
{
    let p = strip_pass(s);
    if p.1 && p.0.len() < s.len() {
        strip_all(p.0)
    } else {
        p.0
    }
}

/// Discord Markdown emphasis wrapping the whole trimmed value, removed.
pub open spec fn without_artifacts(value: Seq<char>) -> Seq<char> {
    strip_all(trim(value))
}

proof fn lemma_trim_len(s: Seq<char>)
    ensures
        trim(s).len() <= s.len(),
{
    lemma_trim_start_len(s);
    lemma_trim_end_len(crate::text::trim_start(s));
}

proof fn lemma_trim_start_len(s: Seq<char>)
    ensures
        crate::text::trim_start(s).len() <= s.len(),
    decreases s.len(),
{
    if s.len() > 0 && is_ws(s[0]) {
        lemma_trim_start_len(s.drop_first());
    }
}

proof fn lemma_trim_end_len(s: Seq<char>)
    ensures
        crate::text::trim_end(s).len() <= s.len(),
    decreases s.len(),
{
    if s.len() > 0 && is_ws(s.last()) {
        lemma_trim_end_len(s.drop_last());
    }
}

proof fn lemma_strip_marker_len(s: Seq<char>, m: Seq<char>)
    requires
        m.len() > 0,
    ensures
        strip_marker(s, m).1 ==> strip_marker(s, m).0.len() < s.len(),
        !strip_marker(s, m).1 ==> strip_marker(s, m).0 == s,
{
    if s.len() > 2 * m.len() && starts_with(s, m) && crate::text::ends_with(s, m) {
        lemma_trim_len(s.subrange(m.len() as int, s.len() - m.len()));
    }
}

/// A pass that strips anything shortens the text.
pub proof fn lemma_strip_pass_shrinks(s: Seq<char>)
    ensures
        strip_pass(s).1 ==> strip_pass(s).0.len() < s.len(),
        !strip_pass(s).1 ==> strip_pass(s).0 == s,
{
    reveal_strlit("**");
    reveal_strlit("__");
    reveal_strlit("~~");
    let a = strip_marker(s, "**"@);
    lemma_strip_marker_len(s, "**"@);
    let b = strip_marker(a.0, "__"@);
    lemma_strip_marker_len(a.0, "__"@);
    let c = strip_marker(b.0, "~~"@);
    lemma_strip_marker_len(b.0, "~~"@);
    let d = strip_marker(c.0, seq!['*']);
    lemma_strip_marker_len(c.0, seq!['*']);
    lemma_strip_marker_len(d.0, seq!['_']);
}

fn strip_marker_chars(s: Vec<char>, m: &Vec<char>) -> (r: (Vec<char>, bool))
    ensures
        (r.0@, r.1) == strip_marker(s@, m@),
{
    if s.len() / 2 > m.len() || (s.len() / 2 == m.len() && s.len() % 2 == 1) {
        if starts_with_chars(&s, m) && crate::text::ends_with_chars(&s, m) {
            let mid = slice_chars(&s, m.len(), s.len() - m.len());
            return (trim_chars(&mid), true);
        }
    }
    (s, false)
}

/// Strip Discord copy-paste Markdown emphasis (`**bold**`, `__underline__`,
/// `~~strike~~`, `*italic*`/`_italic_`) that wraps the *entire* trimmed string,
/// edge-only.
pub fn strip_paste_artifacts(value: &str) -> (r: String)
    ensures
        r@ == without_artifacts(value@),
{
    let mut s = crate::text::trim_str(value);
    let m1 = chars_of("**");
    let m2 = chars_of("__");
    let m3 = chars_of("~~");
    let m4 = vec!['*'];
    let m5 = vec!['_'];
    assert(m4@ =~= seq!['*']);
    assert(m5@ =~= seq!['_']);
    loop
        invariant
            without_artifacts(value@) == strip_all(s@),
            m1@ == "**"@,
            m2@ == "__"@,
            m3@ == "~~"@,
            m4@ == seq!['*'],
            m5@ == seq!['_'],
        ensures
            without_artifacts(value@) == s@,
        decreases s@.len(),
    {
        let ghost before = s@;
        let (a, c1) = strip_marker_chars(s, &m1);
        let (b, c2) = strip_marker_chars(a, &m2);
        let (c, c3) = strip_marker_chars(b, &m3);
        let (d, c4) = strip_marker_chars(c, &m4);
        let (e, c5) = strip_marker_chars(d, &m5);
        proof {
            lemma_strip_pass_shrinks(before);
        }
        assert((e@, c1 || c2 || c3 || c4 || c5) == strip_pass(before));
        s = e;
        if !(c1 || c2 || c3 || c4 || c5) {
            break;
        }
    }
    string_of(&s)
}

pub open spec fn is_line_break(c: char) -> bool {
    c == '\r' || c == '\n'
}

/// Lines of `s`, continuing a line `cur` already begun; empty lines are dropped.
pub open spec fn line_pieces(s: Seq<char>, cur: Seq<char>) -> Seq<Seq<char>>
    decreases s.len(),
{
    if s.len() == 0 {
        if cur.len() == 0 {
            seq![]
        } else {
            seq![cur]
        }
    } else if is_line_break(s[0]) {
        let rest = line_pieces(s.drop_first(), seq![]);
        if cur.len() == 0 {
            rest
        } else {
            seq![cur] + rest
        }
    } else {
        line_pieces(s.drop_first(), cur.push(s[0]))
    }
}

/// The non-empty lines of a paste; `\n`, `\r\n` and a lone `\r` all end a line.
pub open spec fn paste_lines(raw: Seq<char>) -> Seq<Seq<char>> {
    line_pieces(raw, seq![])
}

pub open spec fn is_username_label(l: Seq<char>) -> bool {
    l == "roblox username"@ || l == "username"@
}

pub open spec fn is_award_label(l: Seq<char>) -> bool {
    l == "badge requested"@ || l == "ribbon requested"@ || l == "award requested"@
}

/// Extraction state: username found, username line seen, award text, award line seen.
pub type PasteScan = (Option<Seq<char>>, bool, Option<Seq<char>>, bool);

/// The effect of one line on the extraction state.
pub open spec fn paste_step(line: Seq<char>, st: PasteScan) -> PasteScan {
    match labeled_line(line) {
        None => st,
        Some((l, v)) => {
            let label = lower_seq(without_artifacts(l));
            let value = without_artifacts(v);
            if !st.1 && is_username_label(label) {
                (bare_name(value), true, st.2, st.3)
            } else if !st.3 && is_award_label(label) {
                (st.0, st.1, if value.len() > 0 {
                    Some(value)
                } else {
                    None
                }, true)
            } else {
                st
            }
        },
    }
}

/// The lines read in order until both fields have been seen.
pub open spec fn paste_scan(lines: Seq<Seq<char>>, st: PasteScan) -> PasteScan
    decreases lines.len(),
{
    if lines.len() == 0 || (st.1 && st.3) {
        st
    } else {
        paste_scan(lines.drop_first(), paste_step(lines[0], st))
    }
}

/// The username and award text a pasted request yields.
pub open spec fn extracted(raw: Seq<char>) -> (Option<Seq<char>>, Option<Seq<char>>) {
    let st = paste_scan(paste_lines(raw), (None, false, None, false));
    (st.0, st.2)
}

pub open spec fn lines_view(v: Seq<Vec<char>>) -> Seq<Seq<char>> {
    v.map_values(|l: Vec<char>| l@)
}

fn split_paste_lines(raw: &Vec<char>) -> (r: Vec<Vec<char>>)
    ensures
        lines_view(r@) == paste_lines(raw@),
{
    let mut out: Vec<Vec<char>> = Vec::new();
    let mut cur: Vec<char> = Vec::new();
    let mut i: usize = 0;
    assert(raw@.subrange(0, raw.len() as int) =~= raw@);
    assert(lines_view(out@) =~= Seq::<Seq<char>>::empty());
    assert(cur@ =~= Seq::<char>::empty());
    while i < raw.len()
        invariant
            i <= raw.len(),
            paste_lines(raw@) == lines_view(out@) + line_pieces(
                raw@.subrange(i as int, raw.len() as int),
                cur@,
            ),
        decreases raw.len() - i,
    {
        let c = raw[i];
        let ghost rest = raw@.subrange(i as int, raw.len() as int);
        let ghost prev_out = out@;
        assert(rest.drop_first() =~= raw@.subrange(i + 1, raw.len() as int));
        assert(rest[0] == c);
        if c == '\r' || c == '\n' {
            if cur.len() > 0 {
                let ghost cv = cur@;
                out.push(cur);
                assert(lines_view(out@) =~= lines_view(prev_out).push(cv));
                assert(lines_view(prev_out).push(cv) + line_pieces(rest.drop_first(), seq![])
                    =~= lines_view(prev_out) + (seq![cv] + line_pieces(rest.drop_first(), seq![])));
                cur = Vec::new();
                assert(cur@ =~= Seq::<char>::empty());
            } else {
                assert(cur@ =~= Seq::<char>::empty());
            }
        } else {
            cur.push(c);
        }
        i += 1;
    }
    assert(raw@.subrange(i as int, raw.len() as int) =~= Seq::<char>::empty());
    if cur.len() > 0 {
        let ghost prev_out = out@;
        let ghost cv = cur@;
        out.push(cur);
        assert(lines_view(out@) =~= lines_view(prev_out).push(cv));
        assert(lines_view(out@) =~= lines_view(prev_out) + seq![cv]);
    } else {
        assert(lines_view(out@) + Seq::<Seq<char>>::empty() =~= lines_view(out@));
    }
    out
}

proof fn lemma_scan_step(lines: Seq<Seq<char>>, k: int, st: PasteScan)
    requires
        0 <= k < lines.len(),
        !(st.1 && st.3),
    ensures
        paste_scan(lines.subrange(k, lines.len() as int), st) == paste_scan(
            lines.subrange(k + 1, lines.len() as int),
            paste_step(lines[k], st),
        ),
{
    let t = lines.subrange(k, lines.len() as int);
    assert(t.drop_first() =~= lines.subrange(k + 1, lines.len() as int));
}

/// Extract the requester's username and the requested-award text from a pasted
/// Discord request message. Recognizes the label variants `ROBLOX Username` /
/// `Username` and `Badge|Ribbon|Award Requested`, case-insensitively, after
/// stripping Markdown emphasis. The first matching line wins for each field.
/// `username` is `None` unless that line's value is a bare username.
pub fn extract_paste_fields(raw: &str) -> (r: ExtractedRequest)
    ensures
        (opt_view(r.username), opt_view(r.award_text)) == extracted(raw@),
{
    let rv = chars_of(raw);
    let lines = split_paste_lines(&rv);
    let ghost lv = lines_view(lines@);
    let mut username: Option<String> = None;
    let mut username_seen = false;
    let mut award_text: Option<String> = None;
    let mut award_seen = false;
    let mut k: usize = 0;
    assert(lv.subrange(0, lv.len() as int) =~= lv);
    while k < lines.len()
        invariant
            k <= lines.len(),
            lv == lines_view(lines@),
            lv == paste_lines(rv@),
            rv@ == raw@,
            !award_seen ==> award_text is None,
            extracted(raw@) == ({
                let st = paste_scan(
                    lv.subrange(k as int, lv.len() as int),
                    (opt_view(username), username_seen, opt_view(award_text), award_seen),
                );
                (st.0, st.2)
            }),
        ensures
            extracted(raw@) == (opt_view(username), opt_view(award_text)),
        decreases lines.len() - k,
    {
        if username_seen && award_seen {
            break;
        }
        if k + 1 == lines.len() {
            assert(lv.subrange(k + 1, lv.len() as int) =~= Seq::<Seq<char>>::empty());
        }
        let ghost st0 = (opt_view(username), username_seen, opt_view(award_text), award_seen);
        proof {
            lemma_scan_step(lv, k as int, (opt_view(username), username_seen, opt_view(award_text), award_seen));
        }
        let line = string_of(&lines[k]);
        assert(line@ == lv[k as int]);
        match split_labeled_line(line.as_str()) {
            None => {},
            Some((label_raw, value_raw)) => {
                assert(labeled_line(lv[k as int]) == Some((label_raw@, value_raw@)));
                let label_s = strip_paste_artifacts(label_raw.as_str());
                let lc = chars_of(label_s.as_str());
                let label = lower_chars(&lc);
                let value = strip_paste_artifacts(value_raw.as_str());
                let l1 = chars_of("roblox username");
                let l2 = chars_of("username");
                let a1 = chars_of("badge requested");
                let a2 = chars_of("ribbon requested");
                let a3 = chars_of("award requested");
                if !username_seen && (chars_eq(&label, &l1) || chars_eq(&label, &l2)) {
                    username_seen = true;
                    username = parse_bare_username(value.as_str());
                } else if !award_seen && (chars_eq(&label, &a1) || chars_eq(&label, &a2)
                    || chars_eq(&label, &a3)) {
                    award_seen = true;
                    if chars_of(value.as_str()).len() > 0 {
                        award_text = Some(value);
                    }
                }
            },
        }
        assert((opt_view(username), username_seen, opt_view(award_text), award_seen) == paste_step(lv[k as int], st0));
        k += 1;
    }
    ExtractedRequest { username, award_text }
}

/// `(base, count suffix)` of an award-text candidate such as
/// `Afghanistan Campaign x1`; the suffix is empty when there is none.
pub open spec fn suffix_split(text: Seq<char>) -> (Seq<char>, Seq<char>) {
    let t = trim(text);
    match rfind_ws(t) {
        Some(i) => {
            let base = trim(t.subrange(0, i));
            let tail = trim(t.subrange(i + 1, t.len() as int));
            if count_suffix(tail) {
                (base, tail)
            } else {
                (t, Seq::empty())
            }
        },
        None => (t, Seq::empty()),
    }
}

/// The last whitespace character of the trimmed text is one byte long (slicing
/// just after a wider one is not a character boundary).
pub open spec fn last_space_is_ascii(text: Seq<char>) -> bool {
    match rfind_ws(trim(text)) {
        Some(i) => (trim(text)[i] as u32) < 0x80,
        None => true,
    }
}

proof fn lemma_rfind_ws_range(s: Seq<char>)
    ensures
        rfind_ws(s) matches Some(i) ==> 0 <= i < s.len(),
    decreases s.len(),
{
    if s.len() > 0 && !is_ws(s.last()) {
        lemma_rfind_ws_range(s.drop_last());
    }
}

/// Whether `text` meets `last_space_is_ascii`, so it can be split.
pub fn has_ascii_last_space(text: &str) -> (r: bool)
    ensures
        r == last_space_is_ascii(text@),
{
    let t = crate::text::trim_str(text);
    proof {
        lemma_rfind_ws_range(t@);
    }
    match rfind_ws_chars(&t) {
        Some(i) => (t[i] as u32) < 0x80,
        None => true,
    }
}

/// Split a trailing repeat/count indicator (e.g. `"Afghanistan Campaign x1"` →
/// `("Afghanistan Campaign", "x1")`) off an award-text candidate.
pub fn split_award_suffix(text: &str) -> (r: (String, String))
    requires
        last_space_is_ascii(text@),
    ensures
        (r.0@, r.1@) == suffix_split(text@),
{
    let t = crate::text::trim_str(text);
    proof {
        lemma_rfind_ws_range(t@);
    }
    match rfind_ws_chars(&t) {
        Some(idx) => {
            let head = slice_chars(&t, 0, idx);
            let base = trim_chars(&head);
            let tail_raw = slice_chars(&t, idx + 1, t.len());
            let tail = trim_chars(&tail_raw);
            if count_suffix_chars(&tail) {
                return (string_of(&base), string_of(&tail));
            }
            (string_of(&t), String::new())
        },
        None => (string_of(&t), String::new()),
    }
}

/// The catalog entry matches a lower-case query by award name or category label.
pub open spec fn def_matches(d: AwardDefView, q: Seq<char>) -> bool {
    ||| q.len() == 0
    ||| contains_seq(lower_seq(d.base_name), q)
    ||| match label_of(d.category) {
        Some(l) => contains_seq(lower_seq(l), q),
        None => false,
    }
}

/// The entries of `defs` matching `q`, in order.
pub open spec fn defs_matching(defs: Seq<AwardDefView>, q: Seq<char>) -> Seq<AwardDefView>
    decreases defs.len(),
{
    if defs.len() == 0 {
        defs
    } else if def_matches(defs.last(), q) {
        defs_matching(defs.drop_last(), q).push(defs.last())
    } else {
        defs_matching(defs.drop_last(), q)
    }
}

/// Every catalog entry whose award name or category label contains `query`,
/// case-insensitively. An empty `query` matches everything.
pub fn match_catalog_entries(catalog: &[AwardDef], query: &str) -> (r: Vec<AwardDef>)
    ensures
        defs_view(r@) == defs_matching(defs_view(catalog@), lower_seq(trim(query@))),
{
    let qt = crate::text::trim_str(query);
    let q = lower_chars(&qt);
    let mut out: Vec<AwardDef> = Vec::new();
    let mut i: usize = 0;
    while i < catalog.len()
        invariant
            i <= catalog.len(),
            q@ == lower_seq(trim(query@)),
            defs_view(out@) == defs_matching(defs_view(catalog@.subrange(0, i as int)), q@),
        decreases catalog.len() - i,
    {
        let def = &catalog[i];
        assert(defs_view(catalog@.subrange(0, i + 1)).drop_last() =~= defs_view(catalog@.subrange(0, i as int)));
        assert(defs_view(catalog@.subrange(0, i + 1)).last() == def@);
        let bn = chars_of(def.base_name.as_str());
        let bl = lower_chars(&bn);
        let mut hit = q.len() == 0 || contains_chars(&bl, &q);
        if !hit {
            match category_label_for(def.category.as_str()) {
                Some(label) => {
                    let lv = chars_of(label);
                    let ll = lower_chars(&lv);
                    hit = contains_chars(&ll, &q);
                },
                None => {},
            }
        }
        if hit {
            let ghost prev = out@;
            out.push(def.clone());
            assert(defs_view(out@) =~= defs_view(prev).push(def@));
        }
        i += 1;
    }
    assert(catalog@.subrange(0, catalog.len() as int) =~= catalog@);
    out
}

} // verus!
