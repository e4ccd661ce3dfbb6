//! Fixed facts about the three database tabs, and column-letter arithmetic.
use vstd::prelude::*;
use crate::text::{chars_of, is_lower, is_upper, str_eq, string_of, upper, upper_char, upper_seq};

verus! {

pub const SHEET_ID: &'static str = "1e_AqHIGrGdfNSgoHt6kLV89E6LADJmlZzhfRAUXo0wY";

pub const USER_AGENT: &'static str = "awards-tui/1.2 (decorations lookup + edit)";

pub const RIBBONS_SHEET: &'static str = "Ribbons Database";

pub const BADGES_SHEET: &'static str = "Badges Database";

pub const FOREIGN_SHEET: &'static str = "Foreign Awards Database";

/// The three tabs, in fetch order.
pub const SHEET_NAMES: [&'static str; 3] = [RIBBONS_SHEET, BADGES_SHEET, FOREIGN_SHEET];

/// `(category key, display label)` pairs, in display order.
pub const CATEGORY_LABELS: [(&'static str, &'static str); 3] = [
    ("badges", "Badges"),
    ("ribbons", "Ribbons"),
    ("foreign", "Foreign Awards"),
];

/// Layout of one tab: which row holds award names, where member cells start, and
/// the offset from CSV rows to live sheet rows.
#[derive(Debug, Clone, Copy)]
pub struct SheetMeta {
    pub category: &'static str,
    pub name_row: usize,
    pub data_start_row: usize,
    pub row_offset: i32,
}

pub struct SheetMetaView {
    pub category: Seq<char>,
    pub name_row: usize,
    pub data_start_row: usize,
    pub row_offset: i32,
}

impl View for SheetMeta {
    type V = SheetMetaView;

    open spec fn view(&self) -> SheetMetaView {
        SheetMetaView {
            category: self.category@,
            name_row: self.name_row,
            data_start_row: self.data_start_row,
            row_offset: self.row_offset,
        }
    }
}

/// The layout of each known tab.
pub open spec fn meta_of(sheet: Seq<char>) -> Option<SheetMetaView> {
    if sheet == RIBBONS_SHEET@ {
        Some(SheetMetaView { category: "ribbons"@, name_row: 1, data_start_row: 2, row_offset: 8 })
    } else if sheet == BADGES_SHEET@ {
        Some(SheetMetaView { category: "badges"@, name_row: 3, data_start_row: 4, row_offset: 6 })
    } else if sheet == FOREIGN_SHEET@ {
        Some(SheetMetaView { category: "foreign"@, name_row: 2, data_start_row: 3, row_offset: 7 })
    } else {
        None
    }
}

pub open spec fn known_sheet(sheet: Seq<char>) -> bool {
    meta_of(sheet) is Some
}

/// CSV→live offset of a tab (0 for an unknown tab).
pub open spec fn offset_of(sheet: Seq<char>) -> int {
    match meta_of(sheet) {
        Some(m) => m.row_offset as int,
        None => 0,
    }
}

/// The category key → display label table.
pub open spec fn label_of(category: Seq<char>) -> Option<Seq<char>> {
    if category == "badges"@ {
        Some("Badges"@)
    } else if category == "ribbons"@ {
        Some("Ribbons"@)
    } else if category == "foreign"@ {
        Some("Foreign Awards"@)
    } else {
        None
    }
}

/// Display position of a category (unknown categories sort after all known ones).
pub open spec fn category_rank(category: Seq<char>) -> int {
    if category == "badges"@ {
        0
    } else if category == "ribbons"@ {
        1
    } else if category == "foreign"@ {
        2
    } else {
        99
    }
}

pub fn sheet_meta(sheet: &str) -> (r: Option<SheetMeta>)
    ensures
        match r {
            Some(m) => meta_of(sheet@) == Some(m@),
            None => meta_of(sheet@) is None,
        },
{
    if str_eq(sheet, RIBBONS_SHEET) {
        Some(SheetMeta { category: "ribbons", name_row: 1, data_start_row: 2, row_offset: 8 })
    } else if str_eq(sheet, BADGES_SHEET) {
        Some(SheetMeta { category: "badges", name_row: 3, data_start_row: 4, row_offset: 6 })
    } else if str_eq(sheet, FOREIGN_SHEET) {
        Some(SheetMeta { category: "foreign", name_row: 2, data_start_row: 3, row_offset: 7 })
    } else {
        None
    }
}

pub fn row_offset(sheet: &str) -> (r: i32)
    ensures
        r == offset_of(sheet@),
{
    match sheet_meta(sheet) {
        Some(m) => m.row_offset,
        None => 0,
    }
}

/// Convert 0-based CSV row index to 1-based Google Sheets row number.
pub fn csv_index_to_sheet_row(sheet: &str, csv_index: usize) -> (r: i32)
    requires
        csv_index + 9 <= i32::MAX,
    ensures
        r == csv_index + 1 + offset_of(sheet@),
{
    csv_index as i32 + 1 + row_offset(sheet)
}

/// First live sheet row that holds member cells.
pub fn sheet_data_start_row(sheet: &str) -> (r: i32)
    requires
        known_sheet(sheet@),
    ensures
        r == meta_of(sheet@).unwrap().data_start_row + meta_of(sheet@).unwrap().row_offset,
{
    let meta = sheet_meta(sheet).unwrap();
    meta.data_start_row as i32 + meta.row_offset
}

/// Numeric value of the letters of a column name (`"A"` → 1, `"AB"` → 28);
/// characters other than ASCII letters are skipped.
pub open spec fn col_value(s: Seq<char>) -> int
    decreases s.len(),
{
    if s.len() == 0 {
        0
    } else if is_upper(upper(s.last())) {
        col_value(s.drop_last()) * 26 + ((upper(s.last()) as u32) - 64)
    } else {
        col_value(s.drop_last())
    }
}

/// The column name fits the machine word when converted.
pub open spec fn col_fits(s: Seq<char>) -> bool {
    forall|i: int| 0 <= i <= s.len() ==> #[trigger] col_value(s.subrange(0, i)) <= usize::MAX
}

/// 0-based column index of a column name.
pub open spec fn col_index(s: Seq<char>) -> int {
    if col_value(s) >= 1 {
        col_value(s) - 1
    } else {
        0
    }
}

/// Column letters of a 1-based column number (bijective base 26).
pub open spec fn col_letters(n: nat) -> Seq<char>
    decreases n,
{
    if n == 0 {
        seq![]
    } else {
        col_letters(((n - 1) / 26) as nat).push((65 + ((n - 1) % 26) as int) as char)
    }
}

pub proof fn lemma_col_value_nonneg(s: Seq<char>)
    ensures
        col_value(s) >= 0,
    decreases s.len(),
{
    if s.len() > 0 {
        lemma_col_value_nonneg(s.drop_last());
    }
}

pub fn col_to_index(col: &str) -> (r: usize)
    requires
        col_fits(col@),
    ensures
        r == col_index(col@),
{
    let v = chars_of(col);
    let mut n: usize = 0;
    let mut i: usize = 0;
    assert(v@.subrange(0, 0) =~= Seq::<char>::empty());
    while i < v.len()
        invariant
            i <= v.len(),
            v@ == col@,
            col_fits(col@),
            n == col_value(v@.subrange(0, i as int)),
        decreases v.len() - i,
    {
        let u = upper_char(v[i]);
        let ghost pre = v@.subrange(0, i as int);
        let ghost next = v@.subrange(0, i + 1);
        assert(next.drop_last() =~= pre);
        assert(next.last() == v@[i as int]);
        assert(col_value(next) <= usize::MAX);
        if 'A' <= u && u <= 'Z' {
            proof {
                lemma_col_value_nonneg(pre);
            }
            n = n * 26 + (u as usize - 64);
        }
        i += 1;
    }
    assert(v@.subrange(0, v.len() as int) =~= v@);
    if n >= 1 {
        n - 1
    } else {
        0
    }
}

fn push_col_letters(n: usize, out: &mut Vec<char>)
    ensures
        final(out)@ == old(out)@ + col_letters(n as nat),
    decreases n,
{
    if n == 0 {
        assert(col_letters(0) =~= Seq::<char>::empty());
        assert(old(out)@ + col_letters(0) =~= old(out)@);
        return;
    }
    let rem = (n - 1) % 26;
    push_col_letters((n - 1) / 26, out);
    let c = (65u8 + rem as u8) as char;
    assert(c == (65 + ((n - 1) % 26) as int) as char);
    out.push(c);
}

/// Column name of a 0-based column index.
pub fn index_to_col(idx: usize) -> (r: String)
    requires
        idx < usize::MAX,
    ensures
        r@ == col_letters((idx + 1) as nat),
{
    let mut v: Vec<char> = Vec::new();
    push_col_letters(idx + 1, &mut v);
    assert(v@ =~= col_letters((idx + 1) as nat));
    string_of(&v)
}

/// Category display label (`CATEGORY_LABELS` lookup).
pub fn category_label_for(category: &str) -> (r: Option<&'static str>)
    ensures
        match r {
            Some(l) => label_of(category@) == Some(l@),
            None => label_of(category@) is None,
        },
{
    if str_eq(category, "badges") {
        Some("Badges")
    } else if str_eq(category, "ribbons") {
        Some("Ribbons")
    } else if str_eq(category, "foreign") {
        Some("Foreign Awards")
    } else {
        None
    }
}

pub fn category_rank_of(category: &str) -> (r: usize)
    ensures
        r == category_rank(category@),
{
    if str_eq(category, "badges") {
        0
    } else if str_eq(category, "ribbons") {
        1
    } else if str_eq(category, "foreign") {
        2
    } else {
        99
    }
}

proof fn lemma_col_value_of_letters(n: nat)
    ensures
        col_value(col_letters(n)) == n,
    decreases n,
{
    if n > 0 {
        let q = ((n - 1) / 26) as nat;
        let c = (65 + ((n - 1) % 26) as int) as char;
        lemma_col_value_of_letters(q);
        let s = col_letters(n);
        assert(s.drop_last() == col_letters(q));
        assert(s.last() == c);
        assert(upper(c) == c);
    }
}

proof fn lemma_col_value_prefix_le(s: Seq<char>, i: int)
    requires
        0 <= i <= s.len(),
    ensures
        col_value(s.subrange(0, i)) <= col_value(s),
    decreases s.len() - i,
{
    if i < s.len() {
        lemma_col_value_prefix_le(s, i + 1);
        let t = s.subrange(0, i + 1);
        assert(t.drop_last() =~= s.subrange(0, i));
        lemma_col_value_nonneg(s.subrange(0, i));
    } else {
        assert(s.subrange(0, i) =~= s);
    }
}

/// Column names round-trip: the name `index_to_col` gives for an index converts
/// back to that index with `col_to_index`.
pub proof fn law_column_name_roundtrip(idx: usize)
    requires
        idx < usize::MAX,
    ensures
        col_fits(col_letters((idx + 1) as nat)),
        col_index(col_letters((idx + 1) as nat)) == idx,
{
    let s = col_letters((idx + 1) as nat);
    lemma_col_value_of_letters((idx + 1) as nat);
    assert forall|i: int| 0 <= i <= s.len() implies #[trigger] col_value(s.subrange(0, i)) <= usize::MAX by {
        lemma_col_value_prefix_le(s, i);
    }
}


/// Every character is an ASCII letter.
pub open spec fn ascii_letters(s: Seq<char>) -> bool {
    forall|i: int| 0 <= i < s.len() ==> is_upper(#[trigger] s[i]) || is_lower(s[i])
}

/// Largest value a column name of `n` letters can have (`"ZZ…Z"`).
pub open spec fn col_cap(n: nat) -> int
    decreases n,
{
    if n == 0 {
        0
    } else {
        26 * col_cap((n - 1) as nat) + 26
    }
}

proof fn lemma_col_value_of_name(s: Seq<char>)
    requires
        ascii_letters(s),
    ensures
        col_letters(col_value(s) as nat) == upper_seq(s),
        s.len() > 0 ==> col_value(s) >= 1,
        col_value(s) <= col_cap(s.len()),
    decreases s.len(),
{
    if s.len() == 0 {
        assert(upper_seq(s) =~= Seq::<char>::empty());
    } else {
        let p = s.drop_last();
        assert forall|i: int| 0 <= i < p.len() implies is_upper(#[trigger] p[i]) || is_lower(p[i]) by {
            assert(p[i] == s[i]);
        }
        lemma_col_value_of_name(p);
        lemma_col_value_nonneg(p);
        let c = s.last();
        assert(is_upper(s[s.len() - 1]) || is_lower(s[s.len() - 1]));
        let u = upper(c);
        assert(is_upper(u));
        let v = col_value(p);
        let d = (u as u32) - 64;
        assert(1 <= d <= 26);
        let n = v * 26 + d;
        assert(col_value(s) == n);
        assert((n - 1) / 26 == v);
        assert((n - 1) % 26 == d - 1);
        assert((65 + (d - 1)) as char == u);
        assert(col_letters(n as nat) == col_letters(v as nat).push(u));
        assert(upper_seq(s) =~= upper_seq(p).push(u));
    }
}

/// Column names round-trip the other way too: a name of one to six ASCII
/// letters converts to an index whose name is the same letters in upper case.
pub proof fn law_column_letters_roundtrip(col: Seq<char>)
    requires
        ascii_letters(col),
        0 < col.len() <= 6,
    ensures
        col_fits(col),
        col_index(col) + 1 < usize::MAX,
        col_letters((col_index(col) + 1) as nat) == upper_seq(col),
{
    lemma_col_value_of_name(col);
    reveal_with_fuel(col_cap, 7);
    assert(col_cap(6) == 321272406);
    assert(col_value(col) <= 321272406);
    assert forall|i: int| 0 <= i <= col.len() implies #[trigger] col_value(col.subrange(0, i)) <= usize::MAX by {
        lemma_col_value_prefix_le(col, i);
    }
}

/// Whether a column name fits the machine word when converted (`col_fits`).
pub fn col_fits_check(col: &str) -> (r: bool)
    ensures
        r == col_fits(col@),
{
    let v = chars_of(col);
    let mut n: usize = 0;
    let mut i: usize = 0;
    assert(v@.subrange(0, 0) =~= Seq::<char>::empty());
    while i < v.len()
        invariant
            i <= v.len(),
            v@ == col@,
            n == col_value(v@.subrange(0, i as int)),
            forall|j: int| 0 <= j <= i ==> #[trigger] col_value(col@.subrange(0, j)) <= usize::MAX,
        decreases v.len() - i,
    {
        let u = upper_char(v[i]);
        let ghost pre = v@.subrange(0, i as int);
        let ghost next = v@.subrange(0, i + 1);
        assert(next.drop_last() =~= pre);
        assert(next.last() == v@[i as int]);
        if 'A' <= u && u <= 'Z' {
            proof {
                lemma_col_value_nonneg(pre);
            }
            let d = u as usize - 64;
            match n.checked_mul(26) {
                Some(m) => match m.checked_add(d) {
                    Some(k) => {
                        n = k;
                    },
                    None => {
                        assert(col_value(col@.subrange(0, i + 1)) > usize::MAX);
                        return false;
                    },
                },
                None => {
                    assert(col_value(col@.subrange(0, i + 1)) > usize::MAX) by (nonlinear_arith)
                        requires
                            col_value(col@.subrange(0, i + 1)) == n * 26 + d,
                            n * 26 > usize::MAX,
                            d >= 0,
                    ;
                    return false;
                },
            }
        }
        i += 1;
        assert(forall|j: int| 0 <= j <= i ==> #[trigger] col_value(col@.subrange(0, j)) <= usize::MAX) by {
            assert(col@.subrange(0, i as int) == next);
        }
    }
    assert(v@.subrange(0, v.len() as int) =~= v@);
    true
}

} // verus!
