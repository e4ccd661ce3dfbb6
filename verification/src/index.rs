//! The member → awards index and the row bookkeeping that keeps it in step with
//! sheet edits.
use vstd::prelude::*;
use crate::text::{
    chars_of, copy_string, lower_chars, lower_seq, seq_le, str_eq, string_of, strip_leading,
    strip_leading_chars, trim, trim_str, upper,
};
use crate::meta::{
    category_label_for, category_rank, category_rank_of, col_fits, col_index, col_to_index,
    label_of, offset_of, row_offset,
};
use crate::parse::{normalize_username, username_key, cell_at};
use crate::sort::{order_of, sorted_stable, stable_sort, views, SortOrder};
use crate::types::{
    awards_view, bucket_of, cells_view, hits_view, key_pos, keys_distinct, lemma_key_pos, opt_view, put_bucket, row_view,
    rows_view, Award, AwardIndex, AwardView, DuplicateHit, DuplicateHitView,
};

verus! {

/// The award has a full sheet location.
pub open spec fn located(a: AwardView) -> bool {
    a.sheet.len() > 0 && a.col.len() > 0 && a.row != 0
}

pub open spec fn at_location(a: AwardView, sheet: Seq<char>, col: Seq<char>, row: i32) -> bool {
    a.sheet == sheet && a.col == col && a.row == row
}

/// `bucket` already holds `a`: the same cell when `a` is located, otherwise the
/// same category and name.
pub open spec fn already_filed(bucket: Seq<AwardView>, a: AwardView) -> bool {
    if located(a) {
        exists|i: int| 0 <= i < bucket.len() && at_location(#[trigger] bucket[i], a.sheet, a.col, a.row)
    } else {
        exists|i: int| 0 <= i < bucket.len() && (#[trigger] bucket[i]).category == a.category
            && bucket[i].name == a.name
    }
}

/// The index after filing `award` under `username`.
pub open spec fn index_after_add(
    index: Seq<(Seq<char>, Seq<AwardView>)>,
    username: Option<Seq<char>>,
    award: Option<AwardView>,
) -> Seq<(Seq<char>, Seq<AwardView>)> {
    match (username, award) {
        (Some(u), Some(a)) => {
            if a.name.len() == 0 {
                index
            } else if already_filed(bucket_of(index, u), a) {
                index
            } else {
                put_bucket(index, u, bucket_of(index, u).push(a))
            }
        },
        _ => index,
    }
}

fn is_filed(bucket: &Vec<Award>, a: &Award) -> (r: bool)
    ensures
        r == already_filed(awards_view(bucket@), a@),
{
    let loc = !a.sheet.as_str().is_empty() && !a.col.as_str().is_empty() && a.row != 0;
    let ghost bv = awards_view(bucket@);
    let mut i: usize = 0;
    while i < bucket.len()
        invariant
            i <= bucket.len(),
            bv == awards_view(bucket@),
            loc == located(a@),
            located(a@) ==> forall|k: int| 0 <= k < i ==> !at_location(#[trigger] bv[k], a@.sheet, a@.col, a@.row),
            !located(a@) ==> forall|k: int| 0 <= k < i ==> !((#[trigger] bv[k]).category == a@.category && bv[k].name == a@.name),
        decreases bucket.len() - i,
    {
        let b = &bucket[i];
        assert(bv[i as int] == b@);
        if loc {
            if str_eq(b.sheet.as_str(), a.sheet.as_str()) && str_eq(b.col.as_str(), a.col.as_str()) && b.row == a.row {
                return true;
            }
        } else if str_eq(b.category.as_str(), a.category.as_str()) && str_eq(b.name.as_str(), a.name.as_str()) {
            return true;
        }
        i += 1;
    }
    false
}

pub fn add_award(index: &mut AwardIndex, username: Option<&str>, award: Option<&Award>)
    ensures
        final(index)@ == index_after_add(
            old(index)@,
            match username {
                Some(u) => Some(u@),
                None => None,
            },
            match award {
                Some(a) => Some(a@),
                None => None,
            },
        ),
        keys_distinct(old(index)@) ==> keys_distinct(final(index)@),
{
    proof {
        if keys_distinct(index@) {
            crate::laws::law_add_keeps_members_distinct(
                index@,
                match username {
                    Some(u) => Some(u@),
                    None => None,
                },
                match award {
                    Some(a) => Some(a@),
                    None => None,
                },
            );
        }
    }
    let (username, award) = match (username, award) {
        (Some(u), Some(a)) => (u, a),
        _ => return,
    };
    if chars_of(award.name.as_str()).len() == 0 {
        return;
    }
    proof {
        lemma_key_pos(index@, username@);
    }
    match index.position(username) {
        Some(i) => {
            let bucket = index.bucket_at(i);
            if is_filed(bucket, award) {
                return;
            }
            let mut b = clone_awards(bucket);
            let ghost prev = b@;
            b.push(award.clone());
            assert(awards_view(b@) =~= awards_view(prev).push(award@));
            index.set_bucket(i, b);
            assert(index@ =~= put_bucket(old(index)@, username@, bucket_of(old(index)@, username@).push(award@)));
        },
        None => {
            let mut b: Vec<Award> = Vec::new();
            b.push(award.clone());
            assert(awards_view(b@) =~= Seq::<AwardView>::empty().push(award@));
            proof {
                assert(!already_filed(Seq::<AwardView>::empty(), award@));
            }
            index.push_entry(crate::text::owned(username), b);
        },
    }
}

/// A copy of a list of awards.
pub fn clone_awards(v: &Vec<Award>) -> (r: Vec<Award>)
    ensures
        r@ == v@,
{
    let mut r: Vec<Award> = Vec::new();
    let mut i: usize = 0;
    while i < v.len()
        invariant
            i <= v.len(),
            r@ == v@.subrange(0, i as int),
        decreases v.len() - i,
    {
        r.push(v[i].clone());
        i += 1;
        assert(r@ =~= v@.subrange(0, i as int));
    }
    assert(v@.subrange(0, v.len() as int) =~= v@);
    r
}

/// The key a typed username is looked up under.
pub open spec fn lookup_key(username: Seq<char>) -> Seq<char> {
    match username_key(username) {
        Some(k) => k,
        None => lower_seq(strip_leading(trim(username), '@')),
    }
}

/// The index key a typed name is looked up under (`lookup_key`).
pub fn lookup_key_of(username: &str) -> (r: String)
    ensures
        r@ == lookup_key(username@),
{
    match normalize_username(Some(username)) {
        Some(k) => k,
        None => {
            let t = trim_str(username);
            let s = strip_leading_chars(&t, '@');
            string_of(&lower_chars(&s))
        },
    }
}

pub fn get_awards_for_username(index: &AwardIndex, username: &str) -> (r: Vec<Award>)
    ensures
        awards_view(r@) == bucket_of(index@, lookup_key(username@)),
{
    let key = match normalize_username(Some(username)) {
        Some(k) => k,
        None => {
            let t = trim_str(username);
            let s = strip_leading_chars(&t, '@');
            let l = lower_chars(&s);
            string_of(&l)
        },
    };
    match index.get(key.as_str()) {
        Some(b) => clone_awards(b),
        None => {
            let r: Vec<Award> = Vec::new();
            assert(awards_view(r@) =~= Seq::<AwardView>::empty());
            r
        },
    }
}

/// The awards of `b` not at the given cell.
pub open spec fn not_at(b: Seq<AwardView>, sheet: Seq<char>, col: Seq<char>, row: i32) -> Seq<AwardView>
    decreases b.len(),
{
    if b.len() == 0 {
        b
    } else if at_location(b.last(), sheet, col, row) {
        not_at(b.drop_last(), sheet, col, row)
    } else {
        not_at(b.drop_last(), sheet, col, row).push(b.last())
    }
}

/// The index without any award at the given cell; buckets left empty are removed.
pub open spec fn index_without(
    index: Seq<(Seq<char>, Seq<AwardView>)>,
    sheet: Seq<char>,
    col: Seq<char>,
    row: i32,
) -> Seq<(Seq<char>, Seq<AwardView>)>
    decreases index.len(),
{
    if index.len() == 0 {
        index
    } else {
        let prev = index_without(index.drop_last(), sheet, col, row);
        let kept = not_at(index.last().1, sheet, col, row);
        if kept.len() > 0 {
            prev.push((index.last().0, kept))
        } else {
            prev
        }
    }
}

fn awards_not_at(b: &Vec<Award>, sheet: &str, col: &str, row: i32) -> (r: Vec<Award>)
    ensures
        awards_view(r@) == not_at(awards_view(b@), sheet@, col@, row),
{
    let mut r: Vec<Award> = Vec::new();
    let mut i: usize = 0;
    let ghost bv = awards_view(b@);
    assert(awards_view(r@) =~= Seq::<AwardView>::empty());
    while i < b.len()
        invariant
            i <= b.len(),
            bv == awards_view(b@),
            awards_view(r@) == not_at(bv.subrange(0, i as int), sheet@, col@, row),
        decreases b.len() - i,
    {
        let a = &b[i];
        assert(bv.subrange(0, i + 1).drop_last() =~= bv.subrange(0, i as int));
        assert(bv.subrange(0, i + 1).last() == a@);
        if !(str_eq(a.sheet.as_str(), sheet) && str_eq(a.col.as_str(), col) && a.row == row) {
            let ghost prev = r@;
            r.push(a.clone());
            assert(awards_view(r@) =~= awards_view(prev).push(a@));
        }
        i += 1;
    }
    assert(bv.subrange(0, b.len() as int) =~= bv);
    r
}

/// Remove the award at `sheet`/`col`/`row` from every bucket; drop emptied buckets.
pub fn drop_award_location(index: &mut AwardIndex, sheet: &str, col: &str, row: i32)
    ensures
        final(index)@ == index_without(old(index)@, sheet@, col@, row),
        keys_distinct(old(index)@) ==> keys_distinct(final(index)@),
{
    proof {
        if keys_distinct(index@) {
            crate::laws::law_drop_location_clears(index@, sheet@, col@, row);
        }
    }
    let mut out = AwardIndex::new();
    let mut i: usize = 0;
    let ghost iv = index@;
    while i < index.len()
        invariant
            i <= index@.len(),
            iv == index@,
            out@ == index_without(iv.subrange(0, i as int), sheet@, col@, row),
        decreases index@.len() - i,
    {
        let kept = awards_not_at(index.bucket_at(i), sheet, col, row);
        assert(iv.subrange(0, i + 1).drop_last() =~= iv.subrange(0, i as int));
        assert(iv.subrange(0, i + 1).last() == iv[i as int]);
        assert(awards_view(kept@).len() == kept@.len());
        if kept.len() > 0 {
            out.push_entry(copy_string(index.key_at(i)), kept);
        }
        i += 1;
    }
    assert(iv.subrange(0, iv.len() as int) =~= iv);
    *index = out;
}

/// The award with its row moved up one when it sits below a deleted row of the
/// same column.
pub open spec fn shifted(a: AwardView, sheet: Seq<char>, col: Seq<char>, deleted_row: i32) -> AwardView {
    if a.sheet == sheet && a.col == col && a.row > deleted_row {
        AwardView { row: (a.row - 1) as i32, ..a }
    } else {
        a
    }
}

pub open spec fn index_shifted(
    index: Seq<(Seq<char>, Seq<AwardView>)>,
    sheet: Seq<char>,
    col: Seq<char>,
    deleted_row: i32,
) -> Seq<(Seq<char>, Seq<AwardView>)> {
    index.map_values(
        |e: (Seq<char>, Seq<AwardView>)|
            (e.0, e.1.map_values(|a: AwardView| shifted(a, sheet, col, deleted_row))),
    )
}

fn shift_bucket(b: &Vec<Award>, sheet: &str, col: &str, deleted_row: i32) -> (r: Vec<Award>)
    ensures
        awards_view(r@) == awards_view(b@).map_values(|a: AwardView| shifted(a, sheet@, col@, deleted_row)),
{
    let mut r: Vec<Award> = Vec::new();
    let mut i: usize = 0;
    while i < b.len()
        invariant
            i <= b.len(),
            awards_view(r@) == awards_view(b@).subrange(0, i as int).map_values(
                |a: AwardView| shifted(a, sheet@, col@, deleted_row),
            ),
        decreases b.len() - i,
    {
        let mut a = b[i].clone();
        let ghost orig = b@[i as int]@;
        assert(awards_view(b@)[i as int] == orig);
        if str_eq(a.sheet.as_str(), sheet) && str_eq(a.col.as_str(), col) && a.row > deleted_row {
            a.row = a.row - 1;
        }
        assert(a@ == shifted(orig, sheet@, col@, deleted_row));
        let ghost prev = r@;
        r.push(a);
        assert(awards_view(r@) =~= awards_view(prev).push(a@));
        assert(awards_view(b@).subrange(0, i + 1) =~= awards_view(b@).subrange(0, i as int).push(orig));
        assert(awards_view(r@) =~= awards_view(b@).subrange(0, i + 1).map_values(
            |a: AwardView| shifted(a, sheet@, col@, deleted_row),
        ));
        i += 1;
    }
    assert(awards_view(b@).subrange(0, b.len() as int) =~= awards_view(b@));
    r
}

/// After deleting a row from a column: drop the award there and move later rows of
/// that column up by one.
pub fn reindex_column_after_delete(index: &mut AwardIndex, sheet: &str, col: &str, deleted_row: i32)
    ensures
        final(index)@ == index_shifted(index_without(old(index)@, sheet@, col@, deleted_row), sheet@, col@, deleted_row),
        keys_distinct(old(index)@) ==> keys_distinct(final(index)@),
{
    let ghost was = keys_distinct(index@);
    drop_award_location(index, sheet, col, deleted_row);
    let ghost mid = index@;
    let mut i: usize = 0;
    while i < index.len()
        invariant
            i <= index@.len(),
            index@.len() == mid.len(),
            forall|k: int| 0 <= k < i ==> index@[k] == index_shifted(mid, sheet@, col@, deleted_row)[k],
            forall|k: int| i <= k < index@.len() ==> index@[k] == mid[k],
            was ==> keys_distinct(index@),
        decreases index@.len() - i,
    {
        let b = shift_bucket(index.bucket_at(i), sheet, col, deleted_row);
        index.set_bucket(i, b);
        i += 1;
    }
    assert(index@ =~= index_shifted(mid, sheet@, col@, deleted_row));
}

/// File `award` under the username its cell names, after removing whatever was
/// filed for that cell before. Returns the username key, or `None` (and no change)
/// when the cell names no username.
pub fn upsert_award_in_index(index: &mut AwardIndex, award: &Award) -> (r: Option<String>)
    ensures
        opt_view(r) == username_key(award@.cell),
        match username_key(award@.cell) {
            Some(k) => final(index)@ == index_after_add(
                index_without(old(index)@, award@.sheet, award@.col, award@.row),
                Some(k),
                Some(award@),
            ),
            None => final(index)@ == old(index)@,
        },
        keys_distinct(old(index)@) ==> keys_distinct(final(index)@),
{
    let key = match normalize_username(Some(award.cell.as_str())) {
        Some(k) => k,
        None => return None,
    };
    drop_award_location(index, award.sheet.as_str(), award.col.as_str(), award.row);
    add_award(index, Some(key.as_str()), Some(award));
    Some(key)
}

/// `awards` without those at a flagged cell.
pub open spec fn excluding_hits(awards: Seq<AwardView>, hits: Seq<DuplicateHitView>) -> Seq<AwardView>
    decreases awards.len(),
{
    if awards.len() == 0 {
        awards
    } else {
        let prev = excluding_hits(awards.drop_last(), hits);
        let a = awards.last();
        if exists|j: int| 0 <= j < hits.len() && (#[trigger] hits[j]).sheet == a.sheet && hits[j].col == a.col && hits[j].row == a.row {
            prev
        } else {
            prev.push(a)
        }
    }
}

pub fn awards_excluding_duplicate_rows(awards: &[Award], dup_hits: &[DuplicateHit]) -> (r: Vec<Award>)
    ensures
        awards_view(r@) == excluding_hits(awards_view(awards@), hits_view(dup_hits@)),
{
    let mut out: Vec<Award> = Vec::new();
    let ghost av = awards_view(awards@);
    let ghost hv = hits_view(dup_hits@);
    let mut i: usize = 0;
    assert(awards_view(out@) =~= Seq::<AwardView>::empty());
    while i < awards.len()
        invariant
            i <= awards.len(),
            av == awards_view(awards@),
            hv == hits_view(dup_hits@),
            awards_view(out@) == excluding_hits(av.subrange(0, i as int), hv),
        decreases awards.len() - i,
    {
        let a = &awards[i];
        assert(av.subrange(0, i + 1).drop_last() =~= av.subrange(0, i as int));
        assert(av.subrange(0, i + 1).last() == a@);
        let mut flagged = false;
        let mut j: usize = 0;
        while j < dup_hits.len()
            invariant
                j <= dup_hits.len(),
                hv == hits_view(dup_hits@),
                flagged == exists|k: int| 0 <= k < j && (#[trigger] hv[k]).sheet == a@.sheet && hv[k].col == a@.col && hv[k].row == a@.row,
            decreases dup_hits.len() - j,
        {
            let h = &dup_hits[j];
            assert(hv[j as int] == h@);
            if str_eq(h.sheet.as_str(), a.sheet.as_str()) && str_eq(h.col.as_str(), a.col.as_str()) && h.row == a.row {
                flagged = true;
            }
            j += 1;
        }
        if !flagged {
            let ghost prev = out@;
            out.push(a.clone());
            assert(awards_view(out@) =~= awards_view(prev).push(a@));
        }
        i += 1;
    }
    assert(av.subrange(0, awards.len() as int) =~= av);
    out
}

/// The `(sheet, col)` columns where `username` itself (not a look-alike) holds an
/// award.
pub open spec fn owned_columns(awards: Seq<AwardView>, username: Seq<char>) -> Set<(Seq<char>, Seq<char>)> {
    match username_key(username) {
        None => Set::empty(),
        Some(k) => Set::new(
            |p: (Seq<char>, Seq<char>)|
                exists|i: int|
                    0 <= i < awards.len() && (#[trigger] awards[i]).sheet.len() > 0 && awards[i].col.len() > 0
                        && username_key(awards[i].cell) == Some(k) && p == (awards[i].sheet, awards[i].col),
        ),
    }
}

pub open spec fn pairs_view(v: Seq<(String, String)>) -> Seq<(Seq<char>, Seq<char>)> {
    v.map_values(|p: (String, String)| (p.0@, p.1@))
}

/// `out` already lists the pair (`sheet`, `col`).
fn has_pair(out: &Vec<(String, String)>, sheet: &String, col: &String) -> (r: bool)
    ensures
        r == pairs_view(out@).contains((sheet@, col@)),
{
    let mut j: usize = 0;
    while j < out.len()
        invariant
            j <= out.len(),
            forall|k: int| 0 <= k < j ==> pairs_view(out@)[k] != (sheet@, col@),
        decreases out.len() - j,
    {
        if str_eq(out[j].0.as_str(), sheet.as_str()) && str_eq(out[j].1.as_str(), col.as_str()) {
            assert(pairs_view(out@)[j as int] == (sheet@, col@));
            return true;
        }
        j += 1;
    }
    false
}

/// Award columns owned by `username`, each once, in first-seen order.
pub fn owned_award_columns(awards: &[Award], username: &str) -> (r: Vec<(String, String)>)
    ensures
        pairs_view(r@).to_set() == owned_columns(awards_view(awards@), username@),
        pairs_view(r@).no_duplicates(),
{
    let mut out: Vec<(String, String)> = Vec::new();
    let key = match normalize_username(Some(username)) {
        Some(k) => k,
        None => {
            assert(pairs_view(out@).to_set() =~= Set::<(Seq<char>, Seq<char>)>::empty());
            return out;
        },
    };
    let ghost av = awards_view(awards@);
    let ghost kk = key@;
    let mut i: usize = 0;
    assert(pairs_view(out@) =~= Seq::<(Seq<char>, Seq<char>)>::empty());
    while i < awards.len()
        invariant
            i <= awards.len(),
            av == awards_view(awards@),
            username_key(username@) == Some(kk),
            key@ == kk,
            pairs_view(out@).no_duplicates(),
            forall|p: (Seq<char>, Seq<char>)| pairs_view(out@).contains(p) <==> exists|m: int|
                0 <= m < i && (#[trigger] av[m]).sheet.len() > 0 && av[m].col.len() > 0
                    && username_key(av[m].cell) == Some(kk) && p == (av[m].sheet, av[m].col),
        decreases awards.len() - i,
    {
        let a = &awards[i];
        assert(av[i as int] == a@);
        let owns = chars_of(a.sheet.as_str()).len() > 0 && chars_of(a.col.as_str()).len() > 0 && match normalize_username(Some(a.cell.as_str())) {
            Some(u) => str_eq(u.as_str(), key.as_str()),
            None => false,
        };
        assert(owns == (a@.sheet.len() > 0 && a@.col.len() > 0 && username_key(a@.cell) == Some(kk)));
        let present = if owns { has_pair(&out, &a.sheet, &a.col) } else { false };
        let ghost prev = pairs_view(out@);
        let ghost here = (a@.sheet, a@.col);
        if owns && !present {
            out.push((copy_string(&a.sheet), copy_string(&a.col)));
            assert(pairs_view(out@) =~= prev.push(here));
        }
        assert forall|p: (Seq<char>, Seq<char>)| pairs_view(out@).contains(p) <==> exists|m: int|
            0 <= m < i + 1 && (#[trigger] av[m]).sheet.len() > 0 && av[m].col.len() > 0
                && username_key(av[m].cell) == Some(kk) && p == (av[m].sheet, av[m].col) by {
            let old_side = exists|m: int| 0 <= m < i && (#[trigger] av[m]).sheet.len() > 0 && av[m].col.len() > 0
                && username_key(av[m].cell) == Some(kk) && p == (av[m].sheet, av[m].col);
            assert(prev.contains(p) == old_side);
            if owns && p == here {
                assert(av[i as int].sheet.len() > 0);
                if present {
                    assert(pairs_view(out@).contains(p));
                } else {
                    assert(pairs_view(out@)[prev.len() as int] == here);
                    assert(pairs_view(out@).contains(p));
                }
            } else {
                if pairs_view(out@).contains(p) {
                    if owns && !present {
                        let k = choose|k: int| 0 <= k < pairs_view(out@).len() && pairs_view(out@)[k] == p;
                        assert(k < prev.len());
                        assert(prev[k] == p);
                    }
                    assert(prev.contains(p));
                }
                if prev.contains(p) {
                    let k = choose|k: int| 0 <= k < prev.len() && prev[k] == p;
                    assert(pairs_view(out@)[k] == p);
                }
            }
        }
        i += 1;
    }
    assert(pairs_view(out@).to_set() =~= owned_columns(av, username@));
    out
}

/// Display label of a category; unknown keys get their first ASCII letter
/// capitalised.
pub open spec fn group_label(category: Seq<char>) -> Seq<char> {
    match label_of(category) {
        Some(l) => l,
        None => if category.len() > 0 && (category[0] as u32) < 0x80 {
            category.update(0, upper(category[0]))
        } else {
            category
        },
    }
}

/// Case-insensitive name order.
pub struct ByLowerName;

impl SortOrder<String> for ByLowerName {
    open spec fn le(a: Seq<char>, b: Seq<char>) -> bool {
        seq_le(lower_seq(a), lower_seq(b))
    }

    fn le_exec(a: &String, b: &String) -> (r: bool) {
        let av = chars_of(a.as_str());
        let bv = chars_of(b.as_str());
        let al = lower_chars(&av);
        let bl = lower_chars(&bv);
        seq_le_exec(&al, &bl)
    }
}

proof fn lemma_seq_le_step(a: Seq<char>, b: Seq<char>, i: int)
    requires
        0 <= i <= a.len(),
        i <= b.len(),
        forall|k: int| 0 <= k < i ==> a[k] == b[k],
    ensures
        seq_le(a, b) == seq_le(a.subrange(i, a.len() as int), b.subrange(i, b.len() as int)),
    decreases i,
{
    if i > 0 {
        assert(a.drop_first().subrange(i - 1, a.len() - 1) =~= a.subrange(i, a.len() as int));
        assert(b.drop_first().subrange(i - 1, b.len() - 1) =~= b.subrange(i, b.len() as int));
        lemma_seq_le_step(a.drop_first(), b.drop_first(), i - 1);
    } else {
        assert(a.subrange(0, a.len() as int) =~= a);
        assert(b.subrange(0, b.len() as int) =~= b);
    }
}

/// Lexicographic `<=` on characters.
pub fn seq_le_exec(a: &Vec<char>, b: &Vec<char>) -> (r: bool)
    ensures
        r == seq_le(a@, b@),
{
    let mut i: usize = 0;
    while i < a.len() && i < b.len() && a[i] == b[i]
        invariant
            i <= a.len(),
            i <= b.len(),
            forall|k: int| 0 <= k < i ==> a@[k] == b@[k],
        decreases a.len() - i,
    {
        i += 1;
    }
    proof {
        lemma_seq_le_step(a@, b@, i as int);
    }
    if i == a.len() {
        true
    } else if i == b.len() {
        false
    } else {
        a[i] < b[i]
    }
}

/// Award names grouped by category label, each group sorted case-insensitively.
/// The three known labels always have a group.
#[derive(Debug)]
pub struct AwardGroups {
    entries: Vec<(String, Vec<String>)>,
}

pub open spec fn names_view(v: Seq<String>) -> Seq<Seq<char>> {
    v.map_values(|s: String| s@)
}

impl View for AwardGroups {
    type V = Seq<(Seq<char>, Seq<Seq<char>>)>;

    closed spec fn view(&self) -> Seq<(Seq<char>, Seq<Seq<char>>)> {
        self.entries@.map_values(|e: (String, Vec<String>)| (e.0@, names_view(e.1@)))
    }
}

impl AwardGroups {
    pub fn get(&self, label: &str) -> (r: Option<&Vec<String>>)
        ensures
            match r {
                Some(v) => key_pos(self@, label@) matches Some(i) && names_view(v@) == self@[i].1,
                None => key_pos(self@, label@) is None,
            },
    {
        let mut i: usize = 0;
        while i < self.entries.len()
            invariant
                i <= self.entries.len(),
                forall|j: int| 0 <= j < i ==> self@[j].0 != label@,
            decreases self.entries.len() - i,
        {
            if str_eq(self.entries[i].0.as_str(), label) {
                proof {
                    crate::types::lemma_key_pos_unique(self@, label@, i as int);
                }
                return Some(&self.entries[i].1);
            }
            i += 1;
        }
        proof {
            lemma_key_pos(self@, label@);
        }
        None
    }

    pub fn len(&self) -> (r: usize)
        ensures
            r == self@.len(),
    {
        self.entries.len()
    }

    fn position(&self, label: &str) -> (r: Option<usize>)
        ensures
            match r {
                Some(i) => key_pos(self@, label@) == Some(i as int),
                None => key_pos(self@, label@) is None,
            },
    {
        let mut i: usize = 0;
        while i < self.entries.len()
            invariant
                i <= self.entries.len(),
                forall|j: int| 0 <= j < i ==> self@[j].0 != label@,
            decreases self.entries.len() - i,
        {
            if str_eq(self.entries[i].0.as_str(), label) {
                proof {
                    crate::types::lemma_key_pos_unique(self@, label@, i as int);
                }
                return Some(i);
            }
            i += 1;
        }
        proof {
            lemma_key_pos(self@, label@);
        }
        None
    }
}

/// Names grouped by label, unsorted: the three known labels first, then new labels
/// in first-seen order.
pub open spec fn grouped_names(awards: Seq<AwardView>) -> Seq<(Seq<char>, Seq<Seq<char>>)>
    decreases awards.len(),
{
    if awards.len() == 0 {
        seq![("Badges"@, seq![]), ("Ribbons"@, seq![]), ("Foreign Awards"@, seq![])]
    } else {
        let prev = grouped_names(awards.drop_last());
        let a = awards.last();
        let label = group_label(a.category);
        match key_pos(prev, label) {
            Some(i) => prev.update(i, (label, prev[i].1.push(a.name))),
            None => prev.push((label, seq![a.name])),
        }
    }
}

/// `group_awards`' result: each group's names sorted case-insensitively.
pub open spec fn grouped_sorted(awards: Seq<AwardView>) -> Seq<(Seq<char>, Seq<Seq<char>>)> {
    grouped_names(awards).map_values(
        |e: (Seq<char>, Seq<Seq<char>>)| (e.0, sorted_stable(e.1, order_of::<String, ByLowerName>())),
    )
}

fn group_label_of(category: &str) -> (r: String)
    ensures
        r@ == group_label(category@),
{
    match category_label_for(category) {
        Some(l) => crate::text::owned(l),
        None => {
            let mut v = chars_of(category);
            if v.len() > 0 && (v[0] as u32) < 0x80 {
                let u = crate::text::upper_char(v[0]);
                v.set(0, u);
            }
            string_of(&v)
        },
    }
}

pub fn group_awards(awards: &[Award]) -> (r: AwardGroups)
    ensures
        r@ == grouped_sorted(awards_view(awards@)),
{
    let mut entries: Vec<(String, Vec<String>)> = Vec::new();
    entries.push((crate::text::owned("Badges"), Vec::new()));
    entries.push((crate::text::owned("Ribbons"), Vec::new()));
    entries.push((crate::text::owned("Foreign Awards"), Vec::new()));
    let ghost av = awards_view(awards@);
    let mut g = AwardGroups { entries };
    assert(names_view(Seq::<String>::empty()) =~= Seq::<Seq<char>>::empty());
    assert(g@ =~~= grouped_names(av.subrange(0, 0)));
    let mut i: usize = 0;
    while i < awards.len()
        invariant
            i <= awards.len(),
            av == awards_view(awards@),
            g@ == grouped_names(av.subrange(0, i as int)),
        decreases awards.len() - i,
    {
        let a = &awards[i];
        assert(av.subrange(0, i + 1).drop_last() =~= av.subrange(0, i as int));
        assert(av.subrange(0, i + 1).last() == a@);
        let label = group_label_of(a.category.as_str());
        let ghost prev = g@;
        proof {
            lemma_key_pos(prev, label@);
        }
        let found = g.position(label.as_str());
        match found {
            Some(f) => {
                let (k, mut names) = g.entries.remove(f);
                names.push(copy_string(&a.name));
                let ghost nv = names_view(names@);
                g.entries.insert(f, (k, names));
                assert(names_view(names@) =~= prev[f as int].1.push(a@.name));
                assert(g@ =~~= prev.update(f as int, (label@, prev[f as int].1.push(a@.name))));
            },
            None => {
                let mut names: Vec<String> = Vec::new();
                names.push(copy_string(&a.name));
                assert(names_view(names@) =~= seq![a@.name]);
                g.entries.push((label, names));
                assert(g@ =~~= prev.push((label@, seq![a@.name])));
            },
        }
        i += 1;
    }
    assert(av.subrange(0, awards.len() as int) =~= av);
    let ghost unsorted = g@;
    let mut k: usize = 0;
    while k < g.entries.len()
        invariant
            k <= g.entries.len(),
            g@.len() == unsorted.len(),
            unsorted == grouped_names(av),
            forall|m: int| 0 <= m < k ==> g@[m] == grouped_sorted(av)[m],
            forall|m: int| k <= m < g@.len() ==> g@[m] == unsorted[m],
        decreases g.entries.len() - k,
    {
        let (label, names) = g.entries.remove(k);
        let ghost before = names_view(names@);
        let sorted = stable_sort::<String, ByLowerName>(names);
        assert(names_view(sorted@) == views(sorted@));
        assert(views(names@) == before);
        g.entries.insert(k, (label, sorted));
        k += 1;
    }
    assert(g@ =~= grouped_sorted(av));
    g
}

/// Category display order, then case-insensitive name.
pub struct ByCategoryThenName;

impl SortOrder<Award> for ByCategoryThenName {
    open spec fn le(a: AwardView, b: AwardView) -> bool {
        let ra = category_rank(a.category);
        let rb = category_rank(b.category);
        ra < rb || (ra == rb && seq_le(lower_seq(a.name), lower_seq(b.name)))
    }

    fn le_exec(a: &Award, b: &Award) -> (r: bool) {
        let ra = category_rank_of(a.category.as_str());
        let rb = category_rank_of(b.category.as_str());
        if ra != rb {
            return ra < rb;
        }
        let av = chars_of(a.name.as_str());
        let bv = chars_of(b.name.as_str());
        let al = lower_chars(&av);
        let bl = lower_chars(&bv);
        seq_le_exec(&al, &bl)
    }
}

/// Awards in category display order, then by name case-insensitively (stable).
pub fn flatten_awards_sorted(awards: &[Award]) -> (r: Vec<Award>)
    ensures
        awards_view(r@) == sorted_stable(awards_view(awards@), order_of::<Award, ByCategoryThenName>()),
{
    let mut v: Vec<Award> = Vec::new();
    let mut i: usize = 0;
    while i < awards.len()
        invariant
            i <= awards.len(),
            v@ == awards@.subrange(0, i as int),
        decreases awards.len() - i,
    {
        v.push(awards[i].clone());
        i += 1;
        assert(v@ =~= awards@.subrange(0, i as int));
    }
    assert(v@ =~= awards@);
    let r = stable_sort::<Award, ByCategoryThenName>(v);
    assert(views(r@) == awards_view(r@));
    assert(views(awards@) == awards_view(awards@));
    r
}

/// Rows after deleting the cell at live row `sheet_row` of a column and moving the
/// cells below it up; the last row's cell becomes empty. Rows are padded with
/// empty cells to reach the column.
pub open spec fn pad_set(row: Seq<Seq<char>>, c: int, v: Seq<char>) -> Seq<Seq<char>> {
    if c < row.len() {
        row.update(c, v)
    } else {
        (row + Seq::new((c - row.len()) as nat, |k: int| Seq::<char>::empty())).push(v)
    }
}

pub open spec fn rows_shifted_up(rows: Seq<Seq<Seq<char>>>, csv_i: int, c: int) -> Seq<Seq<Seq<char>>> {
    Seq::new(
        rows.len(),
        |r: int|
            if r < csv_i {
                rows[r]
            } else if r < rows.len() - 1 {
                pad_set(rows[r], c, cell_at(rows, r + 1, c))
            } else {
                pad_set(rows[r], c, Seq::empty())
            },
    )
}

/// The rows after deleting the cell at live row `sheet_row` of `col`.
pub open spec fn after_shift_up(rows: Seq<Seq<Seq<char>>>, sheet: Seq<char>, col: Seq<char>, sheet_row: i32) -> Seq<Seq<Seq<char>>> {
    let csv_i = sheet_row - 1 - offset_of(sheet);
    if csv_i < 0 || rows.len() == 0 || csv_i >= rows.len() {
        rows
    } else {
        rows_shifted_up(rows, csv_i, col_index(col))
    }
}

pub(crate) fn padded_set(row: &Vec<String>, c: usize, v: String) -> (r: Vec<String>)
    requires
        c < usize::MAX,
    ensures
        row_view(r) == pad_set(row_view(*row), c as int, v@),
{
    let ghost orig = cells_view(row@);
    let mut out: Vec<String> = Vec::new();
    let mut i: usize = 0;
    assert(cells_view(out@) =~= orig.subrange(0, 0));
    while i < row.len()
        invariant
            i <= row.len(),
            orig == cells_view(row@),
            cells_view(out@) == orig.subrange(0, i as int),
        decreases row.len() - i,
    {
        let ghost prev = out@;
        out.push(copy_string(&row[i]));
        assert(cells_view(out@) =~= cells_view(prev).push(row@[i as int]@));
        i += 1;
        assert(cells_view(out@) =~= orig.subrange(0, i as int));
    }
    assert(orig.subrange(0, row.len() as int) =~= orig);
    while out.len() <= c
        invariant
            out@.len() >= orig.len(),
            out@.len() == orig.len() || out@.len() <= c + 1,
            orig.len() == row.len(),
            c < usize::MAX,
            cells_view(out@) == orig + Seq::new((out@.len() - orig.len()) as nat, |k: int| Seq::<char>::empty()),
        decreases c + 1 - out.len(),
    {
        let ghost prev = out@;
        out.push(String::new());
        assert(cells_view(out@) =~= cells_view(prev).push(Seq::<char>::empty()));
        assert(cells_view(out@) =~= orig + Seq::new((out@.len() - orig.len()) as nat, |k: int| Seq::<char>::empty()));
    }
    let ghost before = out@;
    if c < row.len() {
        assert(out@.len() == orig.len());
        assert(cells_view(out@) =~= orig);
        out.set(c, v);
        assert(cells_view(out@) =~= cells_view(before).update(c as int, v@));
        assert(cells_view(out@) =~= orig.update(c as int, v@));
    } else {
        assert(out@.len() == c + 1);
        let ghost padded = orig + Seq::new((c - orig.len()) as nat, |k: int| Seq::<char>::empty());
        out.set(c, v);
        assert(cells_view(out@) =~= cells_view(before).update(c as int, v@));
        assert(cells_view(out@) =~= padded.push(v@));
    }
    out
}

/// Delete the cell at live row `sheet_row` of `col` from the cached rows, moving
/// the cells below it up one row.
pub fn shift_column_up_in_rows(rows: &mut Vec<Vec<String>>, sheet: &str, col: &str, sheet_row: i32)
    requires
        col_fits(col@),
        col_index(col@) < usize::MAX,
        sheet_row as int - 1 - offset_of(sheet@) >= i32::MIN,
    ensures
        rows_view(final(rows)@) == after_shift_up(rows_view(old(rows)@), sheet@, col@, sheet_row),
{
    let off = row_offset(sheet);
    let csv_i = sheet_row - 1 - off;
    let col_idx = col_to_index(col);
    if csv_i < 0 || rows.len() == 0 || csv_i as usize >= rows.len() {
        return;
    }
    let start = csv_i as usize;
    let ghost orig = rows_view(rows@);
    let mut r = start;
    while r + 1 < rows.len()
        invariant
            start <= r < rows.len(),
            rows@.len() == orig.len(),
            col_idx < usize::MAX,
            forall|k: int| 0 <= k < r ==> rows_view(rows@)[k] == rows_shifted_up(orig, start as int, col_idx as int)[k],
            forall|k: int| r <= k < rows@.len() ==> rows_view(rows@)[k] == orig[k],
        decreases rows.len() - r,
    {
        let below = crate::text::owned(crate::parse::cell_text(&rows[r + 1], col_idx));
        assert(below@ == cell_at(orig, r + 1, col_idx as int));
        let updated = padded_set(&rows[r], col_idx, below);
        rows.set(r, updated);
        r += 1;
    }
    let last = rows.len() - 1;
    let updated = padded_set(&rows[last], col_idx, String::new());
    rows.set(last, updated);
    assert(rows_view(rows@) =~= rows_shifted_up(orig, start as int, col_idx as int));
}

} // verus!
