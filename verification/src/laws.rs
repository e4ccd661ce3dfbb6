//! Properties that hold across the library's operations: what a lookup finds
//! after a write, what a delete leaves in the sheet, and how a written cell
//! reads back.
use vstd::prelude::*;
use crate::index::{
    after_shift_up, already_filed, at_location, index_after_add, index_without, located, lookup_key, not_at,
    pad_set,
};
use crate::meta::{col_index, meta_of, offset_of, SheetMetaView};
use crate::audit::column_base;
use crate::sheets::{build_columns, build_rows, cell_award};
use crate::parse::{cell_at, cell_value, clean, is_invisible, leading_name, username_key, visible};
use crate::text::{all_word, is_word, is_ws, lower_seq, strip_leading, trim, trim_end, trim_start};
use crate::trusted::{drop_at_sign, word_run_len};
use crate::types::{bucket_of, key_pos, keys_distinct, lemma_key_pos, lemma_key_pos_unique, put_bucket, rows_of, AwardView};
use crate::browser::{Key, Modal, Task};
use crate::console::{
    activated, audit_write_done, esc_done, fix_dialog, key_done, next_gen, rows_fixed, user_view_done, App,
};
use crate::edit::EditResult;
use crate::eligibility::{assist_query, award_display, award_id, without_ws, AssistAward};
use crate::tui::{audit_row_step, item_positions, list_rows, Action, GroupView, RowView};

verus! {

// ---------------------------------------------------------------------------
// A written cell reads back as its member
// ---------------------------------------------------------------------------

proof fn lemma_visible_concat(a: Seq<char>, b: Seq<char>)
    ensures
        visible(a + b) == visible(a) + visible(b),
    decreases b.len(),
{
    if b.len() == 0 {
        assert(a + b =~= a);
        assert(visible(a) + visible(b) =~= visible(a));
    } else {
        lemma_visible_concat(a, b.drop_last());
        assert((a + b).drop_last() =~= a + b.drop_last());
        assert((a + b).last() == b.last());
        assert(visible(a) + visible(b.drop_last()).push(b.last()) =~= (visible(a) + visible(b.drop_last())).push(
            b.last(),
        ));
    }
}

proof fn lemma_visible_word(s: Seq<char>)
    requires
        all_word(s),
    ensures
        visible(s) == s,
    decreases s.len(),
{
    if s.len() > 0 {
        lemma_visible_word(s.drop_last());
        assert(is_word(s[s.len() - 1]));
        assert(s.drop_last().push(s.last()) =~= s);
    }
}

proof fn lemma_trim_end_concat(a: Seq<char>, b: Seq<char>)
    requires
        a.len() > 0,
        !is_ws(a.last()),
    ensures
        trim_end(a + b) == a + trim_end(b),
    decreases b.len(),
{
    if b.len() == 0 {
        assert(a + b =~= a);
        assert(a + trim_end(b) =~= a);
    } else {
        assert((a + b).last() == b.last());
        if is_ws(b.last()) {
            assert((a + b).drop_last() =~= a + b.drop_last());
            lemma_trim_end_concat(a, b.drop_last());
        }
    }
}

proof fn lemma_word_run_concat(a: Seq<char>, b: Seq<char>)
    requires
        all_word(a),
        b.len() == 0 || !is_word(b[0]),
    ensures
        word_run_len(a + b) == a.len(),
    decreases a.len(),
{
    if a.len() == 0 {
        assert(a + b =~= b);
    } else {
        assert((a + b)[0] == a[0]);
        assert((a + b).drop_first() =~= a.drop_first() + b);
        lemma_word_run_concat(a.drop_first(), b);
    }
}

/// `name` as a clerk types it: word characters, optionally after one `@`.
pub open spec fn typed_username(typed: Seq<char>, name: Seq<char>) -> bool {
    &&& name.len() > 0
    &&& all_word(name)
    &&& (typed == name || typed == seq!['@'] + name)
}

/// A cell written for a member reads back as that member, whatever suffix was
/// written with it: its username key is the lower-cased name, the key a
/// lookup of the typed name searches under.
pub proof fn law_written_cell_reads_back(typed: Seq<char>, name: Seq<char>, suffix: Seq<char>)
    requires
        typed_username(typed, name),
    ensures
        username_key(cell_value(typed, suffix)) == Some(lower_seq(name)),
        lookup_key(typed) == lower_seq(name),
{
    assert(!is_ws(name[0]) && !is_ws(name.last()) && name[0] != '@') by {
        assert(is_word(name[0]));
        assert(is_word(name[name.len() - 1]));
    }
    // The cell begins with the bare name.
    assert(trim_start(typed) == typed) by {
        if typed != name {
            assert(typed[0] == '@');
        }
    }
    assert(trim(typed) == typed) by {
        if typed == name {
            assert(name + Seq::<char>::empty() =~= name);
            lemma_trim_end_concat(name, Seq::<char>::empty());
        } else {
            lemma_trim_end_concat(typed, Seq::<char>::empty());
            assert(typed + Seq::<char>::empty() =~= typed);
        }
    }
    assert(strip_leading(typed, '@') == name) by {
        if typed != name {
            assert(typed.drop_first() =~= name);
            assert(strip_leading(typed, '@') == strip_leading(name, '@'));
        }
    }
    let suf = trim(suffix);
    let cell = cell_value(typed, suffix);
    let rest: Seq<char> = if suf.len() == 0 {
        Seq::empty()
    } else if crate::parse::count_suffix(suf) || suf[0] == '-' {
        seq![' '] + suf
    } else {
        " - "@ + suf
    };
    assert(cell =~= name + rest) by {
        if suf.len() > 0 && !(crate::parse::count_suffix(suf) || suf[0] == '-') {
            reveal_strlit(" - ");
            assert(" - "@ =~= seq![' ', '-', ' ']);
        }
    }
    assert(rest.len() == 0 || rest[0] == ' ') by {
        if suf.len() > 0 && !(crate::parse::count_suffix(suf) || suf[0] == '-') {
            reveal_strlit(" - ");
            assert(" - "@ =~= seq![' ', '-', ' ']);
        }
    }
    // Cleaning keeps the name at the front.
    lemma_visible_concat(name, rest);
    lemma_visible_word(name);
    let vr = visible(rest);
    assert(vr.len() == 0 || vr[0] == ' ') by {
        lemma_visible_first(rest);
    }
    assert(trim_start(name + vr) == name + vr);
    lemma_trim_end_concat(name, vr);
    let t = clean(cell);
    assert(t == name + trim_end(vr));
    let tv = trim_end(vr);
    assert(tv.len() == 0 || tv[0] == ' ') by {
        lemma_trim_end_prefix(vr);
    }
    assert(drop_at_sign(t) == t);
    lemma_word_run_concat(name, tv);
    assert(t.subrange(0, name.len() as int) =~= name);
    assert(leading_name(t) == Some(name));
    // A lookup of the typed name uses the same key.
    assert(clean(typed) == typed) by {
        lemma_visible_word(name);
        if typed != name {
            lemma_visible_concat(seq!['@'], name);
            assert(!is_invisible('@'));
            assert(visible(seq!['@']) =~= seq!['@']) by {
                let e = seq!['@'].drop_last();
                assert(e.len() == 0);
                assert(visible(e) == e);
                assert(e.push('@') =~= seq!['@']);
            }
        }
    }
    assert(drop_at_sign(typed) == name) by {
        if typed != name {
            assert(typed.drop_first() =~= name);
        }
    }
    lemma_word_run_concat(name, Seq::<char>::empty());
    assert(name + Seq::<char>::empty() =~= name);
    assert(name.subrange(0, name.len() as int) =~= name);
}

proof fn lemma_visible_first(s: Seq<char>)
    requires
        s.len() == 0 || s[0] == ' ',
    ensures
        visible(s).len() == 0 || visible(s)[0] == ' ',
{
    if s.len() > 0 {
        lemma_visible_concat(seq![s[0]], s.drop_first());
        assert(seq![s[0]] + s.drop_first() =~= s);
        assert(visible(seq![' ']) =~= seq![' ']) by {
            let e = seq![' '].drop_last();
            assert(e.len() == 0);
            assert(visible(e) == e);
            assert(!is_invisible(' '));
            assert(e.push(' ') =~= seq![' ']);
        }
    }
}

proof fn lemma_trim_end_prefix(s: Seq<char>)
    ensures
        trim_end(s).len() <= s.len(),
        trim_end(s) == s.subrange(0, trim_end(s).len() as int),
    decreases s.len(),
{
    if s.len() > 0 && is_ws(s.last()) {
        lemma_trim_end_prefix(s.drop_last());
        assert(s.drop_last().subrange(0, trim_end(s).len() as int) =~= s.subrange(0, trim_end(s).len() as int));
    } else {
        assert(s.subrange(0, s.len() as int) =~= s);
    }
}

// ---------------------------------------------------------------------------
// Lookups after writes to the index
// ---------------------------------------------------------------------------


proof fn lemma_key_pos_push(s: Seq<(Seq<char>, Seq<AwardView>)>, e: (Seq<char>, Seq<AwardView>), k: Seq<char>)
    ensures
        key_pos(s.push(e), k) == match key_pos(s, k) {
            Some(i) => Some(i),
            None => if e.0 == k {
                Some(s.len() as int)
            } else {
                None
            },
        },
{
    assert(s.push(e).drop_last() =~= s);
}

proof fn lemma_distinct_push(s: Seq<(Seq<char>, Seq<AwardView>)>, e: (Seq<char>, Seq<AwardView>))
    requires
        keys_distinct(s),
        key_pos(s, e.0) is None,
    ensures
        keys_distinct(s.push(e)),
{
    lemma_key_pos(s, e.0);
    let t = s.push(e);
    assert forall|i: int, j: int| #![trigger t[i], t[j]] 0 <= i < j < t.len() implies t[i].0 != t[j].0 by {
        if j == s.len() {
            assert(t[i] == s[i]);
        } else {
            assert(t[i] == s[i] && t[j] == s[j]);
        }
    }
}

proof fn lemma_bucket_distinct(ix: Seq<(Seq<char>, Seq<AwardView>)>, k: Seq<char>, i: int)
    requires
        keys_distinct(ix),
        0 <= i < ix.len(),
        ix[i].0 == k,
    ensures
        key_pos(ix, k) == Some(i),
        bucket_of(ix, k) == ix[i].1,
{
    assert forall|j: int| 0 <= j < i implies ix[j].0 != k by {
        assert(ix[j].0 != ix[i].0);
    }
    lemma_key_pos_unique(ix, k, i);
}

proof fn lemma_not_at_clears(b: Seq<AwardView>, sheet: Seq<char>, col: Seq<char>, row: i32)
    ensures
        forall|j: int| 0 <= j < not_at(b, sheet, col, row).len() ==> !at_location(
            #[trigger] not_at(b, sheet, col, row)[j],
            sheet,
            col,
            row,
        ),
    decreases b.len(),
{
    if b.len() > 0 {
        lemma_not_at_clears(b.drop_last(), sheet, col, row);
        let p = not_at(b.drop_last(), sheet, col, row);
        if !at_location(b.last(), sheet, col, row) {
            assert forall|j: int| 0 <= j < p.push(b.last()).len() implies !at_location(
                #[trigger] p.push(b.last())[j],
                sheet,
                col,
                row,
            ) by {
                if j < p.len() {
                    assert(p.push(b.last())[j] == p[j]);
                }
            }
        }
    }
}

proof fn lemma_not_at_idempotent(b: Seq<AwardView>, sheet: Seq<char>, col: Seq<char>, row: i32)
    ensures
        not_at(not_at(b, sheet, col, row), sheet, col, row) == not_at(b, sheet, col, row),
    decreases b.len(),
{
    if b.len() > 0 {
        lemma_not_at_idempotent(b.drop_last(), sheet, col, row);
        let p = not_at(b.drop_last(), sheet, col, row);
        if !at_location(b.last(), sheet, col, row) {
            assert(p.push(b.last()).drop_last() =~= p);
        }
    }
}

/// Removing the awards at a cell, bucket by bucket.
proof fn lemma_index_without(ix: Seq<(Seq<char>, Seq<AwardView>)>, sheet: Seq<char>, col: Seq<char>, row: i32)
    requires
        keys_distinct(ix),
    ensures
        keys_distinct(index_without(ix, sheet, col, row)),
        forall|k: Seq<char>|
            #[trigger] key_pos(index_without(ix, sheet, col, row), k) is Some ==> key_pos(ix, k) is Some,
        forall|k: Seq<char>|
            #[trigger] bucket_of(index_without(ix, sheet, col, row), k) == not_at(bucket_of(ix, k), sheet, col, row),
    decreases ix.len(),
{
    if ix.len() == 0 {
        assert forall|k: Seq<char>| #[trigger]
            bucket_of(index_without(ix, sheet, col, row), k) == not_at(bucket_of(ix, k), sheet, col, row) by {
            assert(not_at(Seq::<AwardView>::empty(), sheet, col, row) == Seq::<AwardView>::empty());
        }
    } else {
        let d = ix.drop_last();
        let e = ix.last();
        assert(keys_distinct(d)) by {
            assert forall|i: int, j: int| #![trigger d[i], d[j]] 0 <= i < j < d.len() implies d[i].0 != d[j].0 by {
                assert(d[i] == ix[i] && d[j] == ix[j]);
            }
        }
        lemma_index_without(d, sheet, col, row);
        let prev = index_without(d, sheet, col, row);
        let kept = not_at(e.1, sheet, col, row);
        assert(ix == d.push(e)) by {
            assert(ix =~= d.push(e));
        }
        lemma_key_pos(d, e.0);
        assert(key_pos(d, e.0) is None) by {
            if key_pos(d, e.0) is Some {
                let i = key_pos(d, e.0).unwrap();
                assert(d[i] == ix[i]);
                assert(ix[i].0 != ix[ix.len() - 1].0);
            }
        }
        assert(key_pos(prev, e.0) is None);
        lemma_bucket_distinct(ix, e.0, ix.len() - 1);
        if kept.len() > 0 {
            lemma_distinct_push(prev, (e.0, kept));
        }
        assert forall|k: Seq<char>| #[trigger]
            key_pos(index_without(ix, sheet, col, row), k) is Some implies key_pos(ix, k) is Some by {
            lemma_key_pos_push(d, e, k);
            if kept.len() > 0 {
                lemma_key_pos_push(prev, (e.0, kept), k);
            }
        }
        assert forall|k: Seq<char>| #[trigger]
            bucket_of(index_without(ix, sheet, col, row), k) == not_at(bucket_of(ix, k), sheet, col, row) by {
            lemma_key_pos_push(d, e, k);
            if kept.len() > 0 {
                lemma_key_pos_push(prev, (e.0, kept), k);
            }
            if k == e.0 {
                assert(bucket_of(ix, k) == e.1);
                if kept.len() > 0 {
                    assert(prev.push((e.0, kept))[prev.len() as int] == (e.0, kept));
                    assert(index_without(ix, sheet, col, row) == prev.push((e.0, kept)));
                } else {
                    assert(kept =~= Seq::<AwardView>::empty());
                    assert(index_without(ix, sheet, col, row) == prev);
                }
                assert(bucket_of(index_without(ix, sheet, col, row), k) == kept);
            } else {
                lemma_key_pos(prev, k);
                lemma_key_pos(d, k);
                match key_pos(prev, k) {
                    Some(i) => {
                        if kept.len() > 0 {
                            assert(prev.push((e.0, kept))[i] == prev[i]);
                        }
                    },
                    None => {},
                }
                match key_pos(d, k) {
                    Some(i) => {
                        assert(ix[i] == d[i]);
                    },
                    None => {},
                }
                assert(bucket_of(ix, k) == bucket_of(d, k));
                assert(bucket_of(index_without(ix, sheet, col, row), k) == bucket_of(prev, k));
            }
        }
    }
}

/// Replacing one member's bucket.
proof fn lemma_put_bucket(ix: Seq<(Seq<char>, Seq<AwardView>)>, k: Seq<char>, b: Seq<AwardView>)
    requires
        keys_distinct(ix),
    ensures
        keys_distinct(put_bucket(ix, k, b)),
        bucket_of(put_bucket(ix, k, b), k) == b,
        forall|k2: Seq<char>| k2 != k ==> #[trigger] bucket_of(put_bucket(ix, k, b), k2) == bucket_of(ix, k2),
{
    lemma_key_pos(ix, k);
    let p = put_bucket(ix, k, b);
    match key_pos(ix, k) {
        Some(i) => {
            assert(keys_distinct(p)) by {
                assert forall|a: int, c: int| #![trigger p[a], p[c]] 0 <= a < c < p.len() implies p[a].0 != p[c].0 by {
                    assert(p[a].0 == ix[a].0 && p[c].0 == ix[c].0);
                }
            }
            lemma_bucket_distinct(p, k, i);
            assert forall|k2: Seq<char>| k2 != k implies #[trigger] bucket_of(p, k2) == bucket_of(ix, k2) by {
                lemma_key_pos(ix, k2);
                lemma_key_pos(p, k2);
                match key_pos(ix, k2) {
                    Some(j) => {
                        lemma_bucket_distinct(p, k2, j);
                    },
                    None => {
                        if key_pos(p, k2) is Some {
                            let j = key_pos(p, k2).unwrap();
                            assert(p[j].0 == ix[j].0);
                        }
                    },
                }
            }
        },
        None => {
            lemma_distinct_push(ix, (k, b));
            lemma_key_pos_push(ix, (k, b), k);
            assert forall|k2: Seq<char>| k2 != k implies #[trigger] bucket_of(p, k2) == bucket_of(ix, k2) by {
                lemma_key_pos_push(ix, (k, b), k2);
                lemma_key_pos(ix, k2);
                match key_pos(ix, k2) {
                    Some(j) => {
                        assert(p[j] == ix[j]);
                    },
                    None => {},
                }
            }
        },
    }
}

/// The index after an award's cell is written (`upsert_award_in_index`).
pub open spec fn index_after_upsert(
    ix: Seq<(Seq<char>, Seq<AwardView>)>,
    key: Seq<char>,
    a: AwardView,
) -> Seq<(Seq<char>, Seq<AwardView>)> {
    index_after_add(index_without(ix, a.sheet, a.col, a.row), Some(key), Some(a))
}

proof fn lemma_upsert_buckets(ix: Seq<(Seq<char>, Seq<AwardView>)>, key: Seq<char>, a: AwardView)
    requires
        keys_distinct(ix),
    ensures
        keys_distinct(index_after_upsert(ix, key, a)),
        bucket_of(index_after_upsert(ix, key, a), key) == ({
            let kept = not_at(bucket_of(ix, key), a.sheet, a.col, a.row);
            if a.name.len() == 0 || already_filed(kept, a) {
                kept
            } else {
                kept.push(a)
            }
        }),
        forall|k2: Seq<char>|
            k2 != key ==> #[trigger] bucket_of(index_after_upsert(ix, key, a), k2) == not_at(
                bucket_of(ix, k2),
                a.sheet,
                a.col,
                a.row,
            ),
{
    let iw = index_without(ix, a.sheet, a.col, a.row);
    lemma_index_without(ix, a.sheet, a.col, a.row);
    assert(bucket_of(iw, key) == not_at(bucket_of(ix, key), a.sheet, a.col, a.row));
    let kept = bucket_of(iw, key);
    if !(a.name.len() == 0 || already_filed(kept, a)) {
        lemma_put_bucket(iw, key, kept.push(a));
    }
    assert forall|k2: Seq<char>| k2 != key implies #[trigger] bucket_of(index_after_upsert(ix, key, a), k2)
        == not_at(bucket_of(ix, k2), a.sheet, a.col, a.row) by {
        assert(bucket_of(iw, k2) == not_at(bucket_of(ix, k2), a.sheet, a.col, a.row));
    }
}

/// After an award's cell is written, a lookup of the member its cell names
/// finds it, and no other member is filed at that cell any more; every other
/// member keeps what they had, less anything at that cell.
pub proof fn law_lookup_after_upsert(ix: Seq<(Seq<char>, Seq<AwardView>)>, a: AwardView, key: Seq<char>)
    requires
        keys_distinct(ix),
        username_key(a.cell) == Some(key),
        a.name.len() > 0,
    ensures
        keys_distinct(index_after_upsert(ix, key, a)),
        already_filed(bucket_of(index_after_upsert(ix, key, a), key), a),
        forall|k2: Seq<char>|
            k2 != key ==> #[trigger] bucket_of(index_after_upsert(ix, key, a), k2) == not_at(
                bucket_of(ix, k2),
                a.sheet,
                a.col,
                a.row,
            ),
        forall|k2: Seq<char>, j: int|
            k2 != key && 0 <= j < bucket_of(index_after_upsert(ix, key, a), k2).len() ==> !at_location(
                #[trigger] bucket_of(index_after_upsert(ix, key, a), k2)[j],
                a.sheet,
                a.col,
                a.row,
            ),
{
    lemma_upsert_buckets(ix, key, a);
    let kept = not_at(bucket_of(ix, key), a.sheet, a.col, a.row);
    if !already_filed(kept, a) {
        let b = kept.push(a);
        assert(b[b.len() - 1] == a);
        if located(a) {
            assert(at_location(b[b.len() - 1], a.sheet, a.col, a.row));
        } else {
            assert(b[b.len() - 1].category == a.category && b[b.len() - 1].name == a.name);
        }
    }
    assert forall|k2: Seq<char>, j: int|
        k2 != key && 0 <= j < bucket_of(index_after_upsert(ix, key, a), k2).len() implies !at_location(
        #[trigger] bucket_of(index_after_upsert(ix, key, a), k2)[j],
        a.sheet,
        a.col,
        a.row,
    ) by {
        lemma_not_at_clears(bucket_of(ix, k2), a.sheet, a.col, a.row);
    }
}

/// Writing the same cell twice is the same as writing it once, as far as any
/// lookup can tell.
pub proof fn law_upsert_idempotent(ix: Seq<(Seq<char>, Seq<AwardView>)>, a: AwardView, key: Seq<char>)
    requires
        keys_distinct(ix),
    ensures
        forall|k: Seq<char>|
            #[trigger] bucket_of(index_after_upsert(index_after_upsert(ix, key, a), key, a), k) == bucket_of(
                index_after_upsert(ix, key, a),
                k,
            ),
{
    let ix1 = index_after_upsert(ix, key, a);
    lemma_upsert_buckets(ix, key, a);
    lemma_upsert_buckets(ix1, key, a);
    let kept = not_at(bucket_of(ix, key), a.sheet, a.col, a.row);
    lemma_not_at_idempotent(bucket_of(ix, key), a.sheet, a.col, a.row);
    if !(a.name.len() == 0 || already_filed(kept, a)) {
        assert(kept.push(a).drop_last() =~= kept);
        assert(at_location(a, a.sheet, a.col, a.row));
        assert(not_at(kept.push(a), a.sheet, a.col, a.row) == not_at(kept, a.sheet, a.col, a.row));
    }
    assert forall|k: Seq<char>| #[trigger]
        bucket_of(index_after_upsert(ix1, key, a), k) == bucket_of(ix1, k) by {
        if k != key {
            lemma_not_at_idempotent(bucket_of(ix, k), a.sheet, a.col, a.row);
        }
    }
}

/// Removing a cell's award leaves no member filed at that cell, and each
/// member keeps everything else they had.
pub proof fn law_drop_location_clears(ix: Seq<(Seq<char>, Seq<AwardView>)>, sheet: Seq<char>, col: Seq<char>, row: i32)
    requires
        keys_distinct(ix),
    ensures
        keys_distinct(index_without(ix, sheet, col, row)),
        forall|k: Seq<char>|
            #[trigger] bucket_of(index_without(ix, sheet, col, row), k) == not_at(bucket_of(ix, k), sheet, col, row),
        forall|k: Seq<char>, j: int|
            0 <= j < bucket_of(index_without(ix, sheet, col, row), k).len() ==> !at_location(
                #[trigger] bucket_of(index_without(ix, sheet, col, row), k)[j],
                sheet,
                col,
                row,
            ),
{
    lemma_index_without(ix, sheet, col, row);
    assert forall|k: Seq<char>, j: int|
        0 <= j < bucket_of(index_without(ix, sheet, col, row), k).len() implies !at_location(
        #[trigger] bucket_of(index_without(ix, sheet, col, row), k)[j],
        sheet,
        col,
        row,
    ) by {
        lemma_not_at_clears(bucket_of(ix, k), sheet, col, row);
    }
}


/// Filing an award never files a member twice.
pub proof fn law_add_keeps_members_distinct(
    ix: Seq<(Seq<char>, Seq<AwardView>)>,
    username: Option<Seq<char>>,
    award: Option<AwardView>,
)
    requires
        keys_distinct(ix),
    ensures
        keys_distinct(index_after_add(ix, username, award)),
{
    match (username, award) {
        (Some(u), Some(a)) => {
            lemma_put_bucket(ix, u, bucket_of(ix, u).push(a));
        },
        _ => {},
    }
}


proof fn lemma_build_rows_distinct(
    idx: Seq<(Seq<char>, Seq<AwardView>)>,
    rows: Seq<Seq<Seq<char>>>,
    sheet: Seq<char>,
    col: Seq<char>,
    m: SheetMetaView,
    base: Seq<char>,
    r: int,
)
    requires
        keys_distinct(idx),
    ensures
        keys_distinct(build_rows(idx, rows, sheet, col, m, base, r)),
    decreases r,
{
    if !(r <= 0 || r <= m.data_start_row - 1) {
        lemma_build_rows_distinct(idx, rows, sheet, col, m, base, r - 1);
        let prev = build_rows(idx, rows, sheet, col, m, base, r - 1);
        let cell = clean(cell_at(rows, r - 1, col_index(col)));
        if cell.len() > 0 {
            law_add_keeps_members_distinct(
                prev,
                username_key(cell),
                cell_award(m, sheet, col, base, cell, (r + m.row_offset) as i32),
            );
        }
    }
}

/// The index built from fetched tabs files each member once, so the laws
/// about lookups after writes apply to it.
pub proof fn law_built_index_files_each_member_once(
    tabs: Seq<(Seq<char>, Seq<Seq<Seq<char>>>)>,
    cols: Seq<(Seq<char>, Seq<char>)>,
)
    ensures
        keys_distinct(build_columns(tabs, cols).index),
    decreases cols.len(),
{
    if cols.len() > 0 {
        law_built_index_files_each_member_once(tabs, cols.drop_last());
        let st = build_columns(tabs, cols.drop_last());
        let sheet = cols.last().0;
        let col = cols.last().1;
        match meta_of(sheet) {
            Some(m) => match rows_of(tabs, sheet) {
                Some(rows) => {
                    let base = column_base(rows, m, col);
                    lemma_build_rows_distinct(st.index, rows, sheet, col, m, base, rows.len() as int);
                },
                None => {},
            },
            None => {},
        }
    }
}

// ---------------------------------------------------------------------------
// Deleting a cell shifts its column up
// ---------------------------------------------------------------------------

/// Deleting a cell moves the cells below it in its column up one row, empties
/// the column's last cell, and leaves every other column and every row above
/// it as it was (a missing cell reads as empty).
pub proof fn law_delete_shifts_column(rows: Seq<Seq<Seq<char>>>, sheet: Seq<char>, col: Seq<char>, sheet_row: i32)
    requires
        col_index(col) >= 0,
    ensures
        ({
            let after = after_shift_up(rows, sheet, col, sheet_row);
            let c = col_index(col);
            let csv_i = sheet_row - 1 - offset_of(sheet);
            &&& after.len() == rows.len()
            &&& forall|r: int, c2: int| c2 != c ==> #[trigger] cell_at(after, r, c2) == cell_at(rows, r, c2)
            &&& forall|r: int| r < csv_i ==> #[trigger] cell_at(after, r, c) == cell_at(rows, r, c)
            &&& 0 <= csv_i < rows.len() ==> {
                &&& forall|r: int| csv_i <= r < rows.len() - 1 ==> #[trigger] cell_at(after, r, c) == cell_at(rows, r + 1, c)
                &&& cell_at(after, rows.len() - 1, c) == Seq::<char>::empty()
            }
        }),
{
    let after = after_shift_up(rows, sheet, col, sheet_row);
    let c = col_index(col);
    let csv_i = sheet_row - 1 - offset_of(sheet);
    if !(csv_i < 0 || rows.len() == 0 || csv_i >= rows.len()) {
        assert forall|r: int, c2: int| c2 != c implies #[trigger] cell_at(after, r, c2) == cell_at(rows, r, c2) by {
            if 0 <= r < rows.len() && r >= csv_i {
                lemma_pad_set_other(rows[r], c, if r < rows.len() - 1 { cell_at(rows, r + 1, c) } else { Seq::empty() }, c2);
            }
        }
        assert forall|r: int| csv_i <= r < rows.len() implies #[trigger] cell_at(after, r, c) == (if r < rows.len() - 1 {
            cell_at(rows, r + 1, c)
        } else {
            Seq::<char>::empty()
        }) by {
            lemma_pad_set_at(rows[r], c, if r < rows.len() - 1 { cell_at(rows, r + 1, c) } else { Seq::empty() });
        }
    }
}

proof fn lemma_pad_set_at(row: Seq<Seq<char>>, c: int, v: Seq<char>)
    requires
        c >= 0,
    ensures
        pad_set(row, c, v).len() > c,
        pad_set(row, c, v)[c] == v,
{
}

proof fn lemma_pad_set_other(row: Seq<Seq<char>>, c: int, v: Seq<char>, c2: int)
    requires
        c >= 0,
        c2 != c,
    ensures
        (if 0 <= c2 < pad_set(row, c, v).len() { pad_set(row, c, v)[c2] } else { Seq::<char>::empty() }) == (if 0
            <= c2 < row.len() {
            row[c2]
        } else {
            Seq::<char>::empty()
        }),
{
}


// ---------------------------------------------------------------------------
// The terminal browser
// ---------------------------------------------------------------------------

/// Running a menu entry while a dialog is open leaves that dialog as it is.
pub proof fn law_open_dialog_is_kept(a: App, b: App, action: Action, auth: Seq<char>, tasks: Seq<Task>)
    requires
        a.modal is Some,
        activated(a, b, action, auth, tasks),
    ensures
        b.modal == a.modal,
{
}

/// While a sheet write or an audit runs, no key starts another write, sync
/// or audit.
pub proof fn law_one_job_at_a_time(a: App, b: App, key: Key, auth: Seq<char>, tasks: Seq<Task>)
    requires
        a.busy,
        key_done(a, b, key, auth, tasks),
    ensures
        forall|i: int| 0 <= i < tasks.len() ==> !(#[trigger] tasks[i] is Write) && !(tasks[i] is Sync) && !(
        tasks[i] is Audit),
{
}

/// Esc in a fix opened from an audit finding brings back the audit browser
/// exactly as it was put aside.
pub proof fn law_esc_restores_the_audit(a: App, b: App)
    requires
        a.saved_audit is Some,
        fix_dialog(a.modal),
        esc_done(a, b),
    ensures
        b.modal == Some(Modal::Audit(a.saved_audit.unwrap())),
        b.saved_audit is None,
        b.audit_fix_username is None,
{
}

/// Closing the audit browser keeps the status line the audit left.
pub proof fn law_closing_the_audit_keeps_the_status(a: App, b: App)
    requires
        a.modal matches Some(Modal::Audit(m)) && !(m.view is ChooseUsername),
        esc_done(a, b),
    ensures
        b.status == a.status,
        b.modal is None,
{
}

/// A failed write started from an audit finding brings back the audit
/// browser exactly as it was put aside.
pub proof fn law_failed_fix_restores_the_audit(a: App, b: App, kind: Seq<char>, result: EditResult, tasks: Seq<Task>)
    requires
        a.saved_audit is Some,
        !result.ok,
        audit_write_done(a, b, kind, result, tasks),
    ensures
        b.modal == Some(Modal::Audit(a.saved_audit.unwrap())),
        b.saved_audit is None,
        tasks.len() == 0,
{
}

/// Once a member is shown again, the live rows of the lookup started before
/// it are dropped.
pub proof fn law_stale_rows_are_dropped(
    a: App,
    b: App,
    c: App,
    username: Seq<char>,
    select: Option<AwardView>,
    status: Option<Seq<char>>,
    auth: Seq<char>,
    tasks: Seq<Task>,
    who: String,
    results: Vec<crate::types::Award>,
    duplicates: Vec<crate::types::Award>,
)
    requires
        a.data is Some,
        crate::browser::writes_enabled(auth),
        user_view_done(a, b, username, select, status, auth, tasks),
        rows_fixed(b, c, a.reconcile_gen, who, results, duplicates),
    ensures
        c == b,
{
    assert(b.reconcile_gen == next_gen(a.reconcile_gen));
}


proof fn lemma_item_positions_are_items(rows: Seq<RowView>)
    ensures
        forall|j: int|
            0 <= j < item_positions(rows).len() ==> 0 <= #[trigger] item_positions(rows)[j] < rows.len()
                && rows[item_positions(rows)[j]] is Item,
    decreases rows.len(),
{
    if rows.len() > 0 {
        lemma_item_positions_are_items(rows.drop_last());
        let p = item_positions(rows.drop_last());
        assert forall|j: int| 0 <= j < p.len() implies 0 <= #[trigger] p[j] < rows.len() && rows[p[j]] is Item by {
            assert(rows.drop_last()[p[j]] == rows[p[j]]);
        }
    }
}

/// Moving the findings-list highlight always lands on a finding, never on a
/// member's header row.
pub proof fn law_highlight_skips_headers(gs: Seq<GroupView>, selected: Option<usize>, delta: int)
    ensures
        audit_row_step(gs, selected, delta) matches Some(k) ==> 0 <= k < list_rows(gs).len() && list_rows(gs)[k] is Item,
{
    let rows = list_rows(gs);
    lemma_item_positions_are_items(rows);
    let sel = item_positions(rows);
    if sel.len() > 0 {
        let current: int = match selected {
            Some(k) => k as int,
            None => sel[0],
        };
        let pos: int = match crate::tui::position_in(sel, current) {
            Some(p) => p,
            None => 0,
        };
        let j = (pos + delta) % (sel.len() as int);
        assert(0 <= j < sel.len());
        assert(audit_row_step(gs, selected, delta) == Some(sel[j]));
    }
}

// ---------------------------------------------------------------------------
// A correction is checked before the sheet is touched
// ---------------------------------------------------------------------------

/// Correcting an award that has no sheet location, or correcting a cell to text
/// that is blank or does not start with a username, is refused at once: the
/// flow is over before it connects, and its only request hands back a failed
/// result that carries an error and no award. Any other correction starts by
/// connecting to the sheet.
pub proof fn law_update_checks_before_the_sheet(award: AwardView, new_cell: Seq<char>)
    ensures
        !crate::edit::located(award) || !crate::edit::valid_new_cell(new_cell) ==> {
            &&& crate::edit::update_start(award, new_cell).0.phase == crate::edit::UpdatePhase::Done
            &&& crate::edit::update_start(award, new_cell).1 matches crate::edit::RequestView::Finish(r)
                && !r.ok && r.error is Some && r.award is None
        },
        crate::edit::located(award) && crate::edit::valid_new_cell(new_cell) ==> crate::edit::update_start(
            award,
            new_cell,
        ).1 == crate::edit::RequestView::Connect,
{
}

// ---------------------------------------------------------------------------
// Cleaning a cell twice changes nothing
// ---------------------------------------------------------------------------

proof fn lemma_trim_end_last(s: Seq<char>)
    ensures
        trim_end(s).len() > 0 ==> !is_ws(trim_end(s).last()),
    decreases s.len(),
{
    if s.len() > 0 && is_ws(s.last()) {
        lemma_trim_end_last(s.drop_last());
    }
}

proof fn lemma_trim_start_suffix(s: Seq<char>)
    ensures
        trim_start(s).len() <= s.len(),
        trim_start(s) == s.subrange(s.len() - trim_start(s).len(), s.len() as int),
        trim_start(s).len() > 0 ==> !is_ws(trim_start(s)[0]),
    decreases s.len(),
{
    if s.len() > 0 && is_ws(s[0]) {
        lemma_trim_start_suffix(s.drop_first());
        let t = trim_start(s);
        assert(s.drop_first().subrange(s.drop_first().len() - t.len(), s.drop_first().len() as int) =~= s.subrange(
            s.len() - t.len(),
            s.len() as int,
        ));
    } else {
        assert(s.subrange(0, s.len() as int) =~= s);
    }
}

/// What `trim` keeps is a run of `s`, and it neither starts nor ends with whitespace.
proof fn lemma_trim_shape(s: Seq<char>)
    ensures
        forall|k: int| 0 <= k < trim(s).len() ==> s.contains(#[trigger] trim(s)[k]),
        trim(s).len() > 0 ==> !is_ws(trim(s)[0]) && !is_ws(trim(s).last()),
{
    let u = trim_start(s);
    lemma_trim_start_suffix(s);
    lemma_trim_end_prefix(u);
    lemma_trim_end_last(u);
    let t = trim(s);
    assert forall|k: int| 0 <= k < t.len() implies s.contains(#[trigger] t[k]) by {
        assert(t[k] == u[k]);
        assert(u[k] == s[s.len() - u.len() + k]);
    }
}

/// Text that neither starts nor ends with whitespace is its own `trim`.
proof fn lemma_trim_fixed(t: Seq<char>)
    requires
        t.len() > 0 ==> !is_ws(t[0]) && !is_ws(t.last()),
    ensures
        trim(t) == t,
{
    assert(trim_start(t) == t);
    assert(trim_end(t) == t);
}

proof fn lemma_visible_drops_invisible(s: Seq<char>)
    ensures
        forall|k: int| 0 <= k < visible(s).len() ==> !is_invisible(#[trigger] visible(s)[k]),
        forall|k: int| 0 <= k < visible(s).len() ==> s.contains(#[trigger] visible(s)[k]),
    decreases s.len(),
{
    if s.len() > 0 {
        lemma_visible_drops_invisible(s.drop_last());
        let v = visible(s);
        let w = visible(s.drop_last());
        assert forall|k: int| 0 <= k < v.len() implies s.contains(#[trigger] v[k]) by {
            if k < w.len() {
                assert(v[k] == w[k]);
                assert(s.drop_last().contains(w[k]));
                let i = choose|i: int| 0 <= i < s.drop_last().len() && s.drop_last()[i] == w[k];
                assert(s[i] == w[k]);
            } else {
                assert(v[k] == s.last());
                assert(s[s.len() - 1] == s.last());
            }
        }
    }
}

proof fn lemma_visible_fixed(s: Seq<char>)
    requires
        forall|k: int| 0 <= k < s.len() ==> !is_invisible(#[trigger] s[k]),
    ensures
        visible(s) == s,
    decreases s.len(),
{
    if s.len() > 0 {
        assert forall|k: int| 0 <= k < s.drop_last().len() implies !is_invisible(#[trigger] s.drop_last()[k]) by {
            assert(s.drop_last()[k] == s[k]);
        }
        lemma_visible_fixed(s.drop_last());
        assert(!is_invisible(s[s.len() - 1]));
        assert(s.drop_last().push(s.last()) =~= s);
    }
}

/// A cleaned cell holds no zero-width character and neither starts nor ends
/// with whitespace, so cleaning it again gives it back unchanged; a missing
/// cell cleans to the empty text.
pub proof fn law_clean_cell_is_idempotent(s: Seq<char>)
    ensures
        crate::parse::clean_opt(None) == Seq::<char>::empty(),
        forall|k: int| 0 <= k < clean(s).len() ==> !is_invisible(#[trigger] clean(s)[k]),
        clean(s).len() > 0 ==> !is_ws(clean(s)[0]) && !is_ws(clean(s).last()),
        clean(clean(s)) == clean(s),
{
    let v = visible(s);
    let c = clean(s);
    lemma_visible_drops_invisible(s);
    lemma_trim_shape(v);
    assert forall|k: int| 0 <= k < c.len() implies !is_invisible(#[trigger] c[k]) by {
        assert(v.contains(c[k]));
        let i = choose|i: int| 0 <= i < v.len() && v[i] == c[k];
        assert(!is_invisible(v[i]));
    }
    lemma_visible_fixed(c);
    lemma_trim_fixed(c);
}

// ---------------------------------------------------------------------------
// Expanding a badge abbreviation twice changes nothing
// ---------------------------------------------------------------------------

pub(crate) proof fn lemma_trim_idempotent(s: Seq<char>)
    ensures
        trim(trim(s)) == trim(s),
{
    lemma_trim_shape(s);
    lemma_trim_fixed(trim(s));
}

/// For a badge with a name, expanding an abbreviation a second time gives the
/// same name as the first time: a Master badge is not made Master twice.
pub proof fn law_badge_abbrev_idempotent(base_name: Seq<char>, abbrev: Seq<char>)
    requires
        trim(base_name).len() > 0,
    ensures
        crate::format::expanded_abbrev(crate::format::expanded_abbrev(base_name, abbrev), abbrev)
            == crate::format::expanded_abbrev(base_name, abbrev),
{
    let base = trim(base_name);
    let m = crate::format::expanded_abbrev(base_name, abbrev);
    let key = crate::text::upper_seq(trim(abbrev));
    lemma_trim_idempotent(base_name);
    lemma_trim_shape(base_name);
    if key == "MC"@ && !crate::text::starts_with(lower_seq(base), "master "@) {
        let p = "Master "@;
        assert(m == p + base);
        reveal_strlit("Master ");
        reveal_strlit("master ");
        assert(m[0] == 'M');
        assert(m.last() == base.last());
        lemma_trim_fixed(m);
        assert(lower_seq(m).subrange(0, 7) =~= "master "@);
        assert(crate::text::starts_with(lower_seq(m), "master "@));
    } else if key == "ESB"@ {
        let e = "Expert Soldier Badge"@;
        reveal_strlit("Expert Soldier Badge");
        assert(e[0] == 'E' && e.last() == 'e');
        lemma_trim_fixed(e);
    }
}

// ---------------------------------------------------------------------------
// Reading a clerk's request
// ---------------------------------------------------------------------------

proof fn lemma_lower_of_upper(t: Seq<char>)
    ensures
        lower_seq(crate::text::upper_seq(t)) == lower_seq(t),
        forall|k: int| 0 <= k < t.len() ==> is_ws(#[trigger] crate::text::upper_seq(t)[k]) == is_ws(t[k]),
{
    let u = crate::text::upper_seq(t);
    assert forall|k: int| 0 <= k < t.len() implies lower_seq(u)[k] == lower_seq(t)[k] by {
        let c = t[k];
        if crate::text::is_lower(c) {
            assert(crate::text::is_upper(crate::text::upper(c)));
        }
    }
    assert(lower_seq(u) =~= lower_seq(t));
}

proof fn lemma_without_ws_concat(a: Seq<char>, b: Seq<char>)
    ensures
        without_ws(a + b) == without_ws(a) + without_ws(b),
    decreases b.len(),
{
    if b.len() == 0 {
        assert(a + b =~= a);
        assert(without_ws(a) + without_ws(b) =~= without_ws(a));
    } else {
        lemma_without_ws_concat(a, b.drop_last());
        assert((a + b).drop_last() =~= a + b.drop_last());
        assert((a + b).last() == b.last());
        if !is_ws(b.last()) {
            assert(without_ws(a) + without_ws(b.drop_last()).push(b.last()) =~= (without_ws(a) + without_ws(
                b.drop_last(),
            )).push(b.last()));
        }
    }
}

/// No whitespace in `s`.
pub open spec fn no_ws(s: Seq<char>) -> bool {
    forall|k: int| 0 <= k < s.len() ==> !is_ws(#[trigger] s[k])
}

proof fn lemma_without_ws_fixed(s: Seq<char>)
    requires
        no_ws(s),
    ensures
        without_ws(s) == s,
    decreases s.len(),
{
    if s.len() > 0 {
        assert(no_ws(s.drop_last())) by {
            assert forall|k: int| 0 <= k < s.drop_last().len() implies !is_ws(#[trigger] s.drop_last()[k]) by {
                assert(s.drop_last()[k] == s[k]);
            }
        }
        lemma_without_ws_fixed(s.drop_last());
        assert(!is_ws(s[s.len() - 1]));
        assert(s.drop_last().push(s.last()) =~= s);
    }
}

/// Four words with single spaces between them lose the spaces.
proof fn lemma_compact_words(a: Seq<char>, b: Seq<char>, c: Seq<char>, d: Seq<char>)
    requires
        no_ws(a),
        no_ws(b),
        no_ws(c),
        no_ws(d),
    ensures
        without_ws(a + " "@ + b + " "@ + c + " "@ + d) == a + b + c + d,
{
    reveal_strlit(" ");
    let sp = " "@;
    assert(sp.len() == 1 && sp[0] == ' ');
    assert(sp.last() == ' ');
    assert(is_ws(sp.last()));
    assert(sp.drop_last() =~= Seq::<char>::empty());
    assert(without_ws(sp.drop_last()) == sp.drop_last());
    assert(without_ws(sp) =~= Seq::<char>::empty());
    lemma_without_ws_fixed(a);
    lemma_without_ws_fixed(b);
    lemma_without_ws_fixed(c);
    lemma_without_ws_fixed(d);
    lemma_without_ws_concat(a, sp);
    lemma_without_ws_concat(a + sp, b);
    lemma_without_ws_concat(a + sp + b, sp);
    lemma_without_ws_concat(a + sp + b + sp, c);
    lemma_without_ws_concat(a + sp + b + sp + c, sp);
    lemma_without_ws_concat(a + sp + b + sp + c + sp, d);
    assert(a + Seq::<char>::empty() =~= a);
    assert(a + b + Seq::<char>::empty() =~= a + b);
    assert(a + b + c + Seq::<char>::empty() =~= a + b + c);
}

/// Each assist award is found again by its short id and by its full name.
pub proof fn law_assist_award_names_roundtrip(a: AssistAward)
    ensures
        assist_query(award_id(a)) == Some(a),
        assist_query(award_display(a)) == Some(a),
{
    reveal_strlit("MCAB");
    reveal_strlit("MCIB");
    reveal_strlit("MCMB");
    reveal_strlit("mcab");
    reveal_strlit("mcib");
    reveal_strlit("mcmb");
    reveal_strlit("mastercab");
    reveal_strlit("mastercib");
    reveal_strlit("mastercombatactionbadge");
    reveal_strlit("mastercombataction");
    reveal_strlit("mastercombatinfantrymanbadge");
    reveal_strlit("mastercombatinfantryman");
    reveal_strlit("mastercombatmedicalbadge");
    reveal_strlit("Master Combat Action Badge");
    reveal_strlit("Master Combat Infantryman Badge");
    reveal_strlit("Master Combat Medical Badge");
    reveal_strlit("master");
    reveal_strlit("combat");
    reveal_strlit("action");
    reveal_strlit("infantryman");
    reveal_strlit("medical");
    reveal_strlit("badge");
    reveal_strlit(" ");
    let id = award_id(a);
    assert(id.len() == 4 && !is_ws(id[0]) && !is_ws(id[3]));
    lemma_trim_fixed(id);
    let lid = lower_seq(id);
    assert(no_ws(lid));
    lemma_without_ws_fixed(lid);
    let m = "master"@;
    let cb = "combat"@;
    let bd = "badge"@;
    assert(no_ws(m) && no_ws(cb) && no_ws(bd));
    match a {
        AssistAward::MasterCab => {
            assert(lid =~= "mcab"@);
            let w = "action"@;
            assert(no_ws(w));
            let d = award_display(a);
            assert(!is_ws(d[0]) && !is_ws(d[d.len() - 1]));
            lemma_trim_fixed(d);
            assert(lower_seq(d) =~= m + " "@ + cb + " "@ + w + " "@ + bd);
            lemma_compact_words(m, cb, w, bd);
            assert(m + cb + w + bd =~= "mastercombatactionbadge"@);
        },
        AssistAward::MasterCib => {
            assert(lid =~= "mcib"@);
            assert(lid[2] != "mcab"@[2]);
            let w = "infantryman"@;
            assert(no_ws(w));
            let d = award_display(a);
            assert(!is_ws(d[0]) && !is_ws(d[d.len() - 1]));
            lemma_trim_fixed(d);
            assert(lower_seq(d) =~= m + " "@ + cb + " "@ + w + " "@ + bd);
            lemma_compact_words(m, cb, w, bd);
            assert(m + cb + w + bd =~= "mastercombatinfantrymanbadge"@);
        },
        AssistAward::MasterCmb => {
            assert(lid =~= "mcmb"@);
            assert(lid[2] != "mcab"@[2]);
            assert(lid[2] != "mcib"@[2]);
            let w = "medical"@;
            assert(no_ws(w));
            let d = award_display(a);
            assert(!is_ws(d[0]) && !is_ws(d[d.len() - 1]));
            lemma_trim_fixed(d);
            assert(lower_seq(d) =~= m + " "@ + cb + " "@ + w + " "@ + bd);
            lemma_compact_words(m, cb, w, bd);
            assert(m + cb + w + bd =~= "mastercombatmedicalbadge"@);
        },
    }
}

/// ASCII case and surrounding whitespace never change which award a request
/// names: the request reads the same once trimmed and upper-cased.
pub proof fn law_assist_query_ignores_case_and_padding(query: Seq<char>)
    ensures
        assist_query(crate::text::upper_seq(trim(query)))
            == assist_query(query),
{
    let t = trim(query);
    let u = crate::text::upper_seq(t);
    lemma_trim_shape(query);
    lemma_lower_of_upper(t);
    if t.len() > 0 {
        assert(is_ws(u[0]) == is_ws(t[0]));
        assert(is_ws(u[u.len() - 1]) == is_ws(t[t.len() - 1]));
    }
    lemma_trim_fixed(u);
}

// ---------------------------------------------------------------------------
// The shape of the audit report
// ---------------------------------------------------------------------------

proof fn lemma_join_append(a: Seq<Seq<char>>, b: Seq<Seq<char>>, sep: Seq<char>)
    requires
        a.len() > 0,
        b.len() > 0,
    ensures
        crate::text::join(a + b, sep) == crate::text::join(a, sep) + sep + crate::text::join(b, sep),
    decreases b.len(),
{
    if b.len() == 1 {
        assert((a + b).drop_last() =~= a);
    } else {
        lemma_join_append(a, b.drop_last(), sep);
        assert((a + b).drop_last() =~= a + b.drop_last());
        let ja = crate::text::join(a, sep);
        let jb = crate::text::join(b.drop_last(), sep);
        assert(ja + sep + jb + sep + b.last() =~= ja + sep + (jb + sep + b.last()));
    }
}

/// The audit report opens with its title and a `Generated:` line giving the
/// time it was made, then a summary of the counts: award columns, filled
/// cells, identical and conflicting groups, similar pairs, malformed and
/// unparseable cells. A section with nothing in it reads `(none)`, and the
/// text always ends with `End of report.` and a newline. The text depends on
/// the report and the time alone.
#[verifier::spinoff_prover]
#[verifier::rlimit(40)]
pub proof fn law_audit_report_shape(r: crate::audit::ReportView, g: Seq<char>, r2: crate::audit::ReportView, g2: Seq<char>)
    ensures
        ({
            let lines = crate::audit::report_lines(r, g);
            let text = crate::audit::audit_report_text(r, g);
            let nl = "\n"@;
            &&& lines[1] == "Generated: "@ + g
            &&& text == lines[0] + nl + lines[1] + nl + crate::text::join(lines.skip(2), nl)
            &&& lines[6] == "Award columns scanned: "@ + crate::text::decimal(r.columns as int)
            &&& lines[7] == "Filled cells:          "@ + crate::text::decimal(r.cells as int)
            &&& lines[8] == "Identical copies:      "@ + crate::text::decimal(
                crate::audit::groups_of_kind(r.groups, "identical"@).len() as int,
            ) + " groups"@
            &&& lines[9] == "Conflicting rows:      "@ + crate::text::decimal(
                crate::audit::groups_of_kind(r.groups, "conflict"@).len() as int,
            ) + " groups"@
            &&& lines[10] == "Similar usernames:     "@ + crate::text::decimal(r.pairs.len() as int)
                + " pairs (same award column)"@
            &&& lines[11] == "Malformed cells:       "@ + crate::text::decimal(r.malformed.len() as int)
            &&& lines[12] == "Unparseable cells:     "@ + crate::text::decimal(r.unparsed.len() as int)
            &&& crate::audit::groups_of_kind(r.groups, "identical"@).len() == 0 ==> lines[18] == "(none)"@
                && lines[19] == Seq::<char>::empty()
            &&& text == crate::text::join(lines.take(lines.len() - 2), nl) + nl + "End of report."@ + nl
        }),
        forall|f: spec_fn(crate::audit::GroupView) -> Seq<Seq<char>>|
            #[trigger] crate::audit::block(Seq::<crate::audit::GroupView>::empty(), f) == seq!["(none)"@, Seq::<char>::empty()],
        r2 == r && g2 == g ==> crate::audit::audit_report_text(r2, g2) == crate::audit::audit_report_text(r, g),
{
    let lines = crate::audit::report_lines(r, g);
    let nl = "\n"@;
    let summary = crate::audit::summary_lines(r, g);
    assert(summary.len() == 14);
    assert(lines.len() >= 16);
    assert(lines[0] == summary[0]);
    assert(lines[1] == summary[1]);
    assert(lines[6] == summary[6]);
    assert(lines[12] == summary[12]);
    let head = lines.take(2);
    assert(head + lines.skip(2) =~= lines);
    assert(head.drop_last() =~= seq![lines[0]]);
    assert(crate::text::join(head.drop_last(), nl) == lines[0]);
    assert(crate::text::join(head, nl) == lines[0] + nl + lines[1]);
    lemma_join_append(head, lines.skip(2), nl);
    let n = lines.len() as int;
    let tail = seq!["End of report."@, Seq::<char>::empty()];
    assert(lines.skip(n - 2) =~= tail);
    assert(lines.take(n - 2) + tail =~= lines);
    assert(tail.drop_last() =~= seq!["End of report."@]);
    assert(crate::text::join(tail.drop_last(), nl) == "End of report."@);
    assert(tail.last() == Seq::<char>::empty());
    assert(crate::text::join(tail, nl) == "End of report."@ + nl + Seq::<char>::empty());
    assert("End of report."@ + nl + Seq::<char>::empty() =~= "End of report."@ + nl);
    lemma_join_append(lines.take(n - 2), tail, nl);
    let lj = crate::text::join(lines.take(n - 2), nl);
    assert(lj + nl + ("End of report."@ + nl) =~= lj + nl + "End of report."@ + nl);
}

// ---------------------------------------------------------------------------
// Selectable rows of the findings list
// ---------------------------------------------------------------------------

proof fn lemma_item_positions_exact(rows: Seq<RowView>)
    ensures
        forall|i: int| 0 <= i < rows.len() && rows[i] is Item ==> #[trigger] item_positions(rows).contains(i),
        forall|j: int, k: int|
            0 <= j < k < item_positions(rows).len() ==> #[trigger] item_positions(rows)[j] < #[trigger] item_positions(
                rows,
            )[k],
        forall|j: int| 0 <= j < item_positions(rows).len() ==> #[trigger] item_positions(rows)[j] < rows.len(),
    decreases rows.len(),
{
    if rows.len() > 0 {
        let d = rows.drop_last();
        lemma_item_positions_exact(d);
        let p = item_positions(d);
        assert forall|i: int| 0 <= i < rows.len() && rows[i] is Item implies #[trigger] item_positions(rows).contains(
            i,
        ) by {
            if i < d.len() {
                assert(d[i] == rows[i]);
                assert(p.contains(i));
                let j = choose|j: int| 0 <= j < p.len() && p[j] == i;
                assert(item_positions(rows)[j] == i);
            } else {
                assert(item_positions(rows) == p.push(i));
                assert(item_positions(rows)[p.len() as int] == i);
            }
        }
    }
}

proof fn lemma_item_positions_len_concat(a: Seq<RowView>, b: Seq<RowView>)
    ensures
        item_positions(a + b).len() == item_positions(a).len() + item_positions(b).len(),
    decreases b.len(),
{
    if b.len() == 0 {
        assert(a + b =~= a);
    } else {
        lemma_item_positions_len_concat(a, b.drop_last());
        assert((a + b).drop_last() =~= a + b.drop_last());
        assert((a + b).last() == b.last());
    }
}

proof fn lemma_group_positions(g: GroupView)
    ensures
        item_positions(crate::tui::group_rows(g)).len() == g.findings.len(),
    decreases g.findings.len(),
{
    let rows = crate::tui::group_rows(g);
    if g.findings.len() == 0 {
        assert(rows.len() == 1);
        assert(rows.last() is Header);
        assert(rows.drop_last() =~= Seq::<RowView>::empty());
        assert(item_positions(rows) == item_positions(rows.drop_last()));
    } else {
        let g2 = GroupView { findings: g.findings.drop_last(), ..g };
        lemma_group_positions(g2);
        assert(rows.drop_last() =~= crate::tui::group_rows(g2));
        assert(rows.last() == RowView::Item(g.findings.last()));
        assert(item_positions(rows) == item_positions(rows.drop_last()).push(rows.len() - 1));
    }
}

proof fn lemma_list_positions_len(gs: Seq<GroupView>)
    ensures
        item_positions(list_rows(gs)).len() == crate::tui::total_findings(gs),
    decreases gs.len(),
{
    if gs.len() > 0 {
        lemma_list_positions_len(gs.drop_last());
        lemma_item_positions_len_concat(list_rows(gs.drop_last()), crate::tui::group_rows(gs.last()));
        lemma_group_positions(gs.last());
    }
}

/// In the findings list a row holds a finding exactly when it is one of the
/// selectable rows; the selectable rows ascend, stay inside the list, and
/// there is one for each finding (every group's header row is skipped).
pub proof fn law_selectable_rows_are_the_findings(gs: Seq<GroupView>)
    ensures
        forall|i: int|
            0 <= i < list_rows(gs).len() && list_rows(gs)[i] is Item <==> #[trigger] item_positions(
                list_rows(gs),
            ).contains(i),
        forall|j: int, k: int|
            0 <= j < k < item_positions(list_rows(gs)).len() ==> #[trigger] item_positions(list_rows(gs))[j]
                < #[trigger] item_positions(list_rows(gs))[k],
        item_positions(list_rows(gs)).len() == crate::tui::total_findings(gs),
{
    let rows = list_rows(gs);
    lemma_item_positions_exact(rows);
    lemma_item_positions_are_items(rows);
    lemma_list_positions_len(gs);
    assert forall|i: int| #[trigger] item_positions(rows).contains(i) implies 0 <= i < rows.len() && rows[i] is Item by {
        let j = choose|j: int| 0 <= j < item_positions(rows).len() && item_positions(rows)[j] == i;
        assert(0 <= item_positions(rows)[j] < rows.len());
    }
}

// ---------------------------------------------------------------------------
// A delete, from reading the column to the report
// ---------------------------------------------------------------------------

/// Once a delete has found the award's live row, and both reads of that row
/// still show the award's cell, the delete rewrites the column from that row
/// down with every cell below moved up one row and a blank at the bottom, and
/// when the write succeeds it reports the award removed from that column and
/// row, with the column shifted up.
pub proof fn law_delete_shifts_and_reports(
    st: crate::edit::RemoveView,
    tail: Seq<Seq<Seq<char>>>,
    recheck: Seq<Seq<Seq<char>>>,
)
    requires
        st.phase == crate::edit::RemovePhase::Tail,
        clean(crate::edit::first_value(tail)) == clean(st.award.cell),
        clean(crate::edit::first_value(recheck)) == clean(st.award.cell),
    ensures
        ({
            let a = st.award;
            let (s1, _) = crate::edit::remove_step(st, crate::edit::ReplyView::Values(tail));
            let (s2, q2) = crate::edit::remove_step(s1, crate::edit::ReplyView::Values(recheck));
            let (s3, q3) = crate::edit::remove_step(s2, crate::edit::ReplyView::Written);
            let below = crate::edit::cells_below(tail);
            let written = crate::edit::shifted_values(below);
            &&& q2 == crate::edit::RequestView::UpdateValues(crate::edit::shift_range(a, below.len() as int), written)
            &&& written.len() == below.len() + 1
            &&& forall|i: int| 0 <= i < below.len() ==> #[trigger] written[i] == seq![crate::parse::first_cell(tail[i + 1])]
            &&& written[below.len() as int] == seq![Seq::<char>::empty()]
            &&& s3.phase == crate::edit::RemovePhase::Done
            &&& q3 == crate::edit::RequestView::Finish(crate::edit::ok_view(
                "Removed "@ + a.name + " from "@ + a.col + crate::text::decimal(a.row as int) + " (column shifted up)"@,
                None,
            ))
        }),
{
}

// ---------------------------------------------------------------------------
// A member's problems come out in order
// ---------------------------------------------------------------------------

proof fn lemma_seq_lt_trans(a: Seq<char>, b: Seq<char>, c: Seq<char>)
    requires
        crate::audit::seq_lt(a, b),
        crate::audit::seq_lt(b, c),
    ensures
        crate::audit::seq_lt(a, c),
{
    crate::text::lemma_seq_le_trans(a, b, c);
    if a == c {
        crate::text::lemma_seq_le_antisym(a, b);
    }
}

proof fn lemma_seq_lt_total(a: Seq<char>, b: Seq<char>)
    ensures
        crate::audit::seq_lt(a, b) || crate::audit::seq_lt(b, a) || a == b,
{
    crate::text::lemma_seq_le_total(a, b);
}

proof fn lemma_hit_le_trans(a: crate::types::DuplicateHitView, b: crate::types::DuplicateHitView, c: crate::types::DuplicateHitView)
    requires
        <crate::audit::HitOrder as crate::sort::SortOrder<crate::types::DuplicateHit>>::le(a, b),
        <crate::audit::HitOrder as crate::sort::SortOrder<crate::types::DuplicateHit>>::le(b, c),
    ensures
        <crate::audit::HitOrder as crate::sort::SortOrder<crate::types::DuplicateHit>>::le(a, c),
{
    if crate::audit::seq_lt(a.reason, b.reason) && crate::audit::seq_lt(b.reason, c.reason) {
        lemma_seq_lt_trans(a.reason, b.reason, c.reason);
    }
    let la = lower_seq(a.base_name);
    let lb = lower_seq(b.base_name);
    let lc = lower_seq(c.base_name);
    if crate::audit::seq_lt(la, lb) && crate::audit::seq_lt(lb, lc) {
        lemma_seq_lt_trans(la, lb, lc);
    }
}

/// The order of a member's problems (reason, then award name ignoring case,
/// then row) compares any two problems and chains.
proof fn lemma_hit_order_total()
    ensures
        crate::sort::total_preorder(crate::sort::order_of::<crate::types::DuplicateHit, crate::audit::HitOrder>()),
{
    let le = crate::sort::order_of::<crate::types::DuplicateHit, crate::audit::HitOrder>();
    assert forall|a: crate::types::DuplicateHitView, b: crate::types::DuplicateHitView| #[trigger] le(a, b) || le(b, a) by {
        lemma_seq_lt_total(a.reason, b.reason);
        lemma_seq_lt_total(lower_seq(a.base_name), lower_seq(b.base_name));
    }
    assert forall|a: crate::types::DuplicateHitView, b: crate::types::DuplicateHitView, c: crate::types::DuplicateHitView|
        #[trigger] le(a, b) && #[trigger] le(b, c) implies le(a, c) by {
        lemma_hit_le_trans(a, b, c);
    }
}

/// The problems found around a member come out ordered by reason, then by
/// award name ignoring case, then by row.
pub proof fn law_duplicate_hits_are_ordered(
    tabs: Seq<(Seq<char>, Seq<Seq<Seq<char>>>)>,
    cols: Seq<(Seq<char>, Seq<char>)>,
    username: Seq<char>,
)
    ensures
        crate::sort::sorted_by(
            crate::audit::duplicates_for(tabs, cols, username),
            crate::sort::order_of::<crate::types::DuplicateHit, crate::audit::HitOrder>(),
        ),
{
    let key = crate::index::lookup_key(username);
    if key.len() > 0 {
        let st = crate::audit::dup_columns(tabs, key, cols);
        lemma_hit_order_total();
        crate::sort::lemma_sorted_stable_is_sorted(
            crate::audit::all_group_hits(st.hits, st.exact, st.exact.len() as int),
            crate::sort::order_of::<crate::types::DuplicateHit, crate::audit::HitOrder>(),
        );
    }
}

// ---------------------------------------------------------------------------
// A member's problems flag each cell once per reason
// ---------------------------------------------------------------------------

/// No cell is flagged twice for the same reason.
pub open spec fn hits_distinct(h: Seq<crate::types::DuplicateHitView>) -> bool {
    forall|i: int, j: int| 0 <= i < j < h.len() ==> !crate::audit::same_hit(#[trigger] h[i], #[trigger] h[j])
}

proof fn lemma_add_hit_distinct(h: Seq<crate::types::DuplicateHitView>, x: crate::types::DuplicateHitView)
    requires
        hits_distinct(h),
    ensures
        hits_distinct(crate::audit::add_hit(h, x)),
{
    if !(exists|i: int| 0 <= i < h.len() && crate::audit::same_hit(#[trigger] h[i], x)) {
        let r = h.push(x);
        assert forall|i: int, j: int| 0 <= i < j < r.len() implies !crate::audit::same_hit(#[trigger] r[i], #[trigger] r[j]) by {
            if j == h.len() {
                assert(r[i] == h[i]);
            } else {
                assert(r[i] == h[i] && r[j] == h[j]);
            }
        }
    }
}

proof fn lemma_dup_rows_distinct(
    st0: crate::audit::DupState,
    rows: Seq<Seq<Seq<char>>>,
    key: Seq<char>,
    sheet: Seq<char>,
    col: Seq<char>,
    m: SheetMetaView,
    base: Seq<char>,
    r: int,
)
    requires
        hits_distinct(st0.hits),
    ensures
        hits_distinct(crate::audit::dup_rows(st0, rows, key, sheet, col, m, base, r).hits),
    decreases r,
{
    if !(r <= 0 || r <= m.data_start_row - 1) {
        lemma_dup_rows_distinct(st0, rows, key, sheet, col, m, base, r - 1);
        let st = crate::audit::dup_rows(st0, rows, key, sheet, col, m, base, r - 1);
        let cell = clean(cell_at(rows, r - 1, col_index(col)));
        let row = (r + m.row_offset) as i32;
        if cell.len() > 0 {
            if let Some(u) = username_key(cell) {
                let mal = crate::audit::make_hit(m.category, base, sheet, col, row, cell, u, "malformed_cell"@);
                let sim = crate::audit::make_hit(m.category, base, sheet, col, row, cell, u, "similar_username"@);
                lemma_add_hit_distinct(st.hits, mal);
                lemma_add_hit_distinct(st.hits, sim);
                lemma_add_hit_distinct(crate::audit::add_hit(st.hits, sim), mal);
            }
        }
    }
}

proof fn lemma_dup_columns_distinct(
    tabs: Seq<(Seq<char>, Seq<Seq<Seq<char>>>)>,
    key: Seq<char>,
    cols: Seq<(Seq<char>, Seq<char>)>,
)
    ensures
        hits_distinct(crate::audit::dup_columns(tabs, key, cols).hits),
    decreases cols.len(),
{
    if cols.len() > 0 {
        lemma_dup_columns_distinct(tabs, key, cols.drop_last());
        let st = crate::audit::dup_columns(tabs, key, cols.drop_last());
        let sheet = cols.last().0;
        let col = cols.last().1;
        if let Some(m) = meta_of(sheet) {
            if let Some(rows) = rows_of(tabs, sheet) {
                let base = column_base(rows, m, col);
                lemma_dup_rows_distinct(st, rows, key, sheet, col, m, base, rows.len() as int);
            }
        }
    }
}

proof fn lemma_entry_hits_distinct(
    hits: Seq<crate::types::DuplicateHitView>,
    es: Seq<(i32, Seq<char>, Seq<char>)>,
    category: Seq<char>,
    base: Seq<char>,
    sheet: Seq<char>,
    col: Seq<char>,
    reason: Seq<char>,
    n: int,
)
    requires
        hits_distinct(hits),
    ensures
        hits_distinct(crate::audit::entry_hits(hits, es, category, base, sheet, col, reason, n)),
    decreases n,
{
    if n > 0 {
        lemma_entry_hits_distinct(hits, es, category, base, sheet, col, reason, n - 1);
        lemma_add_hit_distinct(
            crate::audit::entry_hits(hits, es, category, base, sheet, col, reason, n - 1),
            crate::audit::make_hit(category, base, sheet, col, es[n - 1].0, es[n - 1].1, es[n - 1].2, reason),
        );
    }
}

proof fn lemma_all_group_hits_distinct(
    hits: Seq<crate::types::DuplicateHitView>,
    exact: Seq<((Seq<char>, Seq<char>, Seq<char>, Seq<char>), Seq<(i32, Seq<char>, Seq<char>)>)>,
    n: int,
)
    requires
        hits_distinct(hits),
    ensures
        hits_distinct(crate::audit::all_group_hits(hits, exact, n)),
    decreases n,
{
    if n > 0 {
        lemma_all_group_hits_distinct(hits, exact, n - 1);
        let h = crate::audit::all_group_hits(hits, exact, n - 1);
        let k = exact[n - 1].0;
        let es = exact[n - 1].1;
        if es.len() >= 2 {
            let reason = if crate::audit::identical_cells(es) {
                "duplicate_identical"@
            } else {
                "duplicate_conflict"@
            };
            lemma_entry_hits_distinct(h, es, k.2, k.3, k.0, k.1, reason, es.len() as int);
        }
    }
}

proof fn lemma_insert_sorted_is_insert<V>(s: Seq<V>, x: V, le: spec_fn(V, V) -> bool)
    ensures
        exists|k: int| 0 <= k <= s.len() && #[trigger] crate::sort::insert_sorted(s, x, le) == s.insert(k, x),
    decreases s.len(),
{
    if s.len() == 0 {
        assert(crate::sort::insert_sorted(s, x, le) == s.insert(0, x));
    } else if le(s.last(), x) {
        assert(crate::sort::insert_sorted(s, x, le) == s.insert(s.len() as int, x));
    } else {
        let d = s.drop_last();
        lemma_insert_sorted_is_insert(d, x, le);
        let k = choose|k: int| 0 <= k <= d.len() && #[trigger] crate::sort::insert_sorted(d, x, le) == d.insert(k, x);
        assert(d.insert(k, x).push(s.last()) =~= s.insert(k, x));
        assert(crate::sort::insert_sorted(s, x, le) == s.insert(k, x));
    }
}

proof fn lemma_sorted_hits_distinct(s: Seq<crate::types::DuplicateHitView>, le: spec_fn(crate::types::DuplicateHitView, crate::types::DuplicateHitView) -> bool)
    requires
        hits_distinct(s),
    ensures
        hits_distinct(crate::sort::sorted_stable(s, le)),
    decreases s.len(),
{
    if s.len() > 0 {
        let d = s.drop_last();
        let x = s.last();
        assert(hits_distinct(d)) by {
            assert forall|i: int, j: int| 0 <= i < j < d.len() implies !crate::audit::same_hit(#[trigger] d[i], #[trigger] d[j]) by {
                assert(d[i] == s[i] && d[j] == s[j]);
            }
        }
        lemma_sorted_hits_distinct(d, le);
        let p = crate::sort::sorted_stable(d, le);
        crate::sort::lemma_sorted_members(d, le);
        lemma_insert_sorted_is_insert(p, x, le);
        let k = choose|k: int| 0 <= k <= p.len() && #[trigger] crate::sort::insert_sorted(p, x, le) == p.insert(k, x);
        let r = p.insert(k, x);
        assert forall|i: int| 0 <= i < p.len() implies !crate::audit::same_hit(#[trigger] p[i], x) by {
            assert(d.contains(p[i]));
            let q = choose|q: int| 0 <= q < d.len() && d[q] == p[i];
            assert(s[q] == p[i]);
            assert(s[s.len() - 1] == x);
        }
        assert forall|i: int, j: int| 0 <= i < j < r.len() implies !crate::audit::same_hit(#[trigger] r[i], #[trigger] r[j]) by {
            if i < k && j < k {
                assert(r[i] == p[i] && r[j] == p[j]);
            } else if i < k && j == k {
                assert(r[i] == p[i] && r[j] == x);
            } else if i < k {
                assert(r[i] == p[i] && r[j] == p[j - 1]);
            } else if i == k {
                assert(r[i] == x && r[j] == p[j - 1]);
                assert(!crate::audit::same_hit(p[j - 1], x));
            } else {
                assert(r[i] == p[i - 1] && r[j] == p[j - 1]);
            }
        }
    }
}

/// The problems found around a member flag each cell at most once for each
/// reason.
pub proof fn law_duplicate_hits_once_per_cell_and_reason(
    tabs: Seq<(Seq<char>, Seq<Seq<Seq<char>>>)>,
    cols: Seq<(Seq<char>, Seq<char>)>,
    username: Seq<char>,
)
    ensures
        hits_distinct(crate::audit::duplicates_for(tabs, cols, username)),
{
    let key = crate::index::lookup_key(username);
    if key.len() > 0 {
        let st = crate::audit::dup_columns(tabs, key, cols);
        lemma_dup_columns_distinct(tabs, key, cols);
        lemma_all_group_hits_distinct(st.hits, st.exact, st.exact.len() as int);
        lemma_sorted_hits_distinct(
            crate::audit::all_group_hits(st.hits, st.exact, st.exact.len() as int),
            crate::sort::order_of::<crate::types::DuplicateHit, crate::audit::HitOrder>(),
        );
    }
}

// ---------------------------------------------------------------------------
// One duplicate group per column and member
// ---------------------------------------------------------------------------

/// The rows (row number and cell) of member `u` among a column's member cells,
/// in order.
pub open spec fn rows_for(recs: Seq<(i32, Seq<char>, Seq<char>)>, u: Seq<char>) -> Seq<(i32, Seq<char>)>
    decreases recs.len(),
{
    if recs.len() == 0 {
        seq![]
    } else if recs.last().2 == u {
        rows_for(recs.drop_last(), u).push((recs.last().0, recs.last().1))
    } else {
        rows_for(recs.drop_last(), u)
    }
}

/// No key occurs twice.
pub open spec fn firsts_distinct<K, V>(m: Seq<(K, V)>) -> bool {
    forall|i: int, j: int| #![trigger m[i], m[j]] 0 <= i < j < m.len() ==> m[i].0 != m[j].0
}

pub(crate) proof fn lemma_add_to_shape<K, V>(m: Seq<(K, Seq<V>)>, k: K, v: V)
    requires
        firsts_distinct(m),
    ensures
        firsts_distinct(crate::audit::add_to(m, k, v)),
        m.len() <= crate::audit::add_to(m, k, v).len() <= m.len() + 1,
        forall|i: int| 0 <= i < m.len() ==> (#[trigger] crate::audit::add_to(m, k, v)[i]).0 == m[i].0,
        forall|i: int| 0 <= i < m.len() && m[i].0 != k ==> #[trigger] crate::audit::add_to(m, k, v)[i] == m[i],
        forall|i: int| 0 <= i < m.len() && m[i].0 == k ==> #[trigger] crate::audit::add_to(m, k, v)[i] == (k, m[i].1.push(v)),
        crate::audit::add_to(m, k, v).len() == m.len() + 1 ==> (forall|i: int| 0 <= i < m.len() ==> m[i].0 != k)
            && crate::audit::add_to(m, k, v)[m.len() as int] == (k, seq![v]),
        exists|i: int| 0 <= i < crate::audit::add_to(m, k, v).len() && (#[trigger] crate::audit::add_to(m, k, v)[i]).0 == k,
{
    lemma_key_pos(m, k);
    let r = crate::audit::add_to(m, k, v);
    match key_pos(m, k) {
        Some(p) => {
            assert forall|i: int| 0 <= i < m.len() && m[i].0 == k implies #[trigger] r[i] == (k, m[i].1.push(v)) by {
                if i != p {
                    if i < p {
                        assert(m[i].0 != k);
                    } else {
                        assert(m[p].0 != m[i].0);
                    }
                }
            }
            assert(r[p].0 == k);
        },
        None => {
            assert(r[m.len() as int].0 == k);
        },
    }
    assert forall|i: int, j: int| #![trigger r[i], r[j]] 0 <= i < j < r.len() implies r[i].0 != r[j].0 by {
        if j < m.len() {
            assert(r[i].0 == m[i].0 && r[j].0 == m[j].0);
        } else {
            assert(r[i].0 == m[i].0);
        }
    }
}

/// Grouping a column's cells by member gives one entry per member, holding
/// exactly that member's rows in order.
proof fn lemma_user_groups(recs: Seq<(i32, Seq<char>, Seq<char>)>)
    ensures
        firsts_distinct(crate::audit::user_groups(recs)),
        forall|i: int|
            0 <= i < crate::audit::user_groups(recs).len() ==> (#[trigger] crate::audit::user_groups(recs)[i]).1
                == rows_for(recs, crate::audit::user_groups(recs)[i].0),
        forall|u: Seq<char>|
            #[trigger] rows_for(recs, u).len() > 0 ==> exists|i: int|
                0 <= i < crate::audit::user_groups(recs).len() && (#[trigger] crate::audit::user_groups(recs)[i]).0 == u,
    decreases recs.len(),
{
    if recs.len() > 0 {
        let d = recs.drop_last();
        lemma_user_groups(d);
        let m = crate::audit::user_groups(d);
        let e = recs.last();
        let v = (e.0, e.1);
        lemma_add_to_shape(m, e.2, v);
        let r = crate::audit::user_groups(recs);
        assert(r == crate::audit::add_to(m, e.2, v));
        assert forall|i: int| 0 <= i < r.len() implies (#[trigger] r[i]).1 == rows_for(recs, r[i].0) by {
            if i < m.len() {
                if m[i].0 == e.2 {
                    assert(r[i] == (e.2, m[i].1.push(v)));
                } else {
                    assert(r[i] == m[i]);
                }
            } else {
                assert(r[i] == (e.2, seq![v]));
                if rows_for(d, e.2).len() > 0 {
                    let q = choose|q: int| 0 <= q < m.len() && (#[trigger] m[q]).0 == e.2;
                    assert(false);
                }
                assert(rows_for(d, e.2).push(v) =~= seq![v]);
            }
        }
        assert forall|u: Seq<char>| #[trigger] rows_for(recs, u).len() > 0 implies exists|i: int|
            0 <= i < r.len() && (#[trigger] r[i]).0 == u by {
            if u != e.2 {
                assert(rows_for(recs, u) == rows_for(d, u));
                assert(rows_for(d, u).len() > 0);
                let q = choose|q: int| 0 <= q < m.len() && (#[trigger] m[q]).0 == u;
                assert(r[q].0 == u);
            }
        }
    }
}

/// The duplicate group a column key `k` and member `u` with rows `rows` stand
/// for: identical when every cell reads the same ignoring ASCII case.
pub open spec fn group_for(k: (Seq<char>, Seq<char>, Seq<char>), u: Seq<char>, rows: Seq<(i32, Seq<char>)>) -> crate::audit::GroupView {
    crate::audit::GroupView {
        user: u,
        sheet: k.0,
        col: k.1,
        base_name: k.2,
        kind: if crate::audit::identical_rows(rows) {
            "identical"@
        } else {
            "conflict"@
        },
        rows,
    }
}

/// What names a duplicate group: its column and its member.
pub open spec fn group_key(g: crate::audit::GroupView) -> (Seq<char>, Seq<char>, Seq<char>, Seq<char>) {
    (g.sheet, g.col, g.base_name, g.user)
}

pub(crate) proof fn lemma_firsts_key_pos<K, V>(m: Seq<(K, V)>, p: int)
    requires
        firsts_distinct(m),
        0 <= p < m.len(),
    ensures
        key_pos(m, m[p].0) == Some(p),
{
    assert forall|j: int| 0 <= j < p implies m[j].0 != m[p].0 by {
        assert(m[j].0 != m[p].0);
    }
    lemma_key_pos_unique(m, m[p].0, p);
}

#[verifier::spinoff_prover]
proof fn lemma_col_groups(
    gs: Seq<crate::audit::GroupView>,
    k: (Seq<char>, Seq<char>, Seq<char>),
    ug: Seq<(Seq<char>, Seq<(i32, Seq<char>)>)>,
    n: int,
)
    requires
        0 <= n <= ug.len(),
        firsts_distinct(ug),
    ensures
        crate::audit::col_groups(gs, k, ug, n).len() >= gs.len(),
        forall|i: int| 0 <= i < gs.len() ==> #[trigger] crate::audit::col_groups(gs, k, ug, n)[i] == gs[i],
        forall|i: int|
            gs.len() <= i < crate::audit::col_groups(gs, k, ug, n).len() ==> (key_pos(
                ug,
                (#[trigger] crate::audit::col_groups(gs, k, ug, n)[i]).user,
            ) matches Some(p) && p < n && ug[p].1.len() >= 2 && crate::audit::col_groups(gs, k, ug, n)[i]
                == group_for(k, ug[p].0, ug[p].1)),
        forall|p: int|
            0 <= p < n && (#[trigger] ug[p]).1.len() >= 2 ==> crate::audit::col_groups(gs, k, ug, n).contains(
                group_for(k, ug[p].0, ug[p].1),
            ),
    decreases n,
{
    if n > 0 {
        lemma_col_groups(gs, k, ug, n - 1);
        let prev = crate::audit::col_groups(gs, k, ug, n - 1);
        let g = crate::audit::col_groups(gs, k, ug, n);
        let e = ug[n - 1];
        lemma_firsts_key_pos(ug, n - 1);
        if e.1.len() >= 2 {
            let x = group_for(k, e.0, e.1);
            assert(g == prev.push(x));
            assert(g[prev.len() as int] == x);
            assert forall|p: int| 0 <= p < n && (#[trigger] ug[p]).1.len() >= 2 implies g.contains(
                group_for(k, ug[p].0, ug[p].1),
            ) by {
                if p < n - 1 {
                    let i = choose|i: int| 0 <= i < prev.len() && prev[i] == group_for(k, ug[p].0, ug[p].1);
                    assert(g[i] == prev[i]);
                }
            }
        } else {
            assert(g == prev);
        }
    }
}

/// In one column's groups, no member has two.
proof fn lemma_col_groups_users(
    gs: Seq<crate::audit::GroupView>,
    k: (Seq<char>, Seq<char>, Seq<char>),
    ug: Seq<(Seq<char>, Seq<(i32, Seq<char>)>)>,
    n: int,
)
    requires
        0 <= n <= ug.len(),
        firsts_distinct(ug),
    ensures
        forall|i: int, j: int|
            gs.len() <= i < j < crate::audit::col_groups(gs, k, ug, n).len() ==> (#[trigger] crate::audit::col_groups(
                gs,
                k,
                ug,
                n,
            )[i]).user != (#[trigger] crate::audit::col_groups(gs, k, ug, n)[j]).user,
        forall|i: int|
            gs.len() <= i < crate::audit::col_groups(gs, k, ug, n).len() ==> (key_pos(
                ug,
                (#[trigger] crate::audit::col_groups(gs, k, ug, n)[i]).user,
            ) matches Some(p) && p < n),
    decreases n,
{
    lemma_col_groups(gs, k, ug, n);
    if n > 0 {
        lemma_col_groups_users(gs, k, ug, n - 1);
        lemma_col_groups(gs, k, ug, n - 1);
        let prev = crate::audit::col_groups(gs, k, ug, n - 1);
        let g = crate::audit::col_groups(gs, k, ug, n);
        lemma_firsts_key_pos(ug, n - 1);
        if ug[n - 1].1.len() >= 2 {
            assert(g == prev.push(group_for(k, ug[n - 1].0, ug[n - 1].1)));
            assert forall|i: int, j: int| gs.len() <= i < j < g.len() implies (#[trigger] g[i]).user != (#[trigger] g[j]).user by {
                assert(g[i] == prev[i]);
                if j < prev.len() {
                    assert(g[j] == prev[j]);
                } else {
                    assert(g[j].user == ug[n - 1].0);
                }
            }
        } else {
            assert(g == prev);
        }
    }
}

/// The column a group belongs to.
pub open spec fn group_column(g: crate::audit::GroupView) -> (Seq<char>, Seq<char>, Seq<char>) {
    (g.sheet, g.col, g.base_name)
}

/// Duplicate groups in first-found order: each belongs to a scanned column
/// and holds exactly its member's rows there, at least two; every member with
/// two or more rows in a scanned column has its group; and no column and
/// member have two groups.
#[verifier::spinoff_prover]
proof fn lemma_all_groups(
    by_col: Seq<((Seq<char>, Seq<char>, Seq<char>), Seq<(i32, Seq<char>, Seq<char>)>)>,
    n: int,
)
    requires
        0 <= n <= by_col.len(),
        firsts_distinct(by_col),
    ensures
        forall|i: int|
            0 <= i < crate::audit::all_groups(by_col, n).len() ==> (key_pos(
                by_col,
                group_column(#[trigger] crate::audit::all_groups(by_col, n)[i]),
            ) matches Some(c) && c < n && rows_for(by_col[c].1, crate::audit::all_groups(by_col, n)[i].user).len() >= 2
                && crate::audit::all_groups(by_col, n)[i] == group_for(
                by_col[c].0,
                crate::audit::all_groups(by_col, n)[i].user,
                rows_for(by_col[c].1, crate::audit::all_groups(by_col, n)[i].user),
            )),
        forall|c: int, u: Seq<char>|
            0 <= c < n && #[trigger] rows_for(by_col[c].1, u).len() >= 2 ==> crate::audit::all_groups(by_col, n).contains(
                group_for(by_col[c].0, u, rows_for(by_col[c].1, u)),
            ),
        forall|i: int, j: int|
            0 <= i < j < crate::audit::all_groups(by_col, n).len() ==> group_key(
                #[trigger] crate::audit::all_groups(by_col, n)[i],
            ) != group_key(#[trigger] crate::audit::all_groups(by_col, n)[j]),
    decreases n,
{
    if n > 0 {
        lemma_all_groups(by_col, n - 1);
        let prev = crate::audit::all_groups(by_col, n - 1);
        let k = by_col[n - 1].0;
        let recs = by_col[n - 1].1;
        let ug = crate::audit::user_groups(recs);
        let g = crate::audit::all_groups(by_col, n);
        assert(g == crate::audit::col_groups(prev, k, ug, ug.len() as int));
        lemma_user_groups(recs);
        lemma_col_groups(prev, k, ug, ug.len() as int);
        lemma_col_groups_users(prev, k, ug, ug.len() as int);
        lemma_firsts_key_pos(by_col, n - 1);
        assert forall|i: int| 0 <= i < g.len() implies (key_pos(by_col, group_column(#[trigger] g[i])) matches Some(c)
            && c < n && rows_for(by_col[c].1, g[i].user).len() >= 2 && g[i] == group_for(
            by_col[c].0,
            g[i].user,
            rows_for(by_col[c].1, g[i].user),
        )) by {
            if i < prev.len() {
                assert(g[i] == prev[i]);
            } else {
                let cg = crate::audit::col_groups(prev, k, ug, ug.len() as int);
                assert(cg[i] == g[i]);
                lemma_key_pos(ug, g[i].user);
                if let Some(p) = key_pos(ug, cg[i].user) {
                    assert(ug[p].1 == rows_for(recs, ug[p].0));
                    assert(group_column(g[i]) == k);
                }
            }
        }
        assert forall|c: int, u: Seq<char>| 0 <= c < n && #[trigger] rows_for(by_col[c].1, u).len() >= 2 implies g.contains(
            group_for(by_col[c].0, u, rows_for(by_col[c].1, u)),
        ) by {
            if c < n - 1 {
                let i = choose|i: int| 0 <= i < prev.len() && prev[i] == group_for(by_col[c].0, u, rows_for(by_col[c].1, u));
                assert(g[i] == prev[i]);
            } else {
                let p = choose|p: int| 0 <= p < ug.len() && (#[trigger] ug[p]).0 == u;
                assert(ug[p].1 == rows_for(recs, ug[p].0));
                assert(ug[p].1.len() >= 2);
            }
        }
        assert forall|i: int, j: int| 0 <= i < j < g.len() implies group_key(#[trigger] g[i]) != group_key(#[trigger] g[j]) by {
            if j < prev.len() {
                assert(g[i] == prev[i] && g[j] == prev[j]);
            } else if i < prev.len() {
                assert(g[i] == prev[i]);
                assert(group_column(g[j]) == k);
                assert(key_pos(by_col, group_column(g[i])) != Some(n - 1));
            } else {
                assert(group_column(g[i]) == k && group_column(g[j]) == k);
                assert(g[i].user != g[j].user);
            }
        }
    }
}

proof fn lemma_audit_rows_distinct(
    st0: crate::audit::AuditScan,
    rows: Seq<Seq<Seq<char>>>,
    sheet: Seq<char>,
    col: Seq<char>,
    m: SheetMetaView,
    base: Seq<char>,
    r: int,
)
    requires
        firsts_distinct(st0.by_col),
    ensures
        firsts_distinct(crate::audit::audit_rows(st0, rows, sheet, col, m, base, r).by_col),
    decreases r,
{
    if !(r <= 0 || r <= m.data_start_row - 1) {
        lemma_audit_rows_distinct(st0, rows, sheet, col, m, base, r - 1);
        let st = crate::audit::audit_rows(st0, rows, sheet, col, m, base, r - 1);
        let raw = cell_at(rows, r - 1, col_index(col));
        let cell = clean(raw);
        if let Some(u) = username_key(cell) {
            lemma_add_to_shape(st.by_col, (sheet, col, base), ((r + m.row_offset) as i32, cell, u));
        }
    }
}

/// The scan files each column's member cells under one entry.
proof fn lemma_audit_columns_distinct(tabs: Seq<(Seq<char>, Seq<Seq<Seq<char>>>)>, cols: Seq<(Seq<char>, Seq<char>)>)
    ensures
        firsts_distinct(crate::audit::audit_columns(tabs, cols).by_col),
    decreases cols.len(),
{
    if cols.len() > 0 {
        lemma_audit_columns_distinct(tabs, cols.drop_last());
        let st = crate::audit::audit_columns(tabs, cols.drop_last());
        let sheet = cols.last().0;
        let col = cols.last().1;
        if let Some(m) = meta_of(sheet) {
            if let Some(rows) = rows_of(tabs, sheet) {
                let base = column_base(rows, m, col);
                lemma_audit_rows_distinct(st, rows, sheet, col, m, base, rows.len() as int);
            }
        }
    }
}

/// Sorting keeps every element.
pub(crate) proof fn lemma_sorted_keeps<V>(s: Seq<V>, le: spec_fn(V, V) -> bool)
    ensures
        forall|i: int| 0 <= i < s.len() ==> crate::sort::sorted_stable(s, le).contains(#[trigger] s[i]),
    decreases s.len(),
{
    if s.len() > 0 {
        let d = s.drop_last();
        lemma_sorted_keeps(d, le);
        let p = crate::sort::sorted_stable(d, le);
        lemma_insert_sorted_is_insert(p, s.last(), le);
        let k = choose|k: int| 0 <= k <= p.len() && #[trigger] crate::sort::insert_sorted(p, s.last(), le) == p.insert(k, s.last());
        let r = p.insert(k, s.last());
        assert forall|i: int| 0 <= i < s.len() implies crate::sort::sorted_stable(s, le).contains(#[trigger] s[i]) by {
            if i == s.len() - 1 {
                assert(r[k] == s.last());
            } else {
                assert(d[i] == s[i]);
                assert(p.contains(d[i]));
                let j = choose|j: int| 0 <= j < p.len() && p[j] == d[i];
                if j < k {
                    assert(r[j] == p[j]);
                } else {
                    assert(r[j + 1] == p[j]);
                }
            }
        }
    }
}

/// Sorting keeps the values of `key` distinct.
proof fn lemma_sorted_keys_distinct<V, K>(s: Seq<V>, le: spec_fn(V, V) -> bool, key: spec_fn(V) -> K)
    requires
        forall|i: int, j: int| 0 <= i < j < s.len() ==> key(#[trigger] s[i]) != key(#[trigger] s[j]),
    ensures
        forall|i: int, j: int|
            0 <= i < j < crate::sort::sorted_stable(s, le).len() ==> key(#[trigger] crate::sort::sorted_stable(s, le)[i])
                != key(#[trigger] crate::sort::sorted_stable(s, le)[j]),
    decreases s.len(),
{
    if s.len() > 0 {
        let d = s.drop_last();
        let x = s.last();
        assert forall|i: int, j: int| 0 <= i < j < d.len() implies key(#[trigger] d[i]) != key(#[trigger] d[j]) by {
            assert(d[i] == s[i] && d[j] == s[j]);
        }
        lemma_sorted_keys_distinct(d, le, key);
        let p = crate::sort::sorted_stable(d, le);
        crate::sort::lemma_sorted_members(d, le);
        lemma_insert_sorted_is_insert(p, x, le);
        let k = choose|k: int| 0 <= k <= p.len() && #[trigger] crate::sort::insert_sorted(p, x, le) == p.insert(k, x);
        let r = p.insert(k, x);
        assert forall|i: int| 0 <= i < p.len() implies key(#[trigger] p[i]) != key(x) by {
            assert(d.contains(p[i]));
            let q = choose|q: int| 0 <= q < d.len() && d[q] == p[i];
            assert(s[q] == p[i]);
            assert(s[s.len() - 1] == x);
        }
        assert forall|i: int, j: int| 0 <= i < j < r.len() implies key(#[trigger] r[i]) != key(#[trigger] r[j]) by {
            if i < k && j < k {
                assert(r[i] == p[i] && r[j] == p[j]);
            } else if i < k && j == k {
                assert(r[i] == p[i] && r[j] == x);
            } else if i < k {
                assert(r[i] == p[i] && r[j] == p[j - 1]);
            } else if i == k {
                assert(r[i] == x && r[j] == p[j - 1]);
            } else {
                assert(r[i] == p[i - 1] && r[j] == p[j - 1]);
            }
        }
    }
}

/// The audit's duplicate groups are exactly one per award column and member
/// with two or more member cells there: every group holds all of its member's
/// rows in that column (at least two, in sheet order) and is identical when
/// they all read the same ignoring ASCII case, else conflicting; every such
/// column and member has a group; and no column and member have two.
pub proof fn law_one_group_per_column_and_member(
    tabs: Seq<(Seq<char>, Seq<Seq<Seq<char>>>)>,
    cols: Seq<(Seq<char>, Seq<char>)>,
)
    ensures
        ({
            let scan = crate::audit::audit_columns(tabs, cols).by_col;
            let groups = crate::audit::sheet_audit(tabs, cols).groups;
            &&& forall|i: int|
                0 <= i < groups.len() ==> (key_pos(scan, group_column(#[trigger] groups[i])) matches Some(c)
                    && rows_for(scan[c].1, groups[i].user).len() >= 2 && groups[i] == group_for(
                    scan[c].0,
                    groups[i].user,
                    rows_for(scan[c].1, groups[i].user),
                ))
            &&& forall|c: int, u: Seq<char>|
                0 <= c < scan.len() && #[trigger] rows_for(scan[c].1, u).len() >= 2 ==> groups.contains(
                    group_for(scan[c].0, u, rows_for(scan[c].1, u)),
                )
            &&& forall|i: int, j: int| 0 <= i < j < groups.len() ==> group_key(#[trigger] groups[i]) != group_key(#[trigger] groups[j])
        }),
{
    let scan = crate::audit::audit_columns(tabs, cols).by_col;
    let n = scan.len() as int;
    let all = crate::audit::all_groups(scan, n);
    let le = crate::sort::order_of::<crate::audit::AuditDuplicateGroup, crate::audit::GroupOrder>();
    let groups = crate::audit::sheet_audit(tabs, cols).groups;
    assert(groups == crate::sort::sorted_stable(all, le));
    lemma_audit_columns_distinct(tabs, cols);
    lemma_all_groups(scan, n);
    crate::sort::lemma_sorted_members(all, le);
    lemma_sorted_keeps(all, le);
    lemma_sorted_keys_distinct(all, le, |g: crate::audit::GroupView| group_key(g));
    assert forall|i: int| 0 <= i < groups.len() implies (key_pos(scan, group_column(#[trigger] groups[i])) matches Some(c)
        && rows_for(scan[c].1, groups[i].user).len() >= 2 && groups[i] == group_for(
        scan[c].0,
        groups[i].user,
        rows_for(scan[c].1, groups[i].user),
    )) by {
        assert(all.contains(groups[i]));
        let q = choose|q: int| 0 <= q < all.len() && all[q] == groups[i];
        assert(key_pos(scan, group_column(all[q])) is Some);
    }
    assert forall|c: int, u: Seq<char>| 0 <= c < scan.len() && #[trigger] rows_for(scan[c].1, u).len() >= 2 implies groups.contains(
        group_for(scan[c].0, u, rows_for(scan[c].1, u)),
    ) by {
        assert(all.contains(group_for(scan[c].0, u, rows_for(scan[c].1, u))));
        let q = choose|q: int| 0 <= q < all.len() && all[q] == group_for(scan[c].0, u, rows_for(scan[c].1, u));
        assert(groups.contains(all[q]));
    }
    assert forall|i: int, j: int| 0 <= i < j < groups.len() implies group_key(#[trigger] groups[i]) != group_key(#[trigger] groups[j]) by {
        let key = |g: crate::audit::GroupView| group_key(g);
        assert(key(groups[i]) != key(groups[j]));
    }
}

/// The audit report's text opens with its title and the `Generated:` line and
/// closes with `End of report.` and a newline.
pub proof fn law_audit_report_text_bounds(r: crate::audit::ReportView, g: Seq<char>)
    ensures
        crate::text::starts_with(
            crate::audit::audit_report_text(r, g),
            "Decorations Database — duplicate audit"@ + "\n"@ + "Generated: "@ + g + "\n"@,
        ),
        crate::text::ends_with(crate::audit::audit_report_text(r, g), "\nEnd of report.\n"@),
{
    law_audit_report_shape(r, g, r, g);
    let lines = crate::audit::report_lines(r, g);
    let text = crate::audit::audit_report_text(r, g);
    let nl = "\n"@;
    let head = "Decorations Database — duplicate audit"@ + nl + "Generated: "@ + g + nl;
    assert(lines[0] == crate::audit::summary_lines(r, g)[0]);
    assert(lines[0] == "Decorations Database — duplicate audit"@);
    let rest = crate::text::join(lines.skip(2), nl);
    assert(text == head + rest);
    assert(text.subrange(0, head.len() as int) =~= head);
    let j = crate::text::join(lines.take(lines.len() - 2), nl);
    let tail = "\nEnd of report.\n"@;
    reveal_strlit("\nEnd of report.\n");
    reveal_strlit("\n");
    reveal_strlit("End of report.");
    assert(nl + "End of report."@ + nl =~= tail);
    assert(text == j + tail);
    assert(text.subrange(text.len() - tail.len(), text.len() as int) =~= tail);
}

} // verus!
