//! The records the library works on, their views, and the keyed collections that
//! hold them.
use vstd::prelude::*;
use crate::text::{copy_string, owned, str_eq};

verus! {

/// One award held by a member: where it sits on the sheet and how it reads.
#[derive(Debug, PartialEq, Eq)]
pub struct Award {
    pub category: String,
    pub name: String,
    pub sheet: String,
    pub col: String,
    pub row: i32,
    pub cell: String,
    pub base_name: String,
}

pub struct AwardView {
    pub category: Seq<char>,
    pub name: Seq<char>,
    pub sheet: Seq<char>,
    pub col: Seq<char>,
    pub row: i32,
    pub cell: Seq<char>,
    pub base_name: Seq<char>,
}

impl View for Award {
    type V = AwardView;

    open spec fn view(&self) -> AwardView {
        AwardView {
            category: self.category@,
            name: self.name@,
            sheet: self.sheet@,
            col: self.col@,
            row: self.row,
            cell: self.cell@,
            base_name: self.base_name@,
        }
    }
}

impl Clone for Award {
    fn clone(&self) -> (r: Self)
        ensures
            r == *self,
    {
        Award {
            category: self.category.clone(),
            name: self.name.clone(),
            sheet: self.sheet.clone(),
            col: self.col.clone(),
            row: self.row,
            cell: self.cell.clone(),
            base_name: self.base_name.clone(),
        }
    }
}

pub open spec fn awards_view(s: Seq<Award>) -> Seq<AwardView> {
    s.map_values(|a: Award| a@)
}

impl Award {
    /// An award with a category and display name and no sheet location.
    pub fn new(category: &str, name: &str) -> (r: Award)
        ensures
            r@ == (AwardView {
                category: category@,
                name: name@,
                sheet: Seq::empty(),
                col: Seq::empty(),
                row: 0,
                cell: Seq::empty(),
                base_name: Seq::empty(),
            }),
    {
        Award {
            category: owned(category),
            name: owned(name),
            sheet: String::new(),
            col: String::new(),
            row: 0,
            cell: String::new(),
            base_name: String::new(),
        }
    }

    /// The same award placed at `sheet`/`col`/`row`.
    pub fn with_location(self, sheet: &str, col: &str, row: i32) -> (r: Award)
        ensures
            r@ == (AwardView { sheet: sheet@, col: col@, row: row, ..self@ }),
    {
        let mut out = self;
        out.sheet = owned(sheet);
        out.col = owned(col);
        out.row = row;
        out
    }

    /// The same award with its raw cell text and column award name.
    pub fn with_cell(self, cell: &str, base_name: &str) -> (r: Award)
        ensures
            r@ == (AwardView { cell: cell@, base_name: base_name@, ..self@ }),
    {
        let mut out = self;
        out.cell = owned(cell);
        out.base_name = owned(base_name);
        out
    }
}

/// One award column of the catalog.
#[derive(Debug, PartialEq, Eq)]
pub struct AwardDef {
    pub category: String,
    pub sheet: String,
    pub col: String,
    pub base_name: String,
}

pub struct AwardDefView {
    pub category: Seq<char>,
    pub sheet: Seq<char>,
    pub col: Seq<char>,
    pub base_name: Seq<char>,
}

impl View for AwardDef {
    type V = AwardDefView;

    open spec fn view(&self) -> AwardDefView {
        AwardDefView {
            category: self.category@,
            sheet: self.sheet@,
            col: self.col@,
            base_name: self.base_name@,
        }
    }
}

impl Clone for AwardDef {
    fn clone(&self) -> (r: Self)
        ensures
            r == *self,
    {
        AwardDef {
            category: self.category.clone(),
            sheet: self.sheet.clone(),
            col: self.col.clone(),
            base_name: self.base_name.clone(),
        }
    }
}

pub open spec fn defs_view(s: Seq<AwardDef>) -> Seq<AwardDefView> {
    s.map_values(|d: AwardDef| d@)
}

/// One configured award column (`award_columns.json` entry).
#[derive(Debug, PartialEq, Eq)]
pub struct AwardColumn {
    pub sheet: String,
    pub col: String,
}

impl Clone for AwardColumn {
    fn clone(&self) -> (r: Self)
        ensures
            r == *self,
    {
        AwardColumn { sheet: self.sheet.clone(), col: self.col.clone() }
    }
}

/// A cell flagged for the looked-up member: a duplicate, a typo'd username or a
/// malformed cell. `reason` is one of `duplicate_identical`,
/// `duplicate_conflict`, `similar_username`, `malformed_cell`.
#[derive(Debug, PartialEq, Eq)]
pub struct DuplicateHit {
    pub category: String,
    pub base_name: String,
    pub sheet: String,
    pub col: String,
    pub row: i32,
    pub cell: String,
    pub cell_username: String,
    pub reason: String,
}

pub struct DuplicateHitView {
    pub category: Seq<char>,
    pub base_name: Seq<char>,
    pub sheet: Seq<char>,
    pub col: Seq<char>,
    pub row: i32,
    pub cell: Seq<char>,
    pub cell_username: Seq<char>,
    pub reason: Seq<char>,
}

impl View for DuplicateHit {
    type V = DuplicateHitView;

    open spec fn view(&self) -> DuplicateHitView {
        DuplicateHitView {
            category: self.category@,
            base_name: self.base_name@,
            sheet: self.sheet@,
            col: self.col@,
            row: self.row,
            cell: self.cell@,
            cell_username: self.cell_username@,
            reason: self.reason@,
        }
    }
}

impl Clone for DuplicateHit {
    fn clone(&self) -> (r: Self)
        ensures
            r == *self,
    {
        DuplicateHit {
            category: self.category.clone(),
            base_name: self.base_name.clone(),
            sheet: self.sheet.clone(),
            col: self.col.clone(),
            row: self.row,
            cell: self.cell.clone(),
            cell_username: self.cell_username.clone(),
            reason: self.reason.clone(),
        }
    }
}

pub open spec fn hits_view(s: Seq<DuplicateHit>) -> Seq<DuplicateHitView> {
    s.map_values(|h: DuplicateHit| h@)
}

/// What a pasted Discord request yields: the requester's username and the raw
/// requested-award text.
#[derive(Debug, PartialEq, Eq)]
pub struct ExtractedRequest {
    pub username: Option<String>,
    pub award_text: Option<String>,
}

pub open spec fn opt_view(o: Option<String>) -> Option<Seq<char>> {
    match o {
        Some(s) => Some(s@),
        None => None,
    }
}

impl Default for ExtractedRequest {
    fn default() -> (r: Self)
        ensures
            r.username is None,
            r.award_text is None,
    {
        ExtractedRequest { username: None, award_text: None }
    }
}

// ---------------------------------------------------------------------------
// Keyed collections
// ---------------------------------------------------------------------------

/// First position of `key` among the keys of `entries`.
pub open spec fn key_pos<K, V>(entries: Seq<(K, V)>, key: K) -> Option<int>
    decreases entries.len(),
{
    if entries.len() == 0 {
        None
    } else {
        match key_pos(entries.drop_last(), key) {
            Some(i) => Some(i),
            None => if entries.last().0 == key {
                Some(entries.len() - 1)
            } else {
                None
            },
        }
    }
}

pub proof fn lemma_key_pos<K, V>(entries: Seq<(K, V)>, key: K)
    ensures
        key_pos(entries, key) matches Some(i) ==> 0 <= i < entries.len() && entries[i].0 == key
            && forall|j: int| 0 <= j < i ==> entries[j].0 != key,
        key_pos(entries, key) is None ==> forall|j: int|
            0 <= j < entries.len() ==> entries[j].0 != key,
    decreases entries.len(),
{
    if entries.len() > 0 {
        let d = entries.drop_last();
        lemma_key_pos(d, key);
        assert forall|j: int| 0 <= j < d.len() implies d[j] == entries[j] by {}
    }
}

pub proof fn lemma_key_pos_unique<K, V>(entries: Seq<(K, V)>, key: K, i: int)
    requires
        0 <= i < entries.len(),
        entries[i].0 == key,
        forall|j: int| 0 <= j < i ==> entries[j].0 != key,
    ensures
        key_pos(entries, key) == Some(i),
{
    lemma_key_pos(entries, key);
}

/// No member is filed twice.
pub open spec fn keys_distinct(ix: Seq<(Seq<char>, Seq<AwardView>)>) -> bool {
    forall|i: int, j: int| #![trigger ix[i], ix[j]] 0 <= i < j < ix.len() ==> ix[i].0 != ix[j].0
}

/// Replacing an entry's bucket, or appending an entry whose key is absent,
/// keeps the keys distinct.
pub proof fn lemma_keys_distinct_kept(ix: Seq<(Seq<char>, Seq<AwardView>)>, k: Seq<char>, b: Seq<AwardView>)
    requires
        keys_distinct(ix),
    ensures
        keys_distinct(put_bucket(ix, k, b)),
        forall|i: int| 0 <= i < ix.len() ==> #[trigger] keys_distinct(ix.update(i, (ix[i].0, b))),
        forall|i: int| 0 <= i < ix.len() ==> #[trigger] keys_distinct(ix.remove(i)),
{
    lemma_key_pos(ix, k);
    let t = put_bucket(ix, k, b);
    assert forall|i: int, j: int| #![trigger t[i], t[j]] 0 <= i < j < t.len() implies t[i].0 != t[j].0 by {
        if j == ix.len() {
            assert(t[i] == ix[i]);
        } else if let Some(p) = key_pos(ix, k) {
            assert(t[i].0 == ix[i].0 && t[j].0 == ix[j].0);
        } else {
            assert(t[i] == ix[i] && t[j] == ix[j]);
        }
    }
    assert forall|p: int| 0 <= p < ix.len() implies #[trigger] keys_distinct(ix.update(p, (ix[p].0, b))) by {
        let u = ix.update(p, (ix[p].0, b));
        assert forall|i: int, j: int| #![trigger u[i], u[j]] 0 <= i < j < u.len() implies u[i].0 != u[j].0 by {
            assert(u[i].0 == ix[i].0 && u[j].0 == ix[j].0);
        }
    }
    assert forall|p: int| 0 <= p < ix.len() implies #[trigger] keys_distinct(ix.remove(p)) by {
        let u = ix.remove(p);
        assert forall|i: int, j: int| #![trigger u[i], u[j]] 0 <= i < j < u.len() implies u[i].0 != u[j].0 by {
            let a = if i < p { i } else { i + 1 };
            let c = if j < p { j } else { j + 1 };
            assert(u[i] == ix[a] && u[j] == ix[c]);
        }
    }
}

/// Awards by normalized username, in first-insertion order of the usernames.
#[derive(Debug, Clone)]
pub struct AwardIndex {
    entries: Vec<(String, Vec<Award>)>,
}

pub open spec fn entry_view(e: (String, Vec<Award>)) -> (Seq<char>, Seq<AwardView>) {
    (e.0@, awards_view(e.1@))
}

impl View for AwardIndex {
    type V = Seq<(Seq<char>, Seq<AwardView>)>;

    closed spec fn view(&self) -> Seq<(Seq<char>, Seq<AwardView>)> {
        self.entries@.map_values(|e: (String, Vec<Award>)| entry_view(e))
    }
}

/// The awards filed under `key` (empty when the key is absent).
pub open spec fn bucket_of(index: Seq<(Seq<char>, Seq<AwardView>)>, key: Seq<char>) -> Seq<AwardView> {
    match key_pos(index, key) {
        Some(i) => index[i].1,
        None => Seq::empty(),
    }
}

/// The index with `key`'s bucket replaced by `awards` (a new last entry when the
/// key is absent).
pub open spec fn put_bucket(
    index: Seq<(Seq<char>, Seq<AwardView>)>,
    key: Seq<char>,
    awards: Seq<AwardView>,
) -> Seq<(Seq<char>, Seq<AwardView>)> {
    match key_pos(index, key) {
        Some(i) => index.update(i, (key, awards)),
        None => index.push((key, awards)),
    }
}

impl AwardIndex {
    pub fn new() -> (r: AwardIndex)
        ensures
            r@ == Seq::<(Seq<char>, Seq<AwardView>)>::empty(),
            keys_distinct(r@),
    {
        let r = AwardIndex { entries: Vec::new() };
        assert(r@ =~= Seq::<(Seq<char>, Seq<AwardView>)>::empty());
        r
    }

    pub fn len(&self) -> (r: usize)
        ensures
            r == self@.len(),
    {
        self.entries.len()
    }

    pub fn key_at(&self, i: usize) -> (r: &String)
        requires
            i < self@.len(),
        ensures
            r@ == self@[i as int].0,
    {
        &self.entries[i].0
    }

    pub fn bucket_at(&self, i: usize) -> (r: &Vec<Award>)
        requires
            i < self@.len(),
        ensures
            awards_view(r@) == self@[i as int].1,
    {
        &self.entries[i].1
    }

    /// Position of `key` (first match).
    pub fn position(&self, key: &str) -> (r: Option<usize>)
        ensures
            match r {
                Some(i) => key_pos(self@, key@) == Some(i as int),
                None => key_pos(self@, key@) is None,
            },
    {
        let mut i: usize = 0;
        while i < self.entries.len()
            invariant
                i <= self.entries.len(),
                forall|j: int| 0 <= j < i ==> self@[j].0 != key@,
            decreases self.entries.len() - i,
        {
            if str_eq(self.entries[i].0.as_str(), key) {
                proof {
                    lemma_key_pos_unique(self@, key@, i as int);
                }
                return Some(i);
            }
            i += 1;
        }
        proof {
            lemma_key_pos(self@, key@);
        }
        None
    }

    pub fn contains_key(&self, key: &str) -> (r: bool)
        ensures
            r == (key_pos(self@, key@) is Some),
    {
        self.position(key).is_some()
    }

    pub fn get(&self, key: &str) -> (r: Option<&Vec<Award>>)
        ensures
            match r {
                Some(b) => key_pos(self@, key@) is Some && awards_view(b@) == bucket_of(self@, key@),
                None => key_pos(self@, key@) is None,
            },
    {
        proof {
            lemma_key_pos(self@, key@);
        }
        match self.position(key) {
            Some(i) => Some(&self.entries[i].1),
            None => None,
        }
    }

    /// Files `awards` under `key`, replacing any bucket already there.
    pub fn insert(&mut self, key: String, awards: Vec<Award>)
        ensures
            final(self)@ == put_bucket(old(self)@, key@, awards_view(awards@)),
            keys_distinct(old(self)@) ==> keys_distinct(final(self)@),
    {
        proof {
            lemma_key_pos(self@, key@);
            if keys_distinct(self@) {
                lemma_keys_distinct_kept(self@, key@, awards_view(awards@));
            }
        }
        match self.position(key.as_str()) {
            Some(i) => {
                let ghost k = key@;
                self.entries.set(i, (key, awards));
                assert(self@ =~= put_bucket(old(self)@, k, awards_view(awards@)));
            },
            None => {
                let ghost k = key@;
                let ghost a = awards_view(awards@);
                self.entries.push((key, awards));
                assert(self@ =~= put_bucket(old(self)@, k, a));
            },
        }
    }

    /// Replaces the bucket at position `i`.
    pub fn set_bucket(&mut self, i: usize, awards: Vec<Award>)
        requires
            i < old(self)@.len(),
        ensures
            final(self)@ == old(self)@.update(i as int, (old(self)@[i as int].0, awards_view(awards@))),
            keys_distinct(old(self)@) ==> keys_distinct(final(self)@),
    {
        proof {
            if keys_distinct(self@) {
                lemma_keys_distinct_kept(self@, self@[i as int].0, awards_view(awards@));
                assert(keys_distinct(self@.update(i as int, (self@[i as int].0, awards_view(awards@)))));
            }
        }
        let key = copy_string(&self.entries[i].0);
        self.entries.set(i, (key, awards));
        assert(self@ =~= old(self)@.update(i as int, (old(self)@[i as int].0, awards_view(awards@))));
    }

    /// Removes the entry at position `i`.
    pub fn remove_at(&mut self, i: usize)
        requires
            i < old(self)@.len(),
        ensures
            final(self)@ == old(self)@.remove(i as int),
            keys_distinct(old(self)@) ==> keys_distinct(final(self)@),
    {
        proof {
            if keys_distinct(self@) {
                lemma_keys_distinct_kept(self@, self@[i as int].0, Seq::empty());
                assert(keys_distinct(self@.remove(i as int)));
            }
        }
        self.entries.remove(i);
        assert(self@ =~= old(self)@.remove(i as int));
    }

    /// Appends a new entry (the caller knows `key` is absent).
    pub fn push_entry(&mut self, key: String, awards: Vec<Award>)
        ensures
            final(self)@ == old(self)@.push((key@, awards_view(awards@))),
            keys_distinct(old(self)@) && key_pos(old(self)@, key@) is None ==> keys_distinct(final(self)@),
    {
        let ghost e = (key@, awards_view(awards@));
        proof {
            if keys_distinct(self@) && key_pos(self@, key@) is None {
                lemma_keys_distinct_kept(self@, key@, e.1);
                assert(put_bucket(self@, key@, e.1) == self@.push(e));
            }
        }
        self.entries.push((key, awards));
        assert(self@ =~= old(self)@.push(e));
    }
}

/// Raw rows of each fetched tab, by tab name.
#[derive(Debug, Clone)]
pub struct SheetRows {
    entries: Vec<(String, Vec<Vec<String>>)>,
}

pub open spec fn cells_view(s: Seq<String>) -> Seq<Seq<char>> {
    s.map_values(|c: String| c@)
}

pub open spec fn row_view(r: Vec<String>) -> Seq<Seq<char>> {
    cells_view(r@)
}

pub open spec fn rows_view(rows: Seq<Vec<String>>) -> Seq<Seq<Seq<char>>> {
    rows.map_values(|r: Vec<String>| row_view(r))
}

impl View for SheetRows {
    type V = Seq<(Seq<char>, Seq<Seq<Seq<char>>>)>;

    closed spec fn view(&self) -> Seq<(Seq<char>, Seq<Seq<Seq<char>>>)> {
        self.entries@.map_values(|e: (String, Vec<Vec<String>>)| (e.0@, rows_view(e.1@)))
    }
}

/// The rows filed under `sheet`, if any.
pub open spec fn rows_of(tabs: Seq<(Seq<char>, Seq<Seq<Seq<char>>>)>, sheet: Seq<char>) -> Option<
    Seq<Seq<Seq<char>>>,
> {
    match key_pos(tabs, sheet) {
        Some(i) => Some(tabs[i].1),
        None => None,
    }
}

impl SheetRows {
    pub fn new() -> (r: SheetRows)
        ensures
            r@ == Seq::<(Seq<char>, Seq<Seq<Seq<char>>>)>::empty(),
    {
        let r = SheetRows { entries: Vec::new() };
        assert(r@ =~= Seq::<(Seq<char>, Seq<Seq<Seq<char>>>)>::empty());
        r
    }

    pub fn position(&self, sheet: &str) -> (r: Option<usize>)
        ensures
            match r {
                Some(i) => key_pos(self@, sheet@) == Some(i as int),
                None => key_pos(self@, sheet@) is None,
            },
    {
        let mut i: usize = 0;
        while i < self.entries.len()
            invariant
                i <= self.entries.len(),
                forall|j: int| 0 <= j < i ==> self@[j].0 != sheet@,
            decreases self.entries.len() - i,
        {
            if str_eq(self.entries[i].0.as_str(), sheet) {
                proof {
                    lemma_key_pos_unique(self@, sheet@, i as int);
                }
                return Some(i);
            }
            i += 1;
        }
        proof {
            lemma_key_pos(self@, sheet@);
        }
        None
    }

    pub fn get(&self, sheet: &str) -> (r: Option<&Vec<Vec<String>>>)
        ensures
            match r {
                Some(rows) => rows_of(self@, sheet@) == Some(rows_view(rows@)),
                None => rows_of(self@, sheet@) is None,
            },
    {
        proof {
            lemma_key_pos(self@, sheet@);
        }
        match self.position(sheet) {
            Some(i) => Some(&self.entries[i].1),
            None => None,
        }
    }

    /// Files `rows` under `sheet`, replacing what was there.
    pub fn insert(&mut self, sheet: String, rows: Vec<Vec<String>>)
        ensures
            final(self)@ == match key_pos(old(self)@, sheet@) {
                Some(i) => old(self)@.update(i, (sheet@, rows_view(rows@))),
                None => old(self)@.push((sheet@, rows_view(rows@))),
            },
    {
        let ghost e = (sheet@, rows_view(rows@));
        proof {
            lemma_key_pos(self@, sheet@);
        }
        match self.position(sheet.as_str()) {
            Some(i) => {
                self.entries.set(i, (sheet, rows));
                assert(self@ =~= old(self)@.update(i as int, e));
            },
            None => {
                self.entries.push((sheet, rows));
                assert(self@ =~= old(self)@.push(e));
            },
        }
    }

    /// Takes the rows filed under position `i` out, leaving an empty list there.
    pub fn take_rows(&mut self, i: usize) -> (r: Vec<Vec<String>>)
        requires
            i < old(self)@.len(),
        ensures
            rows_view(r@) == old(self)@[i as int].1,
            final(self)@ == old(self)@.update(i as int, (old(self)@[i as int].0, Seq::empty())),
    {
        let key = copy_string(&self.entries[i].0);
        let (_k, rows) = self.entries.remove(i);
        let empty: Vec<Vec<String>> = Vec::new();
        assert(rows_view(empty@) =~= Seq::<Seq<Seq<char>>>::empty());
        self.entries.insert(i, (key, empty));
        assert(self@ =~= old(self)@.update(i as int, (old(self)@[i as int].0, Seq::empty())));
        rows
    }

    /// Puts rows back at position `i`.
    pub fn put_rows(&mut self, i: usize, rows: Vec<Vec<String>>)
        requires
            i < old(self)@.len(),
        ensures
            final(self)@ == old(self)@.update(i as int, (old(self)@[i as int].0, rows_view(rows@))),
    {
        let key = copy_string(&self.entries[i].0);
        let ghost e = (old(self)@[i as int].0, rows_view(rows@));
        self.entries.set(i, (key, rows));
        assert(self@ =~= old(self)@.update(i as int, e));
    }

    pub fn len(&self) -> (r: usize)
        ensures
            r == self@.len(),
    {
        self.entries.len()
    }

    /// How many rows the tab at position `i` holds.
    pub fn row_count_at(&self, i: usize) -> (r: usize)
        requires
            i < self@.len(),
        ensures
            r == self@[i as int].1.len(),
    {
        self.entries[i].1.len()
    }
}

/// Everything one sync produces: the member index, the award catalog and the raw
/// rows it was built from.
#[derive(Debug, Clone)]
pub struct AwardsData {
    pub index: AwardIndex,
    pub catalog: Vec<AwardDef>,
    pub sheet_rows: SheetRows,
}

impl AwardsData {
    pub fn empty() -> (r: AwardsData)
        ensures
            r.index@.len() == 0,
            r.catalog@.len() == 0,
            r.sheet_rows@.len() == 0,
    {
        AwardsData { index: AwardIndex::new(), catalog: Vec::new(), sheet_rows: SheetRows::new() }
    }
}

} // verus!
