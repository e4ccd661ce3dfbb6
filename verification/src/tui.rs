//! Decisions of the terminal browser that do not depend on a terminal: the
//! action and tab tables, what each tab lists, wrap-around list navigation, and
//! the audit findings grouped by member.
use vstd::prelude::*;
use crate::audit::{copy_finding, finding_username, finding_views, seq_lt, AuditFinding, FindingView};
use crate::edit::EditResult;
use crate::index::seq_le_exec;
use crate::meta::{category_label_for, label_of};
use crate::text::{
    chars_of, copy_string, decimal, decimal_chars, extend_chars, extend_str, lemma_seq_le_antisym,
    lemma_seq_le_total, lemma_seq_le_trans, owned, str_eq, string_of, strings_view,
};
use crate::types::{awards_view, Award, AwardView, AwardsData};

verus! {

/// Which pane has the keyboard.
#[derive(Debug, Clone, Copy, PartialEq, Eq, Structural)]
pub enum FocusArea {
    Username,
    Actions,
    Awards,
    Detail,
}

/// An entry of the actions menu.
#[derive(Debug, Clone, Copy, PartialEq, Eq, Structural)]
pub enum Action {
    Lookup,
    Add,
    /// Paste a forwarded request and open the add flow prefilled from it; no
    /// member needs to be looked up first.
    PasteAdd,
    Edit,
    Delete,
    Rename,
    Assist,
    Refresh,
    Audit,
}

pub open spec fn action_label(a: Action) -> Seq<char> {
    match a {
        Action::Lookup => "Lookup"@,
        Action::Add => "Add"@,
        Action::PasteAdd => "Paste"@,
        Action::Edit => "Edit"@,
        Action::Delete => "Delete"@,
        Action::Rename => "Rename"@,
        Action::Assist => "Assist"@,
        Action::Refresh => "Refresh"@,
        Action::Audit => "Audit"@,
    }
}

impl Action {
    /// The menu text.
    pub fn label(self) -> (r: &'static str)
        ensures
            r@ == action_label(self),
    {
        match self {
            Action::Lookup => "Lookup",
            Action::Add => "Add",
            Action::PasteAdd => "Paste",
            Action::Edit => "Edit",
            Action::Delete => "Delete",
            Action::Rename => "Rename",
            Action::Assist => "Assist",
            Action::Refresh => "Refresh",
            Action::Audit => "Audit",
        }
    }
}

/// The actions menu, top to bottom.
pub fn actions() -> (r: Vec<Action>)
    ensures
        r@ == seq![
            Action::Lookup,
            Action::Add,
            Action::PasteAdd,
            Action::Edit,
            Action::Delete,
            Action::Rename,
            Action::Assist,
            Action::Refresh,
            Action::Audit,
        ],
{
    let r = vec![
        Action::Lookup,
        Action::Add,
        Action::PasteAdd,
        Action::Edit,
        Action::Delete,
        Action::Rename,
        Action::Assist,
        Action::Refresh,
        Action::Audit,
    ];
    assert(r@ =~= seq![
        Action::Lookup,
        Action::Add,
        Action::PasteAdd,
        Action::Edit,
        Action::Delete,
        Action::Rename,
        Action::Assist,
        Action::Refresh,
        Action::Audit,
    ]);
    r
}

/// A tab of the awards pane.
#[derive(Debug, Clone, Copy, PartialEq, Eq, Structural)]
pub enum AwardTab {
    All,
    Badges,
    Ribbons,
    Foreign,
    Duplicates,
}

pub open spec fn tab_label(t: AwardTab) -> Seq<char> {
    match t {
        AwardTab::All => "All"@,
        AwardTab::Badges => "Badges"@,
        AwardTab::Ribbons => "Ribbons"@,
        AwardTab::Foreign => "Foreign"@,
        AwardTab::Duplicates => "Duplicates/Typos"@,
    }
}

/// The category a tab narrows to; `All` and `Duplicates` narrow to none.
pub open spec fn tab_category(t: AwardTab) -> Option<Seq<char>> {
    match t {
        AwardTab::Badges => Some("badges"@),
        AwardTab::Ribbons => Some("ribbons"@),
        AwardTab::Foreign => Some("foreign"@),
        AwardTab::All | AwardTab::Duplicates => None,
    }
}

impl AwardTab {
    pub fn label(self) -> (r: &'static str)
        ensures
            r@ == tab_label(self),
    {
        match self {
            AwardTab::All => "All",
            AwardTab::Badges => "Badges",
            AwardTab::Ribbons => "Ribbons",
            AwardTab::Foreign => "Foreign",
            AwardTab::Duplicates => "Duplicates/Typos",
        }
    }

    pub fn category(self) -> (r: Option<&'static str>)
        ensures
            match r {
                Some(c) => tab_category(self) == Some(c@),
                None => tab_category(self) is None,
            },
    {
        match self {
            AwardTab::Badges => Some("badges"),
            AwardTab::Ribbons => Some("ribbons"),
            AwardTab::Foreign => Some("foreign"),
            AwardTab::All | AwardTab::Duplicates => None,
        }
    }
}

/// The tabs, left to right.
pub fn award_tabs() -> (r: Vec<AwardTab>)
    ensures
        r@ == seq![AwardTab::All, AwardTab::Badges, AwardTab::Ribbons, AwardTab::Foreign, AwardTab::Duplicates],
{
    let r = vec![AwardTab::All, AwardTab::Badges, AwardTab::Ribbons, AwardTab::Foreign, AwardTab::Duplicates];
    assert(r@ =~= seq![AwardTab::All, AwardTab::Badges, AwardTab::Ribbons, AwardTab::Foreign, AwardTab::Duplicates]);
    r
}

/// The display label of a category key; an unknown key is shown as it is.
pub fn category_label(category: &str) -> (r: &str)
    ensures
        r@ == match label_of(category@) {
            Some(l) => l,
            None => category@,
        },
{
    match category_label_for(category) {
        Some(l) => l,
        None => category,
    }
}

/// A row of the awards pane; `warning` marks a duplicate or typo entry.
#[derive(Debug, Clone)]
pub struct VisibleAward {
    pub award: Award,
    pub warning: bool,
}

impl View for VisibleAward {
    type V = (AwardView, bool);

    open spec fn view(&self) -> (AwardView, bool) {
        (self.award@, self.warning)
    }
}

pub open spec fn visible_views(v: Seq<VisibleAward>) -> Seq<(AwardView, bool)> {
    v.map_values(|x: VisibleAward| x@)
}

/// Every award of `s`, flagged `w`.
pub open spec fn flagged(s: Seq<AwardView>, w: bool) -> Seq<(AwardView, bool)> {
    s.map_values(|a: AwardView| (a, w))
}

/// The awards of `s` in category `c`, in order.
pub open spec fn in_category(s: Seq<AwardView>, c: Seq<char>) -> Seq<AwardView>
    decreases s.len(),
{
    if s.len() == 0 {
        s
    } else if s.last().category == c {
        in_category(s.drop_last(), c).push(s.last())
    } else {
        in_category(s.drop_last(), c)
    }
}

/// What a tab lists: `All` shows the member's awards then the flagged
/// duplicates, `Duplicates` only the flagged ones, a category tab the awards of
/// its category.
pub open spec fn tab_rows(tab: AwardTab, results: Seq<AwardView>, duplicates: Seq<AwardView>) -> Seq<(AwardView, bool)> {
    match tab {
        AwardTab::All => flagged(results, false) + flagged(duplicates, true),
        AwardTab::Duplicates => flagged(duplicates, true),
        _ => flagged(in_category(results, tab_category(tab).unwrap()), false),
    }
}

fn push_flagged(out: &mut Vec<VisibleAward>, src: &Vec<Award>, warning: bool)
    ensures
        visible_views(final(out)@) == visible_views(old(out)@) + flagged(awards_view(src@), warning),
{
    let ghost start = visible_views(out@);
    let mut i: usize = 0;
    while i < src.len()
        invariant
            i <= src.len(),
            visible_views(out@) == start + flagged(awards_view(src@).subrange(0, i as int), warning),
        decreases src.len() - i,
    {
        let ghost before = visible_views(out@);
        out.push(VisibleAward { award: src[i].clone(), warning });
        assert(visible_views(out@) =~= before.push((src@[i as int]@, warning)));
        i += 1;
        assert(flagged(awards_view(src@).subrange(0, i as int), warning) =~= flagged(
            awards_view(src@).subrange(0, i - 1),
            warning,
        ).push((src@[i - 1]@, warning)));
    }
    assert(awards_view(src@).subrange(0, src.len() as int) =~= awards_view(src@));
}

/// The rows of `tab` for a member's awards and flagged duplicates.
pub fn visible_for_tab(tab: AwardTab, results: &Vec<Award>, duplicates: &Vec<Award>) -> (r: Vec<VisibleAward>)
    ensures
        visible_views(r@) == tab_rows(tab, awards_view(results@), awards_view(duplicates@)),
{
    let mut out: Vec<VisibleAward> = Vec::new();
    assert(visible_views(out@) =~= Seq::<(AwardView, bool)>::empty());
    match tab {
        AwardTab::All => {
            push_flagged(&mut out, results, false);
            push_flagged(&mut out, duplicates, true);
            assert(visible_views(out@) =~= tab_rows(tab, awards_view(results@), awards_view(duplicates@)));
        },
        AwardTab::Duplicates => {
            push_flagged(&mut out, duplicates, true);
            assert(visible_views(out@) =~= tab_rows(tab, awards_view(results@), awards_view(duplicates@)));
        },
        _ => {
            let category = match tab.category() {
                Some(c) => c,
                None => "",
            };
            let ghost c = tab_category(tab).unwrap();
            let ghost rv = awards_view(results@);
            let mut i: usize = 0;
            while i < results.len()
                invariant
                    i <= results.len(),
                    category@ == c,
                    rv == awards_view(results@),
                    visible_views(out@) == flagged(in_category(rv.subrange(0, i as int), c), false),
                decreases results.len() - i,
            {
                assert(rv.subrange(0, i + 1).drop_last() =~= rv.subrange(0, i as int));
                if str_eq(results[i].category.as_str(), category) {
                    let ghost before = visible_views(out@);
                    out.push(VisibleAward { award: results[i].clone(), warning: false });
                    assert(visible_views(out@) =~= before.push((rv[i as int], false)));
                    assert(flagged(in_category(rv.subrange(0, i + 1), c), false) =~= flagged(
                        in_category(rv.subrange(0, i as int), c),
                        false,
                    ).push((rv[i as int], false)));
                }
                i += 1;
            }
            assert(rv.subrange(0, results.len() as int) =~= rv);
        },
    }
    out
}

/// The entry `delta` steps from the current one, wrapping at both ends; the
/// current entry is the selected one, clamped to the list, or the first.
pub open spec fn wrapped_step(selected: Option<usize>, len: nat, delta: int) -> Option<nat> {
    if len == 0 {
        None
    } else {
        let s: int = match selected {
            Some(k) => k as int,
            None => 0,
        };
        let current: int = if s < len - 1 { s } else { len - 1 };
        Some(((current + delta) % (len as int)) as nat)
    }
}

/// Move a list selection by `delta`, wrapping around.
pub fn move_list(selected: Option<usize>, len: usize, delta: isize) -> (r: Option<usize>)
    ensures
        match r {
            Some(k) => wrapped_step(selected, len as nat, delta as int) == Some(k as nat),
            None => wrapped_step(selected, len as nat, delta as int) is None,
        },
{
    if len == 0 {
        return None;
    }
    let s: usize = match selected {
        Some(k) => k,
        None => 0,
    };
    let current: usize = if s < len - 1 { s } else { len - 1 };
    Some(wrap_add(current, len, delta))
}

/// `(current + delta) mod len`, without overflow.
pub(crate) fn wrap_add(current: usize, len: usize, delta: isize) -> (r: usize)
    requires
        current < len,
    ensures
        r as int == (current + delta) % (len as int),
        r < len,
{
    let m: u128 = len as u128;
    let c: u128 = current as u128;
    if delta >= 0 {
        let d: u128 = delta as u128;
        let r: u128 = (c + d % m) % m;
        proof {
            vstd::arithmetic::div_mod::lemma_add_mod_noop_right(c as int, d as int, m as int);
        }
        r as usize
    } else {
        let e: u128 = (0i128 - (delta as i128)) as u128;
        let back: u128 = e % m;
        let r: u128 = (c + m - back) % m;
        proof {
            vstd::arithmetic::div_mod::lemma_sub_mod_noop_right(c as int, e as int, m as int);
            vstd::arithmetic::div_mod::lemma_mod_add_multiples_vanish(c - back, m as int);
            assert(c + m - back == m + (c - back));
        }
        r as usize
    }
}

/// The member a finding is filed under: the member of a duplicate or malformed
/// cell, the first name of a similar pair, none for an unparseable cell.
pub open spec fn finding_user(f: FindingView) -> Option<Seq<char>> {
    match f {
        FindingView::DuplicateRow { user, .. } => Some(user),
        FindingView::SimilarUsernames { a, .. } => Some(a),
        FindingView::MalformedCell { user, .. } => Some(user),
        FindingView::UnparseableCell { .. } => None,
    }
}

/// The findings of `fs` filed under `u`, in order.
pub open spec fn filed_under(fs: Seq<FindingView>, u: Option<Seq<char>>) -> Seq<FindingView>
    decreases fs.len(),
{
    if fs.len() == 0 {
        fs
    } else if finding_user(fs.last()) == u {
        filed_under(fs.drop_last(), u).push(fs.last())
    } else {
        filed_under(fs.drop_last(), u)
    }
}

/// One member's findings (`username` is `None` for the findings that name no
/// member).
#[derive(Debug, Clone)]
pub struct FindingGroup {
    pub username: Option<String>,
    pub findings: Vec<AuditFinding>,
}

pub struct GroupView {
    pub username: Option<Seq<char>>,
    pub findings: Seq<FindingView>,
}

pub open spec fn opt_text(o: Option<String>) -> Option<Seq<char>> {
    match o {
        Some(s) => Some(s@),
        None => None,
    }
}

impl View for FindingGroup {
    type V = GroupView;

    open spec fn view(&self) -> GroupView {
        GroupView { username: opt_text(self.username), findings: finding_views(self.findings@) }
    }
}

pub open spec fn groups_view(gs: Seq<FindingGroup>) -> Seq<GroupView> {
    gs.map_values(|g: FindingGroup| g@)
}

/// `gs` files the findings `fs` by member: one group for each member that has
/// a finding, in ascending name order, holding that member's findings in their
/// order; then, when some finding names no member, one group of those.
pub open spec fn grouped_by_member(fs: Seq<FindingView>, gs: Seq<GroupView>) -> bool {
    let rest = filed_under(fs, None);
    let n: int = if rest.len() > 0 { gs.len() - 1 } else { gs.len() as int };
    &&& 0 <= n
    &&& rest.len() > 0 ==> gs[n] == (GroupView { username: None, findings: rest })
    &&& forall|i: int|
        0 <= i < n ==> (#[trigger] gs[i]).username is Some && gs[i].findings == filed_under(fs, gs[i].username)
            && gs[i].findings.len() > 0
    &&& forall|i: int, j: int|
        #![trigger gs[i], gs[j]]
        0 <= i < j < n ==> seq_lt(gs[i].username.unwrap(), gs[j].username.unwrap())
    &&& forall|k: int|
        0 <= k < fs.len() && (#[trigger] finding_user(fs[k])) is Some ==> exists|i: int|
            0 <= i < n && (#[trigger] gs[i]).username == finding_user(fs[k])
}

/// A finding filed under `u` puts `u`'s list in use.
proof fn lemma_filed_under_nonempty(fs: Seq<FindingView>, u: Option<Seq<char>>, k: int)
    requires
        0 <= k < fs.len(),
        finding_user(fs[k]) == u,
    ensures
        filed_under(fs, u).len() > 0,
    decreases fs.len(),
{
    if k < fs.len() - 1 {
        lemma_filed_under_nonempty(fs.drop_last(), u, k);
    }
}

pub open spec fn strictly_ascending(s: Seq<Seq<char>>) -> bool {
    forall|i: int, j: int| #![trigger s[i], s[j]] 0 <= i < j < s.len() ==> seq_lt(s[i], s[j])
}

fn text_lt(a: &str, b: &str) -> (r: bool)
    ensures
        r == seq_lt(a@, b@),
{
    seq_le_exec(&chars_of(a), &chars_of(b)) && !str_eq(a, b)
}

proof fn lemma_lt_trans(a: Seq<char>, b: Seq<char>, c: Seq<char>)
    requires
        seq_lt(a, b),
        seq_lt(b, c),
    ensures
        seq_lt(a, c),
{
    lemma_seq_le_trans(a, b, c);
    if a == c {
        lemma_seq_le_antisym(a, b);
    }
}

/// `u` added to the ascending list of names, unless it is there.
fn insert_name(names: &mut Vec<String>, u: &str)
    requires
        strictly_ascending(strings_view(old(names)@)),
    ensures
        strictly_ascending(strings_view(final(names)@)),
        forall|x: Seq<char>|
            strings_view(final(names)@).contains(x) <==> (strings_view(old(names)@).contains(x) || x == u@),
{
    let ghost v0 = strings_view(names@);
    let mut i: usize = 0;
    while i < names.len() && text_lt(names[i].as_str(), u)
        invariant
            i <= names.len(),
            v0 == strings_view(names@),
            forall|k: int| 0 <= k < i ==> seq_lt(#[trigger] v0[k], u@),
        decreases names.len() - i,
    {
        i += 1;
    }
    if i < names.len() && str_eq(names[i].as_str(), u) {
        assert(v0[i as int] == u@);
        return;
    }
    proof {
        if i < names.len() {
            lemma_seq_le_total(v0[i as int], u@);
            assert(seq_lt(u@, v0[i as int]));
        }
    }
    names.insert(i, owned(u));
    let ghost v1 = strings_view(names@);
    assert(v1 =~= v0.insert(i as int, u@));
    assert forall|a: int, b: int| #![trigger v1[a], v1[b]] 0 <= a < b < v1.len() implies seq_lt(v1[a], v1[b]) by {
        if b < i {
        } else if b == i {
        } else if a < i {
            if b - 1 > i {
                lemma_lt_trans(u@, v0[i as int], v0[b - 1]);
            }
            lemma_lt_trans(v0[a], u@, v0[b - 1]);
        } else if a == i {
            if b - 1 > i {
                lemma_lt_trans(u@, v0[i as int], v0[b - 1]);
            }
        } else {
            assert(v1[a] == v0[a - 1] && v1[b] == v0[b - 1]);
        }
    }
    assert forall|x: Seq<char>| v1.contains(x) <==> (v0.contains(x) || x == u@) by {
        if v1.contains(x) {
            let k = choose|k: int| 0 <= k < v1.len() && v1[k] == x;
            if k < i {
                assert(v0[k] == x);
            } else if k > i {
                assert(v0[k - 1] == x);
            }
        }
        if v0.contains(x) {
            let k = choose|k: int| 0 <= k < v0.len() && v0[k] == x;
            if k < i {
                assert(v1[k] == x);
            } else {
                assert(v1[k + 1] == x);
            }
        }
        if x == u@ {
            assert(v1[i as int] == x);
        }
    }
}

/// The findings of `findings` filed under `u`, copied.
fn findings_filed_under(findings: &Vec<AuditFinding>, u: Option<&str>) -> (r: Vec<AuditFinding>)
    ensures
        finding_views(r@) == filed_under(
            finding_views(findings@),
            match u {
                Some(s) => Some(s@),
                None => None,
            },
        ),
{
    let ghost uu = match u {
        Some(s) => Some(s@),
        None => None::<Seq<char>>,
    };
    let ghost fv = finding_views(findings@);
    let mut out: Vec<AuditFinding> = Vec::new();
    let mut k: usize = 0;
    while k < findings.len()
        invariant
            k <= findings.len(),
            fv == finding_views(findings@),
            uu == match u {
                Some(s) => Some(s@),
                None => None::<Seq<char>>,
            },
            finding_views(out@) == filed_under(fv.subrange(0, k as int), uu),
        decreases findings.len() - k,
    {
        assert(fv.subrange(0, k + 1).drop_last() =~= fv.subrange(0, k as int));
        let owner = finding_username(&findings[k]);
        let same = match (owner, u) {
            (Some(a), Some(b)) => str_eq(a, b),
            (None, None) => true,
            _ => false,
        };
        assert(same == (finding_user(fv[k as int]) == uu));
        if same {
            let ghost before = finding_views(out@);
            out.push(copy_finding(&findings[k]));
            assert(finding_views(out@) =~= before.push(fv[k as int]));
        }
        k += 1;
    }
    assert(fv.subrange(0, findings.len() as int) =~= fv);
    out
}

/// The audit's findings filed by member (the group of findings that name no
/// member, if any, comes last).
#[derive(Debug, Clone)]
pub struct AuditFindingsList {
    pub groups: Vec<FindingGroup>,
}

impl View for AuditFindingsList {
    type V = Seq<GroupView>;

    open spec fn view(&self) -> Seq<GroupView> {
        groups_view(self.groups@)
    }
}

/// A row of the findings list: a group header, or a finding.
pub enum AuditRow<'a> {
    Header(String),
    Item(&'a AuditFinding),
}

pub enum RowView {
    Header(Seq<char>),
    Item(FindingView),
}

impl<'a> View for AuditRow<'a> {
    type V = RowView;

    open spec fn view(&self) -> RowView {
        match self {
            AuditRow::Header(s) => RowView::Header(s@),
            AuditRow::Item(f) => RowView::Item(f@),
        }
    }
}

pub open spec fn header_label(u: Option<Seq<char>>) -> Seq<char> {
    match u {
        Some(u) => "@"@ + u,
        None => "(unattributed)"@,
    }
}

/// A group's rows: its header, then its findings.
pub open spec fn group_rows(g: GroupView) -> Seq<RowView> {
    seq![RowView::Header(header_label(g.username))] + g.findings.map_values(|f: FindingView| RowView::Item(f))
}

/// The rows of the whole list, group after group.
pub open spec fn list_rows(gs: Seq<GroupView>) -> Seq<RowView>
    decreases gs.len(),
{
    if gs.len() == 0 {
        Seq::empty()
    } else {
        list_rows(gs.drop_last()) + group_rows(gs.last())
    }
}

/// The positions of the finding rows among `rows`, ascending.
pub open spec fn item_positions(rows: Seq<RowView>) -> Seq<int>
    decreases rows.len(),
{
    if rows.len() == 0 {
        Seq::empty()
    } else if rows.last() is Item {
        item_positions(rows.drop_last()).push(rows.len() - 1)
    } else {
        item_positions(rows.drop_last())
    }
}

/// How many findings the groups hold.
pub open spec fn total_findings(gs: Seq<GroupView>) -> int
    decreases gs.len(),
{
    if gs.len() == 0 {
        0
    } else {
        total_findings(gs.drop_last()) + gs.last().findings.len()
    }
}

pub open spec fn row_views<'a>(v: Seq<AuditRow<'a>>) -> Seq<RowView> {
    v.map_values(|r: AuditRow<'a>| r@)
}

proof fn lemma_list_rows_step(gs: Seq<GroupView>, g: int)
    requires
        0 <= g < gs.len(),
    ensures
        list_rows(gs.subrange(0, g + 1)) == list_rows(gs.subrange(0, g)) + group_rows(gs[g]),
{
    assert(gs.subrange(0, g + 1).drop_last() =~= gs.subrange(0, g));
}

proof fn lemma_total_step(gs: Seq<GroupView>, g: int)
    requires
        0 <= g < gs.len(),
    ensures
        total_findings(gs.subrange(0, g + 1)) == total_findings(gs.subrange(0, g)) + gs[g].findings.len(),
{
    assert(gs.subrange(0, g + 1).drop_last() =~= gs.subrange(0, g));
}

proof fn lemma_item_positions_push(rows: Seq<RowView>, x: RowView)
    ensures
        item_positions(rows.push(x)) == if x is Item {
            item_positions(rows).push(rows.len() as int)
        } else {
            item_positions(rows)
        },
{
    assert(rows.push(x).drop_last() =~= rows);
}

proof fn lemma_total_nonneg(gs: Seq<GroupView>)
    ensures
        total_findings(gs) >= 0,
    decreases gs.len(),
{
    if gs.len() > 0 {
        lemma_total_nonneg(gs.drop_last());
    }
}

impl AuditFindingsList {
    /// File `findings` by member: members in ascending name order, each
    /// member's findings in their order, the findings that name no member last.
    pub fn from_findings(findings: Vec<AuditFinding>) -> (r: AuditFindingsList)
        ensures
            grouped_by_member(finding_views(findings@), r@),
    {
        let ghost fv = finding_views(findings@);
        let mut names: Vec<String> = Vec::new();
        let mut k: usize = 0;
        while k < findings.len()
            invariant
                k <= findings.len(),
                fv == finding_views(findings@),
                strictly_ascending(strings_view(names@)),
                forall|x: Seq<char>|
                    strings_view(names@).contains(x) ==> exists|j: int|
                        0 <= j < k && #[trigger] finding_user(fv[j]) == Some(x),
                forall|j: int|
                    0 <= j < k && (#[trigger] finding_user(fv[j])) is Some ==> strings_view(names@).contains(
                        finding_user(fv[j]).unwrap(),
                    ),
            decreases findings.len() - k,
        {
            match finding_username(&findings[k]) {
                Some(u) => {
                    let ghost before = strings_view(names@);
                    insert_name(&mut names, u);
                    assert(finding_user(fv[k as int]) == Some(u@));
                    assert forall|x: Seq<char>| strings_view(names@).contains(x) implies exists|j: int|
                        0 <= j < k + 1 && #[trigger] finding_user(fv[j]) == Some(x) by {
                        if before.contains(x) {
                        } else {
                            assert(finding_user(fv[k as int]) == Some(x));
                        }
                    }
                },
                None => {},
            }
            k += 1;
        }
        let ghost nv = strings_view(names@);
        let mut groups: Vec<FindingGroup> = Vec::new();
        let mut i: usize = 0;
        while i < names.len()
            invariant
                i <= names.len(),
                fv == finding_views(findings@),
                nv == strings_view(names@),
                strictly_ascending(nv),
                forall|x: Seq<char>|
                    nv.contains(x) ==> exists|j: int| 0 <= j < fv.len() && #[trigger] finding_user(fv[j]) == Some(x),
                groups@.len() == i,
                forall|g: int|
                    0 <= g < i ==> (#[trigger] groups@[g])@ == (GroupView {
                        username: Some(nv[g]),
                        findings: filed_under(fv, Some(nv[g])),
                    }),
            decreases names.len() - i,
        {
            let fs = findings_filed_under(&findings, Some(names[i].as_str()));
            groups.push(FindingGroup { username: Some(copy_string(&names[i])), findings: fs });
            i += 1;
        }
        let n = groups.len();
        let rest = findings_filed_under(&findings, None);
        let has_rest = rest.len() > 0;
        if has_rest {
            groups.push(FindingGroup { username: None, findings: rest });
        }
        let r = AuditFindingsList { groups };
        let ghost gs = r@;
        assert forall|g: int| 0 <= g < n implies (#[trigger] gs[g]).username is Some && gs[g].findings == filed_under(
            fv,
            gs[g].username,
        ) && gs[g].findings.len() > 0 by {
            assert(gs[g] == r.groups@[g]@);
            assert(nv.contains(nv[g]));
            let j = choose|j: int| 0 <= j < fv.len() && #[trigger] finding_user(fv[j]) == Some(nv[g]);
            lemma_filed_under_nonempty(fv, Some(nv[g]), j);
        }
        assert forall|a: int, b: int| #![trigger gs[a], gs[b]] 0 <= a < b < n implies seq_lt(
            gs[a].username.unwrap(),
            gs[b].username.unwrap(),
        ) by {
            assert(gs[a] == r.groups@[a]@);
            assert(gs[b] == r.groups@[b]@);
        }
        assert forall|k: int| 0 <= k < fv.len() && (#[trigger] finding_user(fv[k])) is Some implies exists|g: int|
            0 <= g < n && (#[trigger] gs[g]).username == finding_user(fv[k]) by {
            let x = finding_user(fv[k]).unwrap();
            assert(nv.contains(x));
            let g = choose|g: int| 0 <= g < nv.len() && nv[g] == x;
            assert(gs[g] == r.groups@[g]@);
        }
        if has_rest {
            assert(gs[n as int] == r.groups@[n as int]@);
        }
        r
    }

    /// No group holds a finding.
    pub fn is_empty(&self) -> (r: bool)
        ensures
            r == forall|g: int| 0 <= g < self@.len() ==> (#[trigger] self@[g]).findings.len() == 0,
    {
        let mut g: usize = 0;
        while g < self.groups.len()
            invariant
                g <= self.groups.len(),
                forall|h: int| 0 <= h < g ==> (#[trigger] self@[h]).findings.len() == 0,
            decreases self.groups.len() - g,
        {
            assert(self@[g as int] == self.groups@[g as int]@);
            if self.groups[g].findings.len() > 0 {
                return false;
            }
            g += 1;
        }
        true
    }

    /// How many findings the list holds.
    pub fn len(&self) -> (r: usize)
        requires
            total_findings(self@) <= usize::MAX,
        ensures
            r == total_findings(self@),
    {
        let mut total: usize = 0;
        let mut g: usize = 0;
        while g < self.groups.len()
            invariant
                g <= self.groups.len(),
                total == total_findings(self@.subrange(0, g as int)),
                total_findings(self@) <= usize::MAX,
            decreases self.groups.len() - g,
        {
            proof {
                lemma_total_step(self@, g as int);
                assert(self@[g as int] == self.groups@[g as int]@);
                lemma_total_prefix(self@, g + 1);
            }
            total = total + self.groups[g].findings.len();
            g += 1;
        }
        assert(self@.subrange(0, self.groups.len() as int) =~= self@);
        total
    }

    /// The rows in display order: each group's header, then its findings.
    pub fn rows_for_render(&self) -> (r: Vec<AuditRow<'_>>)
        ensures
            row_views(r@) == list_rows(self@),
    {
        let mut out: Vec<AuditRow<'_>> = Vec::new();
        let mut g: usize = 0;
        assert(row_views(out@) =~= list_rows(self@.subrange(0, 0)));
        while g < self.groups.len()
            invariant
                g <= self.groups.len(),
                row_views(out@) == list_rows(self@.subrange(0, g as int)),
            decreases self.groups.len() - g,
        {
            let group = &self.groups[g];
            let ghost gv = group@;
            assert(self@[g as int] == gv);
            let label = match &group.username {
                Some(u) => {
                    let mut v = chars_of("@");
                    extend_str(&mut v, u.as_str());
                    string_of(&v)
                },
                None => owned("(unattributed)"),
            };
            let ghost start = row_views(out@);
            out.push(AuditRow::Header(label));
            let mut j: usize = 0;
            while j < group.findings.len()
                invariant
                    j <= group.findings.len(),
                    gv == group@,
                    row_views(out@) == start + group_rows(gv).subrange(0, j + 1),
                decreases group.findings.len() - j,
            {
                let ghost before = row_views(out@);
                out.push(AuditRow::Item(&group.findings[j]));
                assert(row_views(out@) =~= before.push(RowView::Item(gv.findings[j as int])));
                assert(group_rows(gv).subrange(0, j + 2) =~= group_rows(gv).subrange(0, j + 1).push(
                    RowView::Item(gv.findings[j as int]),
                ));
                j += 1;
            }
            assert(group_rows(gv).subrange(0, group.findings.len() + 1) =~= group_rows(gv));
            proof {
                lemma_list_rows_step(self@, g as int);
            }
            g += 1;
        }
        assert(self@.subrange(0, self.groups.len() as int) =~= self@);
        out
    }

    /// The positions of the finding rows (not the headers) in display order.
    pub fn selectable_rows(&self) -> (r: Vec<usize>)
        requires
            list_rows(self@).len() <= usize::MAX,
        ensures
            r@.map_values(|x: usize| x as int) == item_positions(list_rows(self@)),
            r@.len() == total_findings(self@),
            forall|j: int, k: int| 0 <= j < k < r@.len() ==> r@[j] < r@[k],
            forall|i: int|
                0 <= i < list_rows(self@).len() && list_rows(self@)[i] is Item <==> exists|k: int|
                    0 <= k < r@.len() && r@[k] == i,
    {
        proof {
            crate::laws::law_selectable_rows_are_the_findings(self@);
        }
        let out = self.selectable_rows_in_order();
        proof {
            let p = item_positions(list_rows(self@));
            assert(out@.map_values(|x: usize| x as int).len() == out@.len());
            assert forall|j: int, k: int| 0 <= j < k < out@.len() implies out@[j] < out@[k] by {
                assert(p[j] == out@[j] && p[k] == out@[k]);
            }
            assert forall|i: int|
                0 <= i < list_rows(self@).len() && list_rows(self@)[i] is Item <==> exists|k: int|
                    0 <= k < out@.len() && out@[k] == i by {
                if 0 <= i < list_rows(self@).len() && list_rows(self@)[i] is Item {
                    assert(p.contains(i));
                    let k = choose|k: int| 0 <= k < p.len() && p[k] == i;
                    assert(out@[k] == i);
                }
                if exists|k: int| 0 <= k < out@.len() && out@[k] == i {
                    let k = choose|k: int| 0 <= k < out@.len() && out@[k] == i;
                    assert(p[k] == i);
                    assert(p.contains(i));
                }
            }
        }
        out
    }

    fn selectable_rows_in_order(&self) -> (r: Vec<usize>)
        requires
            list_rows(self@).len() <= usize::MAX,
        ensures
            r@.map_values(|x: usize| x as int) == item_positions(list_rows(self@)),
    {
        let mut out: Vec<usize> = Vec::new();
        let mut row: usize = 0;
        let mut g: usize = 0;
        let ghost mut cur: Seq<RowView> = Seq::empty();
        assert(out@.map_values(|x: usize| x as int) =~= item_positions(cur));
        while g < self.groups.len()
            invariant
                g <= self.groups.len(),
                cur == list_rows(self@.subrange(0, g as int)),
                row == cur.len(),
                out@.map_values(|x: usize| x as int) == item_positions(cur),
                list_rows(self@).len() <= usize::MAX,
            decreases self.groups.len() - g,
        {
            let group = &self.groups[g];
            let ghost gv = group@;
            assert(self@[g as int] == gv);
            proof {
                lemma_list_rows_step(self@, g as int);
                lemma_list_rows_prefix(self@, g + 1);
            }
            let ghost start = cur;
            proof {
                lemma_item_positions_push(cur, RowView::Header(header_label(gv.username)));
                cur = cur.push(RowView::Header(header_label(gv.username)));
            }
            row += 1;
            let mut j: usize = 0;
            while j < group.findings.len()
                invariant
                    j <= group.findings.len(),
                    gv == group@,
                    cur == start + group_rows(gv).subrange(0, j + 1),
                    row == cur.len(),
                    out@.map_values(|x: usize| x as int) == item_positions(cur),
                    start + group_rows(gv) == list_rows(self@.subrange(0, g + 1)),
                    list_rows(self@.subrange(0, g + 1)).len() <= usize::MAX,
                decreases group.findings.len() - j,
            {
                let ghost before = out@;
                proof {
                    lemma_item_positions_push(cur, RowView::Item(gv.findings[j as int]));
                }
                out.push(row);
                assert(out@.map_values(|x: usize| x as int) =~= before.map_values(|x: usize| x as int).push(
                    row as int,
                ));
                proof {
                    assert(group_rows(gv).subrange(0, j + 2) =~= group_rows(gv).subrange(0, j + 1).push(
                        RowView::Item(gv.findings[j as int]),
                    ));
                    cur = cur.push(RowView::Item(gv.findings[j as int]));
                    assert((start + group_rows(gv)).len() == start.len() + group_rows(gv).len());
                }
                row += 1;
                j += 1;
            }
            assert(group_rows(gv).subrange(0, group.findings.len() + 1) =~= group_rows(gv));
            g += 1;
        }
        assert(self@.subrange(0, self.groups.len() as int) =~= self@);
        out
    }

    /// The finding shown at row `row_idx`, or `None` for a header row or a row
    /// past the end.
    pub fn finding_at_row(&self, row_idx: usize) -> (r: Option<&AuditFinding>)
        requires
            list_rows(self@).len() <= usize::MAX,
        ensures
            match r {
                Some(f) => row_idx < list_rows(self@).len() && list_rows(self@)[row_idx as int] == RowView::Item(f@),
                None => !(row_idx < list_rows(self@).len() && list_rows(self@)[row_idx as int] is Item),
            },
            r is Some <==> item_positions(list_rows(self@)).contains(row_idx as int),
    {
        proof {
            crate::laws::law_selectable_rows_are_the_findings(self@);
        }
        self.finding_in_rows(row_idx)
    }

    fn finding_in_rows(&self, row_idx: usize) -> (r: Option<&AuditFinding>)
        requires
            list_rows(self@).len() <= usize::MAX,
        ensures
            match r {
                Some(f) => row_idx < list_rows(self@).len() && list_rows(self@)[row_idx as int] == RowView::Item(f@),
                None => !(row_idx < list_rows(self@).len() && list_rows(self@)[row_idx as int] is Item),
            },
    {
        let mut row: usize = 0;
        let mut g: usize = 0;
        let ghost all = list_rows(self@);
        while g < self.groups.len()
            invariant
                g <= self.groups.len(),
                all == list_rows(self@),
                row == list_rows(self@.subrange(0, g as int)).len(),
                row <= row_idx,
                all.len() <= usize::MAX,
                list_rows(self@.subrange(0, g as int)) == all.subrange(0, row as int),
            decreases self.groups.len() - g,
        {
            let group = &self.groups[g];
            let ghost gv = group@;
            let ghost pre = list_rows(self@.subrange(0, g as int));
            assert(self@[g as int] == gv);
            proof {
                lemma_list_rows_step(self@, g as int);
                lemma_list_rows_prefix(self@, g + 1);
                assert(all.subrange(0, (row + group_rows(gv).len()) as int) == pre + group_rows(gv));
                assert((pre + group_rows(gv))[row as int] == RowView::Header(header_label(gv.username)));
            }
            if row == row_idx {
                return None;
            }
            row += 1;
            let mut j: usize = 0;
            while j < group.findings.len()
                invariant
                    j <= group.findings.len(),
                    gv == group@,
                    row == pre.len() + 1 + j,
                    row <= row_idx,
                    all == list_rows(self@),
                    all.len() <= usize::MAX,
                    all.subrange(0, (pre.len() + group_rows(gv).len()) as int) == pre + group_rows(gv),
                    pre.len() + group_rows(gv).len() <= all.len(),
                decreases group.findings.len() - j,
            {
                assert((pre + group_rows(gv))[row as int] == RowView::Item(gv.findings[j as int]));
                assert(all[row as int] == (pre + group_rows(gv))[row as int]);
                if row == row_idx {
                    assert(gv.findings[j as int] == group.findings@[j as int]@);
                    assert(row < pre.len() + group_rows(gv).len());
                    assert(all[row as int] == all.subrange(0, (pre.len() + group_rows(gv).len()) as int)[row as int]);
                    return Some(&group.findings[j]);
                }
                row += 1;
                j += 1;
            }
            assert(all.subrange(0, row as int) =~= pre + group_rows(gv));
            g += 1;
        }
        assert(self@.subrange(0, self.groups.len() as int) =~= self@);
        None
    }
}

proof fn lemma_total_prefix(gs: Seq<GroupView>, g: int)
    requires
        0 <= g <= gs.len(),
    ensures
        total_findings(gs.subrange(0, g)) <= total_findings(gs),
    decreases gs.len() - g,
{
    if g < gs.len() {
        lemma_total_prefix(gs, g + 1);
        lemma_total_step(gs, g);
    } else {
        assert(gs.subrange(0, g) =~= gs);
    }
}

proof fn lemma_list_rows_prefix(gs: Seq<GroupView>, g: int)
    requires
        0 <= g <= gs.len(),
    ensures
        list_rows(gs.subrange(0, g)).len() <= list_rows(gs).len(),
        list_rows(gs.subrange(0, g)) == list_rows(gs).subrange(0, list_rows(gs.subrange(0, g)).len() as int),
    decreases gs.len() - g,
{
    if g < gs.len() {
        lemma_list_rows_prefix(gs, g + 1);
        lemma_list_rows_step(gs, g);
        let a = list_rows(gs.subrange(0, g));
        let b = list_rows(gs.subrange(0, g + 1));
        assert(b.subrange(0, a.len() as int) =~= a);
        assert(list_rows(gs).subrange(0, a.len() as int) =~= b.subrange(0, a.len() as int));
    } else {
        assert(gs.subrange(0, g) =~= gs);
        assert(list_rows(gs).subrange(0, list_rows(gs).len() as int) =~= list_rows(gs));
    }
}

/// The first position of `x` in `s`.
pub open spec fn position_in(s: Seq<int>, x: int) -> Option<int>
    decreases s.len(),
{
    if s.len() == 0 {
        None
    } else if s[0] == x {
        Some(0)
    } else {
        match position_in(s.drop_first(), x) {
            Some(p) => Some(p + 1),
            None => None,
        }
    }
}

/// The finding row `delta` finding rows away from the selected one, wrapping
/// around and never landing on a header; a selection that is not a finding row
/// counts as the first finding row.
pub open spec fn audit_row_step(gs: Seq<GroupView>, selected: Option<usize>, delta: int) -> Option<int> {
    let sel = item_positions(list_rows(gs));
    if sel.len() == 0 {
        None
    } else {
        let current: int = match selected {
            Some(k) => k as int,
            None => sel[0],
        };
        let pos: int = match position_in(sel, current) {
            Some(p) => p,
            None => 0,
        };
        Some(sel[(pos + delta) % (sel.len() as int)])
    }
}

proof fn lemma_position_in_found(s: Seq<int>, x: int, i: int)
    requires
        0 <= i < s.len(),
        s[i] == x,
        forall|k: int| 0 <= k < i ==> s[k] != x,
    ensures
        position_in(s, x) == Some(i),
    decreases i,
{
    if i > 0 {
        lemma_position_in_found(s.drop_first(), x, i - 1);
    }
}

proof fn lemma_position_in_absent(s: Seq<int>, x: int)
    requires
        forall|k: int| 0 <= k < s.len() ==> s[k] != x,
    ensures
        position_in(s, x) is None,
    decreases s.len(),
{
    if s.len() > 0 {
        lemma_position_in_absent(s.drop_first(), x);
    }
}

/// Move the findings-list selection by `delta` finding rows.
pub fn move_audit_row(list: &AuditFindingsList, selected: Option<usize>, delta: isize) -> (r: Option<usize>)
    requires
        list_rows(list@).len() <= usize::MAX,
    ensures
        match r {
            Some(k) => audit_row_step(list@, selected, delta as int) == Some(k as int),
            None => audit_row_step(list@, selected, delta as int) is None,
        },
{
    let selectable = list.selectable_rows();
    let ghost sel = item_positions(list_rows(list@));
    assert(sel.len() == selectable@.len());
    assert forall|k: int| 0 <= k < selectable@.len() implies sel[k] == selectable@[k] as int by {
        assert(sel[k] == selectable@.map_values(|x: usize| x as int)[k]);
    }
    if selectable.len() == 0 {
        return None;
    }
    let current: usize = match selected {
        Some(k) => k,
        None => selectable[0],
    };
    let mut pos: usize = 0;
    let mut i: usize = 0;
    let mut found = false;
    while i < selectable.len() && !found
        invariant
            i <= selectable.len(),
            found ==> pos < selectable.len() && selectable@[pos as int] == current,
            !found ==> pos == 0,
            selectable.len() > 0,
            sel.len() == selectable@.len(),
            forall|k: int| 0 <= k < selectable@.len() ==> sel[k] == selectable@[k] as int,
            current == match selected {
                Some(k) => k,
                None => selectable@[0],
            },
            forall|k: int| 0 <= k < (if found { pos as int } else { i as int }) ==> selectable@[k] != current,
        decreases selectable.len() - i,
    {
        if selectable[i] == current {
            pos = i;
            found = true;
        }
        i += 1;
    }
    proof {
        if found {
            lemma_position_in_found(sel, current as int, pos as int);
        } else {
            lemma_position_in_absent(sel, current as int);
        }
    }
    let next = wrap_add(pos, selectable.len(), delta);
    Some(selectable[next])
}

/// A short description of a finding for the findings list.
pub open spec fn finding_line(f: FindingView) -> Seq<char> {
    match f {
        FindingView::DuplicateRow { base_name, sheet, col, row, kind, .. } => "\u{26a0} "@ + base_name + " ("@ + (if kind
            == "identical"@ {
            "duplicate copy"@
        } else {
            "conflicting rows"@
        }) + ") \u{b7} "@ + sheet + " "@ + col + decimal(row as int),
        FindingView::MalformedCell { base_name, sheet, col, row, cell, .. } => "\u{26a0} "@ + base_name
            + " (malformed cell \""@ + cell + "\") \u{b7} "@ + sheet + " "@ + col + decimal(row as int),
        FindingView::SimilarUsernames { a, b, base_name, .. } => "\u{26a0} "@ + base_name + ": @"@ + a + " vs @"@ + b
            + " (similar usernames)"@,
        FindingView::UnparseableCell { base_name, sheet, col, row, cell } => "\u{26a0} "@ + base_name
            + " (unparseable \""@ + cell + "\") \u{b7} "@ + sheet + " "@ + col + decimal(row as int),
    }
}

fn push_place(v: &mut Vec<char>, sheet: &String, col: &String, row: i32)
    ensures
        final(v)@ == old(v)@ + sheet@ + " "@ + col@ + decimal(row as int),
{
    extend_str(v, sheet.as_str());
    extend_str(v, " ");
    extend_str(v, col.as_str());
    extend_chars(v, &decimal_chars(row as i64));
}

/// The one-line description of a finding.
pub fn describe_finding(finding: &AuditFinding) -> (r: String)
    ensures
        r@ == finding_line(finding@),
{
    let mut v = chars_of("\u{26a0} ");
    match finding {
        AuditFinding::DuplicateRow { base_name, sheet, col, row, kind, .. } => {
            extend_str(&mut v, base_name.as_str());
            extend_str(&mut v, " (");
            if str_eq(kind.as_str(), "identical") {
                extend_str(&mut v, "duplicate copy");
            } else {
                extend_str(&mut v, "conflicting rows");
            }
            extend_str(&mut v, ") \u{b7} ");
            push_place(&mut v, sheet, col, *row);
        },
        AuditFinding::MalformedCell { base_name, sheet, col, row, cell, .. } => {
            extend_str(&mut v, base_name.as_str());
            extend_str(&mut v, " (malformed cell \"");
            extend_str(&mut v, cell.as_str());
            extend_str(&mut v, "\") \u{b7} ");
            push_place(&mut v, sheet, col, *row);
        },
        AuditFinding::SimilarUsernames { a, b, base_name, .. } => {
            extend_str(&mut v, base_name.as_str());
            extend_str(&mut v, ": @");
            extend_str(&mut v, a.as_str());
            extend_str(&mut v, " vs @");
            extend_str(&mut v, b.as_str());
            extend_str(&mut v, " (similar usernames)");
        },
        AuditFinding::UnparseableCell { base_name, sheet, col, row, cell } => {
            extend_str(&mut v, base_name.as_str());
            extend_str(&mut v, " (unparseable \"");
            extend_str(&mut v, cell.as_str());
            extend_str(&mut v, "\") \u{b7} ");
            push_place(&mut v, sheet, col, *row);
        },
    }
    string_of(&v)
}

/// A finished audit: where the report was written, its text, its one-line
/// summary and its findings.
#[derive(Debug, Clone)]
pub struct AuditOutcome {
    pub path: String,
    pub body: String,
    pub summary: String,
    pub findings: Vec<AuditFinding>,
}

/// A finished background job of the terminal browser.
#[derive(Debug)]
pub enum WorkerMsg {
    SyncDone(Result<AwardsData, String>),
    /// Live row numbers for the awards shown for `username`, from the run of
    /// generation `gen`.
    RowsFixed { gen: u64, username: String, results: Vec<Award>, duplicates: Vec<Award> },
    WriteDone { kind: &'static str, result: EditResult, username: String },
    AuditDone(Result<AuditOutcome, String>),
}

/// The paste-to-add dialog: the pasted or typed text, and the last error.
#[derive(Debug)]
pub struct PasteAddModal {
    pub buffer: String,
    pub error: Option<String>,
}

impl Default for PasteAddModal {
    fn default() -> (r: PasteAddModal)
        ensures
            r.buffer@ == Seq::<char>::empty(),
            r.error is None,
    {
        PasteAddModal { buffer: String::new(), error: None }
    }
}

/// The steps of the eligibility assistant.
#[derive(Debug, Clone, Copy, PartialEq, Eq, Structural)]
pub enum AssistStep {
    Query,
    Result,
}

/// The steps of the add dialog.
#[derive(Debug, Clone, Copy, PartialEq, Eq, Structural)]
pub enum AddStep {
    Pick,
    Suffix,
}

/// The steps of the rename dialog.
#[derive(Debug, Clone, Copy, PartialEq, Eq, Structural)]
pub enum RenameStep {
    Name,
    Confirm,
}

/// The face of the audit dialog: the findings list, the plain report, or the
/// choice of which of two similar names to rename.
#[derive(Debug, Clone)]
pub enum AuditView {
    List,
    Report,
    ChooseUsername { a: String, b: String },
}

// ---------------------------------------------------------------------------
// Focus, tabs and the actions menu
// ---------------------------------------------------------------------------

pub open spec fn focus_index(f: FocusArea) -> int {
    match f {
        FocusArea::Username => 0,
        FocusArea::Actions => 1,
        FocusArea::Awards => 2,
        FocusArea::Detail => 3,
    }
}

pub open spec fn focus_at(i: int) -> FocusArea {
    if i == 0 {
        FocusArea::Username
    } else if i == 1 {
        FocusArea::Actions
    } else if i == 2 {
        FocusArea::Awards
    } else {
        FocusArea::Detail
    }
}

/// The pane `delta` steps round from `focus` (Username, Actions, Awards, Detail).
pub fn cycle_focus(focus: FocusArea, delta: isize) -> (r: FocusArea)
    ensures
        r == focus_at((focus_index(focus) + delta) % 4),
{
    let current: usize = match focus {
        FocusArea::Username => 0,
        FocusArea::Actions => 1,
        FocusArea::Awards => 2,
        FocusArea::Detail => 3,
    };
    let next = wrap_add(current, 4, delta);
    if next == 0 {
        FocusArea::Username
    } else if next == 1 {
        FocusArea::Actions
    } else if next == 2 {
        FocusArea::Awards
    } else {
        FocusArea::Detail
    }
}

pub open spec fn tab_index(t: AwardTab) -> int {
    match t {
        AwardTab::All => 0,
        AwardTab::Badges => 1,
        AwardTab::Ribbons => 2,
        AwardTab::Foreign => 3,
        AwardTab::Duplicates => 4,
    }
}

pub open spec fn tab_at(i: int) -> AwardTab {
    if i == 0 {
        AwardTab::All
    } else if i == 1 {
        AwardTab::Badges
    } else if i == 2 {
        AwardTab::Ribbons
    } else if i == 3 {
        AwardTab::Foreign
    } else {
        AwardTab::Duplicates
    }
}

/// The tab `delta` steps round from `tab`, in the order of `award_tabs`.
pub fn step_tab(tab: AwardTab, delta: isize) -> (r: AwardTab)
    ensures
        r == tab_at((tab_index(tab) + delta) % 5),
{
    let current: usize = match tab {
        AwardTab::All => 0,
        AwardTab::Badges => 1,
        AwardTab::Ribbons => 2,
        AwardTab::Foreign => 3,
        AwardTab::Duplicates => 4,
    };
    let next = wrap_add(current, 5, delta);
    if next == 0 {
        AwardTab::All
    } else if next == 1 {
        AwardTab::Badges
    } else if next == 2 {
        AwardTab::Ribbons
    } else if next == 3 {
        AwardTab::Foreign
    } else {
        AwardTab::Duplicates
    }
}

/// The tab a digit key picks: `1` to `5` in tab order.
pub fn tab_for_digit(c: char) -> (r: Option<AwardTab>)
    ensures
        r == (if '1' <= c && c <= '5' {
            Some(tab_at(c as int - '1' as int))
        } else {
            None
        }),
{
    if c == '1' {
        Some(AwardTab::All)
    } else if c == '2' {
        Some(AwardTab::Badges)
    } else if c == '3' {
        Some(AwardTab::Ribbons)
    } else if c == '4' {
        Some(AwardTab::Foreign)
    } else if c == '5' {
        Some(AwardTab::Duplicates)
    } else {
        None
    }
}

pub open spec fn action_at(i: int) -> Action {
    seq![
        Action::Lookup,
        Action::Add,
        Action::PasteAdd,
        Action::Edit,
        Action::Delete,
        Action::Rename,
        Action::Assist,
        Action::Refresh,
        Action::Audit,
    ][i]
}

/// The menu entry under the selection; no selection, or one past the end,
/// means the first entry.
pub fn selected_action(selected: Option<usize>) -> (r: Action)
    ensures
        r == match selected {
            Some(i) => if i < 9 {
                action_at(i as int)
            } else {
                Action::Lookup
            },
            None => Action::Lookup,
        },
{
    let menu = actions();
    let i: usize = match selected {
        Some(i) => if i < menu.len() {
            i
        } else {
            0
        },
        None => 0,
    };
    menu[i]
}

} // verus!
