//! The pieces of the terminal browser: keys and text fields, its dialogs, the
//! background work it hands out, and what the screen says about an award.
use vstd::prelude::*;
use crate::audit::AuditFinding;
use crate::eligibility::GrantPlan;
use crate::parse::{match_catalog_entries, normalize_username};
use crate::text::{chars_of, extend_chars, extend_str, owned, str_eq, string_of, trim};
use crate::trusted::{input_after_key, input_after_key_of};
use crate::tui::{AddStep, AssistStep, AuditFindingsList, AuditView, PasteAddModal, RenameStep};
use crate::types::{Award, AwardDef, AwardView};

verus! {

// ---------------------------------------------------------------------------
// Keys and text fields
// ---------------------------------------------------------------------------

/// A key, as the terminal reports it.
#[derive(Debug, Clone, Copy, PartialEq, Eq, Structural)]
pub enum KeyCode {
    Char(char),
    Enter,
    Esc,
    Tab,
    BackTab,
    Up,
    Down,
    Left,
    Right,
    Backspace,
    Delete,
    Home,
    End,
    PageUp,
    PageDown,
    F(u8),
    /// Any other key.
    Other,
}

/// Press, auto-repeat or release.
#[derive(Debug, Clone, Copy, PartialEq, Eq, Structural)]
pub enum KeyKind {
    Press,
    Repeat,
    Release,
}

/// The control modifier bit of `Key::modifiers`.
pub const CONTROL: u8 = 2;

/// A key event: the key, the modifier bits (shift 1, control 2, alt 4, super 8,
/// hyper 16, meta 32) and its kind.
#[derive(Debug, Clone, Copy, PartialEq, Eq, Structural)]
pub struct Key {
    pub code: KeyCode,
    pub modifiers: u8,
    pub kind: KeyKind,
}

pub open spec fn has_control(k: Key) -> bool {
    k.modifiers & CONTROL != 0
}

/// The keys a text field reacts to.
#[derive(Debug, Clone, Copy, PartialEq, Eq, Structural)]
pub enum EditKey {
    Char(char),
    Backspace,
    Delete,
    Left,
    Right,
    Home,
    End,
    Other,
}

pub open spec fn edit_key(c: KeyCode) -> EditKey {
    match c {
        KeyCode::Char(ch) => EditKey::Char(ch),
        KeyCode::Backspace => EditKey::Backspace,
        KeyCode::Delete => EditKey::Delete,
        KeyCode::Left => EditKey::Left,
        KeyCode::Right => EditKey::Right,
        KeyCode::Home => EditKey::Home,
        KeyCode::End => EditKey::End,
        _ => EditKey::Other,
    }
}

/// A one-line text field: its text and cursor (a character position).
#[derive(Debug, Clone)]
pub struct TextInput {
    pub value: String,
    pub cursor: usize,
}

impl TextInput {
    /// An empty field.
    pub fn new() -> (r: TextInput)
        ensures
            r.value@ == Seq::<char>::empty(),
            r.cursor == 0,
    {
        TextInput { value: String::new(), cursor: 0 }
    }

    /// A field holding `value`, the cursor after its last character.
    pub fn with_value(value: String) -> (r: TextInput)
        ensures
            r.value@ == value@,
            r.cursor == value@.len(),
    {
        let n = chars_of(value.as_str()).len();
        TextInput { value, cursor: n }
    }

    /// The field after a key.
    pub fn handle_key(&mut self, key: Key)
        ensures
            (final(self).value@, final(self).cursor as nat) == input_after_key_of(
                old(self).value@,
                old(self).cursor as nat,
                edit_key(key.code),
                key.modifiers,
                key.kind,
            ),
    {
        let ek = match key.code {
            KeyCode::Char(ch) => EditKey::Char(ch),
            KeyCode::Backspace => EditKey::Backspace,
            KeyCode::Delete => EditKey::Delete,
            KeyCode::Left => EditKey::Left,
            KeyCode::Right => EditKey::Right,
            KeyCode::Home => EditKey::Home,
            KeyCode::End => EditKey::End,
            _ => EditKey::Other,
        };
        let (v, c) = input_after_key(self.value.as_str(), self.cursor, ek, key.modifiers, key.kind);
        self.value = v;
        self.cursor = c;
    }
}

// ---------------------------------------------------------------------------
// Dialogs
// ---------------------------------------------------------------------------

/// The add dialog: pick an award, then type a suffix.
#[derive(Debug)]
pub struct AddModal {
    pub all_candidates: Vec<AwardDef>,
    pub filtered: Vec<AwardDef>,
    pub filter: TextInput,
    pub suffix: TextInput,
    /// The highlighted row of `filtered`.
    pub state: Option<usize>,
    pub step: AddStep,
    pub chosen: Option<AwardDef>,
}

impl AddModal {
    /// The picker over `candidates`, the first one highlighted.
    pub fn new(candidates: Vec<AwardDef>) -> (r: AddModal)
        ensures
            r.all_candidates@ == candidates@,
            r.filtered@ == candidates@,
            r.filter.value@ == Seq::<char>::empty(),
            r.suffix.value@ == Seq::<char>::empty(),
            r.state == (if candidates@.len() > 0 { Some(0usize) } else { None }),
            r.step == AddStep::Pick,
            r.chosen is None,
    {
        let filtered = clone_defs(&candidates);
        let state = if candidates.len() > 0 { Some(0usize) } else { None };
        AddModal {
            all_candidates: candidates,
            filtered,
            filter: TextInput::new(),
            suffix: TextInput::new(),
            state,
            step: AddStep::Pick,
            chosen: None,
        }
    }

    /// Refilter after the filter text changed, keeping the highlight when it is
    /// still on the list.
    pub fn reload(&mut self)
        ensures
            defs_view(final(self).filtered@) == crate::parse::defs_matching(
                defs_view(old(self).all_candidates@),
                crate::text::lower_seq(trim(old(self).filter.value@)),
            ),
            final(self).state == (if final(self).filtered@.len() == 0 {
                None
            } else {
                match old(self).state {
                    Some(i) => if i < final(self).filtered@.len() { Some(i) } else { Some(0usize) },
                    None => Some(0usize),
                }
            }),
            final(self).all_candidates == old(self).all_candidates,
            final(self).filter == old(self).filter,
            final(self).suffix == old(self).suffix,
            final(self).step == old(self).step,
            final(self).chosen == old(self).chosen,
    {
        self.filtered = match_catalog_entries(self.all_candidates.as_slice(), self.filter.value.as_str());
        if self.filtered.len() == 0 {
            self.state = None;
        } else {
            let selected = match self.state {
                Some(i) => if i < self.filtered.len() { i } else { 0 },
                None => 0,
            };
            self.state = Some(selected);
        }
    }
}

fn clone_defs(v: &Vec<AwardDef>) -> (r: Vec<AwardDef>)
    ensures
        r@ == v@,
{
    let mut r: Vec<AwardDef> = Vec::new();
    let mut i: usize = 0;
    while i < v.len()
        invariant
            i <= v.len(),
            r@ == v@.subrange(0, i as int),
        decreases v.len() - i,
    {
        r.push(v[i].clone());
        i += 1;
        assert(r@ =~= v@.subrange(0, i as int));
    }
    assert(v@.subrange(0, v.len() as int) =~= v@);
    r
}

pub open spec fn defs_view(s: Seq<AwardDef>) -> Seq<crate::types::AwardDefView> {
    crate::types::defs_view(s)
}

/// The cell correction dialog.
#[derive(Debug)]
pub struct EditModal {
    pub award: Award,
    pub input: TextInput,
}

/// The delete dialog: the award, the typed confirmation, and the member whose
/// list it was opened from.
#[derive(Debug)]
pub struct DeleteModal {
    pub award: Award,
    pub input: TextInput,
    pub viewed_username: String,
}

/// The rename dialog.
#[derive(Debug)]
pub struct RenameModal {
    pub from: String,
    pub cell_count: usize,
    pub existing_new: usize,
    pub input: TextInput,
    pub confirm: TextInput,
    pub step: RenameStep,
}

/// The eligibility assistant.
#[derive(Debug)]
pub struct AssistModal {
    pub username: String,
    pub input: TextInput,
    pub step: AssistStep,
    pub report: String,
    pub can_grant: bool,
    pub grant: Option<GrantPlan>,
    pub scroll: u16,
}

/// The audit browser: the report's lines, the findings list, and which face
/// is shown.
#[derive(Debug)]
pub struct AuditModal {
    pub path: String,
    pub lines: Vec<String>,
    pub scroll: u16,
    pub view: AuditView,
    pub list: AuditFindingsList,
    /// The highlighted row of the findings list.
    pub list_state: Option<usize>,
}

/// The first selectable row of a findings list, if any.
pub open spec fn first_item(gs: Seq<crate::tui::GroupView>) -> Option<usize> {
    let p = crate::tui::item_positions(crate::tui::list_rows(gs));
    if p.len() > 0 {
        Some(p[0] as usize)
    } else {
        None
    }
}

impl AuditModal {
    /// The audit browser on a fresh report: the findings list shown, its first
    /// finding highlighted.
    pub fn new(path: String, body: &str, findings: Vec<AuditFinding>) -> (r: AuditModal)
        ensures
            r.path@ == path@,
            crate::text::strings_view(r.lines@) == crate::text::text_lines_of(body@),
            r.scroll == 0,
            r.view is List,
            crate::tui::grouped_by_member(crate::audit::finding_views(findings@), r.list@),
            r.list_state == first_item(r.list@),
    {
        let list = AuditFindingsList::from_findings(findings);
        let shown = list.rows_for_render().len();
        assert(shown == crate::tui::list_rows(list@).len());
        let sel = list.selectable_rows();
        let list_state = if sel.len() > 0 {
            assert(sel@.map_values(|x: usize| x as int)[0] == sel@[0] as int);
            Some(sel[0])
        } else {
            None
        };
        AuditModal { path, lines: crate::text::text_lines(body), scroll: 0, view: AuditView::List, list, list_state }
    }
}

/// An open dialog.
#[derive(Debug)]
pub enum Modal {
    Add(AddModal),
    PasteAdd(PasteAddModal),
    Edit(EditModal),
    Delete(DeleteModal),
    Rename(RenameModal),
    Assist(AssistModal),
    Audit(AuditModal),
}

// ---------------------------------------------------------------------------
// Background work
// ---------------------------------------------------------------------------

/// A sheet write to run in the background; its outcome comes back as
/// `WorkerMsg::WriteDone` with the kind `add`, `edit`, `delete` or `rename`.
#[derive(Debug)]
pub enum WriteTask {
    Add { username: String, award_def: AwardDef, suffix: String },
    Edit { username: String, award: Award, new_cell: String },
    Delete { username: String, award: Award },
    /// The outcome names the member to show next (see `member_after_rename`).
    Rename { old_username: String, new_username: String },
}

/// Background work the caller starts.
#[derive(Debug)]
pub enum Task {
    /// Fetch the database; answer with `WorkerMsg::SyncDone`.
    Sync,
    /// Audit the current data; answer with `WorkerMsg::AuditDone`.
    Audit,
    Write(WriteTask),
    /// Look up the live row of each shown award; answer with
    /// `WorkerMsg::RowsFixed` when any moved.
    Reconcile { gen: u64, username: String, results: Vec<Award>, duplicates: Vec<Award> },
    /// Audit the current data again and reopen the audit browser on it (see
    /// `App::reopen_audit`), keeping the report's path.
    RefreshAudit { path: String },
}

/// Whether writes are possible under a sign-in status.
pub open spec fn writes_enabled(auth: Seq<char>) -> bool {
    auth == "service_account"@ || auth == "oauth_token"@
}

pub(crate) fn signed_in(auth: &str) -> (r: bool)
    ensures
        r == writes_enabled(auth@),
{
    str_eq(auth, "service_account") || str_eq(auth, "oauth_token")
}


// ---------------------------------------------------------------------------
// What the screen says about an award
// ---------------------------------------------------------------------------

/// A dash for an empty text.
pub open spec fn or_dash(s: Seq<char>) -> Seq<char> {
    if s.len() == 0 {
        "-"@
    } else {
        s
    }
}

pub fn empty_dash(value: &str) -> (r: String)
    ensures
        r@ == or_dash(value@),
{
    if value.is_empty() {
        crate::text::owned("-")
    } else {
        crate::text::owned(value)
    }
}

/// The cell reference of an award (`C10`), or a dash when it has none.
pub open spec fn place_label(a: crate::types::AwardView) -> Seq<char> {
    if a.col.len() == 0 || a.row == 0 {
        "-"@
    } else {
        a.col + crate::text::decimal(a.row as int)
    }
}

pub fn location_label(award: &Award) -> (r: String)
    ensures
        r@ == place_label(award@),
{
    if award.col.as_str().is_empty() || award.row == 0 {
        return crate::text::owned("-");
    }
    let mut v = chars_of(award.col.as_str());
    extend_chars(&mut v, &crate::text::decimal_chars(award.row as i64));
    string_of(&v)
}

/// The line of an award in the awards list: its name, and its row when it
/// has one.
pub open spec fn award_line_text(a: crate::types::AwardView) -> Seq<char> {
    if a.row == 0 {
        a.name
    } else {
        a.name + "  · row "@ + crate::text::decimal(a.row as int)
    }
}

pub fn award_line(award: &Award) -> (r: String)
    ensures
        r@ == award_line_text(award@),
{
    let mut v = chars_of(award.name.as_str());
    if award.row != 0 {
        extend_str(&mut v, "  · row ");
        extend_chars(&mut v, &crate::text::decimal_chars(award.row as i64));
    }
    string_of(&v)
}

/// The warning of the delete dialog: a cell that names someone else than the
/// looked-up member is called out as a likely typo; otherwise the removal is
/// spelled out.
pub open spec fn delete_warning_text(a: crate::types::AwardView, viewed: Seq<char>) -> Seq<char> {
    let cell_user = match crate::parse::username_key(a.cell) {
        Some(k) => k,
        None => "?"@,
    };
    let viewer = match crate::parse::username_key(viewed) {
        Some(k) => k,
        None => viewed,
    };
    let loc = if a.col.len() == 0 || a.row == 0 {
        "row "@ + crate::text::decimal(a.row as int)
    } else {
        a.col + crate::text::decimal(a.row as int)
    };
    if cell_user != viewer {
        "Typo / similar name: this cell is @"@ + cell_user + ", not lookup @"@ + viewer + "."@
    } else {
        "Remove "@ + a.name + " ("@ + loc + ") from @"@ + cell_user + "?"@
    }
}

pub fn delete_warning(award: &Award, viewed_username: &str) -> (r: String)
    ensures
        r@ == delete_warning_text(award@, viewed_username@),
{
    let cell_user = match normalize_username(Some(award.cell.as_str())) {
        Some(k) => k,
        None => crate::text::owned("?"),
    };
    let viewer = match normalize_username(Some(viewed_username)) {
        Some(k) => k,
        None => crate::text::owned(viewed_username),
    };
    let mut loc = if award.col.as_str().is_empty() || award.row == 0 {
        chars_of("row ")
    } else {
        chars_of(award.col.as_str())
    };
    extend_chars(&mut loc, &crate::text::decimal_chars(award.row as i64));
    if !str_eq(cell_user.as_str(), viewer.as_str()) {
        let mut v = chars_of("Typo / similar name: this cell is @");
        extend_str(&mut v, cell_user.as_str());
        extend_str(&mut v, ", not lookup @");
        extend_str(&mut v, viewer.as_str());
        extend_str(&mut v, ".");
        string_of(&v)
    } else {
        let mut v = chars_of("Remove ");
        extend_str(&mut v, award.name.as_str());
        extend_str(&mut v, " (");
        extend_chars(&mut v, &loc);
        extend_str(&mut v, ") from @");
        extend_str(&mut v, cell_user.as_str());
        extend_str(&mut v, "?");
        string_of(&v)
    }
}

/// A box of at most `width` by `height` centred in the area at `(x, y)` of
/// size `w` by `h`, one cell clear of its edges: `(x, y, width, height)`.
pub open spec fn centered_box(width: u16, height: u16, x: u16, y: u16, w: u16, h: u16) -> (int, int, int, int) {
    let mw: int = if w >= 2 { w - 2 } else { 0 };
    let mh: int = if h >= 2 { h - 2 } else { 0 };
    let bw: int = if width < mw { width as int } else { mw };
    let bh: int = if height < mh { height as int } else { mh };
    let bw2: int = if bw < 1 { 1 } else { bw };
    let bh2: int = if bh < 1 { 1 } else { bh };
    let dx: int = if w >= bw2 { (w - bw2) / 2 } else { 0 };
    let dy: int = if h >= bh2 { (h - bh2) / 2 } else { 0 };
    (x + dx, y + dy, bw2, bh2)
}

pub fn centered_rect(width: u16, height: u16, x: u16, y: u16, w: u16, h: u16) -> (r: (u16, u16, u16, u16))
    requires
        x as int + w <= u16::MAX,
        y as int + h <= u16::MAX,
    ensures
        (r.0 as int, r.1 as int, r.2 as int, r.3 as int) == centered_box(width, height, x, y, w, h),
{
    let mw = if w >= 2 { w - 2 } else { 0 };
    let mh = if h >= 2 { h - 2 } else { 0 };
    let bw = if width < mw { width } else { mw };
    let bh = if height < mh { height } else { mh };
    let bw2 = if bw < 1 { 1 } else { bw };
    let bh2 = if bh < 1 { 1 } else { bh };
    let dx = if w >= bw2 { (w - bw2) / 2 } else { 0 };
    let dy = if h >= bh2 { (h - bh2) / 2 } else { 0 };
    (x + dx, y + dy, bw2, bh2)
}

} // verus!
