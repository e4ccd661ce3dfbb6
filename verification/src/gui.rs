//! The state of the windowed lookup/add/edit tool, without any window: every
//! clerk action and every finished background job is a method that moves the
//! state on. The caller owns the window, the threads and the network; where an
//! action needs background work the method says so in its result.
use vstd::prelude::*;
use crate::text::{chars_of, copy_string, extend_chars, extend_str, string_of, trim, usize_decimal};
use crate::edit::{EditError, EditErrorView, EditResult, ResultView};
use crate::index::{get_awards_for_username, lookup_key, owned_award_columns, owned_columns, pairs_view, upsert_award_in_index};
use crate::parse::{defs_matching, match_catalog_entries};
use crate::types::{awards_view, bucket_of, defs_view, Award, AwardDef, AwardDefView, AwardView, AwardsData};

verus! {

/// The clerk's sign-in state. Lookup works in every state; writes need
/// `SignedIn`.
#[derive(Debug, Clone, Copy, PartialEq, Eq, Structural)]
pub enum AuthState {
    Unknown,
    SignedOut,
    SignedIn,
    SigningIn,
}

/// How the status line is shown.
#[derive(Debug, Clone, Copy, PartialEq, Eq, Structural)]
pub enum StatusKind {
    Info,
    Success,
    Error,
}

/// What the credential files say, as read by the caller.
#[derive(Debug, Clone)]
pub struct AuthInfo {
    /// One of `service_account`, `oauth_token`, `oauth_needs_login`, `missing`.
    pub status: String,
    pub account_label: Option<String>,
    pub can_sign_out: bool,
}

/// A finished background job.
#[derive(Debug)]
pub enum GuiMsg {
    SyncDone(Result<AwardsData, String>),
    /// The sign-in outcome, and the credential files as they are afterwards.
    LoginDone(Result<String, String>, AuthInfo),
    AddDone { username: String, result: EditResult },
    EditDone { username: String, result: EditResult },
}

/// The looked-up member: `not_found` tells "searched, nothing" from "not yet
/// searched".
#[derive(Debug, Clone)]
pub struct LookedUpUser {
    pub username: String,
    pub awards: Vec<Award>,
    pub not_found: bool,
}

/// The open award picker.
#[derive(Debug, Clone)]
pub struct AddPicker {
    /// The catalog minus the member's own columns, fixed while open.
    pub candidates: Vec<AwardDef>,
    pub filter: String,
    pub filtered: Vec<AwardDef>,
    pub selected: Option<AwardDef>,
    pub suffix: String,
    /// A write is running.
    pub submitting: bool,
}

/// The open cell correction.
#[derive(Debug, Clone)]
pub struct EditFlow {
    pub award: Award,
    pub input: String,
    pub submitting: bool,
}

/// An add to run in the background.
#[derive(Debug)]
pub struct AddRequest {
    pub username: String,
    pub award_def: AwardDef,
    pub suffix: String,
}

/// A cell correction to run in the background.
#[derive(Debug)]
pub struct EditRequest {
    pub username: String,
    pub award: Award,
    pub new_cell: String,
}

/// Everything the window shows.
#[derive(Debug)]
pub struct GuiApp {
    pub data: Option<AwardsData>,
    pub syncing: bool,
    pub sync_error: Option<String>,
    pub username_input: String,
    pub looked_up: Option<LookedUpUser>,
    pub auth: AuthState,
    pub account_label: Option<String>,
    pub can_sign_out: bool,
    pub add_picker: Option<AddPicker>,
    pub edit: Option<EditFlow>,
    pub status: String,
    pub status_kind: StatusKind,
}

/// The status text and weight for a finished write.
pub open spec fn result_status(r: ResultView) -> (Seq<char>, StatusKind) {
    if r.ok {
        (r.message, StatusKind::Success)
    } else if r.error matches Some(EditErrorView::Api(_)) {
        ("Couldn't reach Google Sheets. Check your connection and try again."@, StatusKind::Error)
    } else {
        (r.message, StatusKind::Error)
    }
}

/// Clerk-facing status for a write result: API failures get plain language.
pub fn describe_result(result: &EditResult) -> (r: (String, StatusKind))
    ensures
        (r.0@, r.1) == result_status(result@),
{
    if result.ok {
        return (copy_string(&result.message), StatusKind::Success);
    }
    if let Some(EditError::Api(_)) = &result.error {
        return (crate::text::owned("Couldn't reach Google Sheets. Check your connection and try again."), StatusKind::Error);
    }
    (copy_string(&result.message), StatusKind::Error)
}

/// The catalog entries whose column the member does not hold.
pub open spec fn not_owned(defs: Seq<AwardDefView>, owned: Set<(Seq<char>, Seq<char>)>) -> Seq<AwardDefView>
    decreases defs.len(),
{
    if defs.len() == 0 {
        defs
    } else if owned.contains((defs.last().sheet, defs.last().col)) {
        not_owned(defs.drop_last(), owned)
    } else {
        not_owned(defs.drop_last(), owned).push(defs.last())
    }
}

/// The signed-in state a credential status names.
pub open spec fn auth_of(status: Seq<char>) -> AuthState {
    if status == "service_account"@ || status == "oauth_token"@ {
        AuthState::SignedIn
    } else {
        AuthState::SignedOut
    }
}

pub open spec fn opt_text(o: Option<String>) -> Option<Seq<char>> {
    match o {
        Some(s) => Some(s@),
        None => None,
    }
}

pub open spec fn lookup_status(username: Seq<char>, n: int) -> Seq<char> {
    if n == 0 {
        "No records found for that username"@
    } else {
        username + " · "@ + crate::text::decimal(n) + " award(s)"@
    }
}

/// A finished sync moves `a` to `b`: the new data is kept, or the old data stays
/// and the failure is reported.
pub open spec fn sync_done(a: GuiApp, b: GuiApp, result: Result<AwardsData, String>) -> bool {
    &&& !b.syncing
    &&& match result {
            Ok(d) => b == (GuiApp {
                syncing: false,
                sync_error: None,
                data: Some(d),
                status: b.status,
                status_kind: StatusKind::Info,
                ..a
            }) && b.status@ == "Synced — "@ + crate::text::decimal(d.catalog@.len() as int)
                + " known award(s) in catalog"@,
            Err(e) => b == (GuiApp {
                syncing: false,
                sync_error: Some(e),
                status: b.status,
                status_kind: StatusKind::Error,
                ..a
            }) && b.status@ == "Sync failed: "@ + e@,
        }
}

/// A finished add moves `a` to `b`: on success the award is filed and the
/// picker closes; on refusal the picker stays with its selection.
pub open spec fn add_done(a: GuiApp, b: GuiApp, username: String, result: EditResult) -> bool {
    &&& (b.status@, b.status_kind) == result_status(result@)
    &&& b.syncing == a.syncing
    &&& b.auth == a.auth
    &&& b.edit == a.edit
    &&& result.ok ==> b.add_picker is None
    &&& !result.ok ==> b.add_picker == match a.add_picker {
            Some(p) => Some(AddPicker { submitting: false, ..p }),
            None => None,
        }
    &&& !result.ok ==> b.data == a.data && b.looked_up == a.looked_up
    &&& (result.ok && result.award is Some) ==> match (a.data, b.data) {
            (Some(d0), Some(d1)) => match crate::parse::username_key(result@.award.unwrap().cell) {
                Some(k) => d1.index@ == crate::index::index_after_add(
                    crate::index::index_without(
                        d0.index@,
                        result@.award.unwrap().sheet,
                        result@.award.unwrap().col,
                        result@.award.unwrap().row,
                    ),
                    Some(k),
                    Some(result@.award.unwrap()),
                ),
                None => d1.index@ == d0.index@,
            },
            (None, None) => true,
            _ => false,
        }
    &&& (result.ok && result.award is Some) ==> match (a.looked_up, b.looked_up) {
            (Some(l0), Some(l1)) => if l0.username@ == username@ {
                l1.username == l0.username && awards_view(l1.awards@) == awards_view(l0.awards@).push(
                    result@.award.unwrap(),
                ) && !l1.not_found
            } else {
                l1 == l0
            },
            (None, None) => true,
            _ => false,
        }
    &&& (result.ok && result.award is None) ==> b.data == a.data && b.looked_up
            == a.looked_up
}

/// A finished cell correction moves `a` to `b`: on success the award is
/// refiled and the viewed member's list reloaded; on refusal the flow stays open.
pub open spec fn edit_done(a: GuiApp, b: GuiApp, viewed_username: String, result: EditResult) -> bool {
    &&& b.syncing == a.syncing
    &&& b.auth == a.auth
    &&& b.add_picker == a.add_picker
    &&& b.status_kind == result_status(result@).1
    &&& !result.ok ==> b.status@ == result_status(result@).0
    &&& !result.ok ==> b.edit == match a.edit {
            Some(e) => Some(EditFlow { submitting: false, ..e }),
            None => None,
        }
    &&& !result.ok ==> b.data == a.data && b.looked_up == a.looked_up
    &&& result.ok ==> b.edit is None
    &&& (result.ok && result.award is Some) ==> match (a.data, b.data) {
            (Some(d0), Some(d1)) => match crate::parse::username_key(result@.award.unwrap().cell) {
                Some(k) => d1.index@ == crate::index::index_after_add(
                    crate::index::index_without(
                        d0.index@,
                        result@.award.unwrap().sheet,
                        result@.award.unwrap().col,
                        result@.award.unwrap().row,
                    ),
                    Some(k),
                    Some(result@.award.unwrap()),
                ),
                None => d1.index@ == d0.index@,
            },
            (None, None) => true,
            _ => false,
        }
    &&& (result.ok && result.award is Some) ==> match (a.looked_up, b.looked_up, b.data) {
            (Some(l0), Some(l1), Some(d1)) => if l0.username@ == viewed_username@ {
                let now = bucket_of(d1.index@, lookup_key(viewed_username@));
                &&& l1.username == l0.username
                &&& awards_view(l1.awards@) =~= now
                &&& l1.not_found == (now.len() == 0)
                &&& b.status@ =~= result_status(result@).0 + (if column_absent(now, result@.award.unwrap().sheet, result@.award.unwrap().col) {
                    " · no longer under @"@ + viewed_username@
                } else {
                    Seq::empty()
                })
            } else {
                l1 == l0 && b.status@ == result_status(result@).0
            },
            (Some(l0), Some(l1), None) => l1 == l0 && b.status@ == result_status(result@).0,
            (None, None, _) => b.status@ == result_status(result@).0,
            _ => false,
        }
    &&& (result.ok && result.award is None) ==> b.data == a.data && b.looked_up
            == a.looked_up && b.status@ == result_status(result@).0
}

/// A finished sign-in moves `a` to `b`: its message is shown and sign-in is
/// re-read from the credential files.
pub open spec fn login_done(a: GuiApp, b: GuiApp, result: Result<String, String>, info: AuthInfo) -> bool {
    &&& b == (GuiApp {
            auth: auth_of(info.status@),
            account_label: b.account_label,
            can_sign_out: info.can_sign_out,
            status: b.status,
            status_kind: if result is Ok { StatusKind::Success } else { StatusKind::Error },
            ..a
        })
    &&& b.status@ == match result {
            Ok(m) => m@,
            Err(m) => m@,
        }
    &&& opt_text(b.account_label) == (if auth_of(info.status@) == AuthState::SignedIn {
            opt_text(info.account_label)
        } else {
            None
        })
}

/// A finished job `msg` moves `a` to `b`.
pub open spec fn msg_done(a: GuiApp, b: GuiApp, msg: GuiMsg) -> bool {
    match msg {
        GuiMsg::SyncDone(r) => sync_done(a, b, r),
        GuiMsg::LoginDone(r, info) => login_done(a, b, r, info),
        GuiMsg::AddDone { username, result } => add_done(a, b, username, result),
        GuiMsg::EditDone { username, result } => edit_done(a, b, username, result),
    }
}

impl GuiApp {
    /// A window that has neither synced nor checked sign-in yet.
    pub fn new() -> (r: GuiApp)
        ensures
            r.data is None,
            !r.syncing,
            r.sync_error is None,
            r.username_input@ == Seq::<char>::empty(),
            r.looked_up is None,
            r.auth == AuthState::Unknown,
            r.account_label is None,
            !r.can_sign_out,
            r.add_picker is None,
            r.edit is None,
            r.status@ == Seq::<char>::empty(),
            r.status_kind == StatusKind::Info,
    {
        GuiApp {
            data: None,
            syncing: false,
            sync_error: None,
            username_input: String::new(),
            looked_up: None,
            auth: AuthState::Unknown,
            account_label: None,
            can_sign_out: false,
            add_picker: None,
            edit: None,
            status: String::new(),
            status_kind: StatusKind::Info,
        }
    }

    /// Re-read sign-in from what the credential files say.
    pub fn refresh_auth_state(&mut self, info: &AuthInfo)
        ensures
            *final(self) == (GuiApp {
                auth: auth_of(info.status@),
                account_label: final(self).account_label,
                can_sign_out: info.can_sign_out,
                ..*old(self)
            }),
            opt_text(final(self).account_label) == (if auth_of(info.status@) == AuthState::SignedIn {
                opt_text(info.account_label)
            } else {
                None
            }),
    {
        let s = info.status.as_str();
        let signed_in = crate::text::str_eq(s, "service_account") || crate::text::str_eq(s, "oauth_token");
        self.auth = if signed_in { AuthState::SignedIn } else { AuthState::SignedOut };
        self.account_label = if signed_in {
            match &info.account_label {
                Some(l) => Some(copy_string(l)),
                None => None,
            }
        } else {
            None
        };
        self.can_sign_out = info.can_sign_out;
    }

    /// Begin a sync unless one is running; `true` when the caller should start
    /// the fetch.
    pub fn start_sync(&mut self) -> (r: bool)
        ensures
            r == !old(self).syncing,
            old(self).syncing ==> *final(self) == *old(self),
            !old(self).syncing ==> *final(self) == (GuiApp {
                syncing: true,
                status: final(self).status,
                status_kind: StatusKind::Info,
                ..*old(self)
            }) && final(self).status@ == "Syncing..."@,
    {
        if self.syncing {
            return false;
        }
        self.syncing = true;
        self.status = crate::text::owned("Syncing...");
        self.status_kind = StatusKind::Info;
        true
    }

    /// Handle every finished job, in order: each moves the window on from where
    /// the one before left it.
    pub fn drain_messages(&mut self, msgs: Vec<GuiMsg>)
        ensures
            exists|states: Seq<GuiApp>|
                {
                    &&& states.len() == msgs@.len() + 1
                    &&& states[0] == *old(self)
                    &&& states[msgs@.len() as int] == *final(self)
                    &&& forall|i: int| 0 <= i < msgs@.len() ==> msg_done(states[i], states[i + 1], #[trigger] msgs@[i])
                },
    {
        let ghost all = msgs@;
        let count: usize = msgs.len();
        assert(all.len() == count);
        let ghost start = *self;
        let ghost mut states: Seq<GuiApp> = seq![*self];
        let mut msgs = msgs;
        let mut k: usize = 0;
        while msgs.len() > 0
            invariant
                k + msgs@.len() == all.len(),
                all.len() <= usize::MAX,
                msgs@ == all.subrange(k as int, all.len() as int),
                states.len() == k + 1,
                states[0] == start,
                states[k as int] == *self,
                forall|i: int| 0 <= i < k ==> msg_done(states[i], states[i + 1], #[trigger] all[i]),
            decreases msgs.len(),
        {
            let m = msgs.remove(0);
            assert(m == all[k as int]);
            self.handle_msg(m);
            proof {
                states = states.push(*self);
            }
            k += 1;
            assert(msgs@ =~= all.subrange(k as int, all.len() as int));
        }
    }

    /// Handle one finished job.
    pub fn handle_msg(&mut self, msg: GuiMsg)
        ensures
            msg_done(*old(self), *final(self), msg),
    {
        match msg {
            GuiMsg::SyncDone(result) => self.handle_sync_done(result),
            GuiMsg::LoginDone(result, info) => self.handle_login_done(result, &info),
            GuiMsg::AddDone { username, result } => self.handle_add_done(username, result),
            GuiMsg::EditDone { username, result } => self.handle_edit_done(username, result),
        }
    }

    /// A sync finished: keep the new data, or keep the old data and report the
    /// failure.
    pub fn handle_sync_done(&mut self, result: Result<AwardsData, String>)
        ensures
            sync_done(*old(self), *final(self), result),
    {
        self.syncing = false;
        match result {
            Ok(data) => {
                self.sync_error = None;
                let mut v = chars_of("Synced — ");
                extend_chars(&mut v, &usize_decimal(data.catalog.len()));
                extend_str(&mut v, " known award(s) in catalog");
                self.status = string_of(&v);
                self.status_kind = StatusKind::Info;
                self.data = Some(data);
            },
            Err(err) => {
                let mut v = chars_of("Sync failed: ");
                extend_str(&mut v, err.as_str());
                self.status = string_of(&v);
                self.status_kind = StatusKind::Error;
                self.sync_error = Some(err);
            },
        }
    }

    /// Look the typed username up in the synced index (no network).
    pub fn submit_lookup(&mut self)
        ensures
            old(self).syncing ==> *final(self) == *old(self),
            !old(self).syncing && old(self).data is None ==> *final(self) == (GuiApp {
                status: final(self).status,
                status_kind: if old(self).sync_error is Some { StatusKind::Error } else { StatusKind::Info },
                ..*old(self)
            }) && final(self).status@ == match old(self).sync_error {
                Some(e) => "Sync failed: "@ + e@ + " — no data to look up"@,
                None => "Still syncing — try again shortly"@,
            },
            !old(self).syncing && old(self).data is Some && trim(old(self).username_input@).len() == 0
                ==> *final(self) == (GuiApp { status: final(self).status, status_kind: StatusKind::Info, ..*old(self) })
                && final(self).status@ == "Enter a username to look up"@,
            !old(self).syncing && old(self).data is Some && trim(old(self).username_input@).len() > 0 ==> {
                let u = trim(old(self).username_input@);
                let found = bucket_of(old(self).data.unwrap().index@, lookup_key(u));
                &&& *final(self) == (GuiApp {
                    looked_up: final(self).looked_up,
                    add_picker: None,
                    edit: None,
                    status: final(self).status,
                    status_kind: StatusKind::Info,
                    ..*old(self)
                })
                &&& final(self).looked_up matches Some(l) && l.username@ == u && awards_view(l.awards@) == found
                    && l.not_found == (found.len() == 0)
                &&& final(self).status@ == lookup_status(u, found.len() as int)
            },
    {
        if self.syncing {
            return;
        }
        let data = match &self.data {
            Some(d) => d,
            None => {
                match &self.sync_error {
                    Some(err) => {
                        let mut v = chars_of("Sync failed: ");
                        extend_str(&mut v, err.as_str());
                        extend_str(&mut v, " — no data to look up");
                        self.status = string_of(&v);
                        self.status_kind = StatusKind::Error;
                    },
                    None => {
                        self.status = crate::text::owned("Still syncing — try again shortly");
                        self.status_kind = StatusKind::Info;
                    },
                }
                return;
            },
        };
        let username = crate::text::trimmed_string(self.username_input.as_str());
        if username.as_str().is_empty() {
            self.status = crate::text::owned("Enter a username to look up");
            self.status_kind = StatusKind::Info;
            return;
        }
        let awards = get_awards_for_username(&data.index, username.as_str());
        if awards.len() == 0 {
            self.looked_up = Some(LookedUpUser { username, awards: Vec::new(), not_found: true });
            assert(awards_view(Seq::<Award>::empty()) =~= Seq::<AwardView>::empty());
            self.status = crate::text::owned("No records found for that username");
            self.status_kind = StatusKind::Info;
        } else {
            let mut v = chars_of(username.as_str());
            extend_str(&mut v, " · ");
            extend_chars(&mut v, &usize_decimal(awards.len()));
            extend_str(&mut v, " award(s)");
            self.status = string_of(&v);
            self.status_kind = StatusKind::Info;
            self.looked_up = Some(LookedUpUser { username, awards, not_found: false });
        }
        self.add_picker = None;
        self.edit = None;
    }

    /// Open the picker over the catalog minus the member's own columns.
    pub fn open_add_picker(&mut self)
        ensures
            (old(self).data is None || old(self).looked_up is None) ==> *final(self) == (GuiApp {
                status: final(self).status,
                status_kind: StatusKind::Info,
                ..*old(self)
            }) && final(self).status@ == "Look up a user before adding an award"@,
            (old(self).data is Some && old(self).looked_up is Some) ==> {
                let l = old(self).looked_up.unwrap();
                let c = not_owned(
                    defs_view(old(self).data.unwrap().catalog@),
                    owned_columns(awards_view(l.awards@), l.username@),
                );
                &&& c.len() == 0 ==> *final(self) == (GuiApp {
                    status: final(self).status,
                    status_kind: StatusKind::Info,
                    ..*old(self)
                }) && final(self).status@ == "No remaining awards to add for this user"@
                &&& c.len() > 0 ==> {
                    &&& *final(self) == (GuiApp { edit: None, add_picker: final(self).add_picker, ..*old(self) })
                    &&& final(self).add_picker matches Some(p)
                    &&& defs_view(p.candidates@) == c
                    &&& defs_view(p.filtered@) == c
                    &&& p.filter@ == Seq::<char>::empty()
                    &&& p.selected is None
                    &&& p.suffix@ == Seq::<char>::empty()
                    &&& !p.submitting
                }
            },
    {
        let (data, looked_up) = match (&self.data, &self.looked_up) {
            (Some(d), Some(l)) => (d, l),
            _ => {
                self.status = crate::text::owned("Look up a user before adding an award");
                self.status_kind = StatusKind::Info;
                return;
            },
        };
        let owned = owned_award_columns(looked_up.awards.as_slice(), looked_up.username.as_str());
        let ghost ov = owned_columns(awards_view(looked_up.awards@), looked_up.username@);
        let ghost cat = defs_view(data.catalog@);
        let mut candidates: Vec<AwardDef> = Vec::new();
        let mut i: usize = 0;
        assert(defs_view(candidates@) =~= not_owned(cat.subrange(0, 0), ov));
        while i < data.catalog.len()
            invariant
                i <= data.catalog.len(),
                cat == defs_view(data.catalog@),
                pairs_view(owned@).to_set() == ov,
                defs_view(candidates@) == not_owned(cat.subrange(0, i as int), ov),
            decreases data.catalog.len() - i,
        {
            let d = &data.catalog[i];
            assert(cat.subrange(0, i + 1).drop_last() =~= cat.subrange(0, i as int));
            assert(cat.subrange(0, i + 1).last() == d@);
            if !has_column(&owned, &d.sheet, &d.col) {
                let ghost before = candidates@;
                candidates.push(d.clone());
                assert(defs_view(candidates@) =~= defs_view(before).push(d@));
            }
            i += 1;
        }
        assert(cat.subrange(0, data.catalog.len() as int) =~= cat);
        if candidates.len() == 0 {
            self.status = crate::text::owned("No remaining awards to add for this user");
            self.status_kind = StatusKind::Info;
            return;
        }
        let filtered = clone_defs(&candidates);
        self.edit = None;
        self.add_picker = Some(AddPicker {
            candidates,
            filter: String::new(),
            filtered,
            selected: None,
            suffix: String::new(),
            submitting: false,
        });
    }

    /// Narrow the picker's list to `text`.
    pub fn update_filter(&mut self, text: String)
        ensures
            old(self).add_picker is None ==> *final(self) == *old(self),
            old(self).add_picker matches Some(p) ==> {
                &&& *final(self) == (GuiApp { add_picker: final(self).add_picker, ..*old(self) })
                &&& final(self).add_picker matches Some(q)
                &&& q == (AddPicker { filter: text, filtered: q.filtered, ..p })
                &&& defs_view(q.filtered@) == defs_matching(defs_view(p.candidates@), crate::text::lower_seq(trim(text@)))
            },
    {
        match self.add_picker.take() {
            Some(mut p) => {
                let filtered = match_catalog_entries(p.candidates.as_slice(), text.as_str());
                p.filter = text;
                p.filtered = filtered;
                self.add_picker = Some(p);
            },
            None => {},
        }
    }

    /// Choose an award; nothing is written.
    pub fn select(&mut self, def: AwardDef)
        ensures
            old(self).add_picker is None ==> *final(self) == *old(self),
            old(self).add_picker matches Some(p) ==> *final(self) == (GuiApp {
                add_picker: Some(AddPicker { selected: Some(def), ..p }),
                ..*old(self)
            }),
    {
        match self.add_picker.take() {
            Some(mut p) => {
                p.selected = Some(def);
                self.add_picker = Some(p);
            },
            None => {},
        }
    }

    pub fn set_suffix(&mut self, suffix: String)
        ensures
            old(self).add_picker is None ==> *final(self) == *old(self),
            old(self).add_picker matches Some(p) ==> *final(self) == (GuiApp {
                add_picker: Some(AddPicker { suffix, ..p }),
                ..*old(self)
            }),
    {
        match self.add_picker.take() {
            Some(mut p) => {
                p.suffix = suffix;
                self.add_picker = Some(p);
            },
            None => {},
        }
    }

    /// Close the picker; nothing is written.
    pub fn cancel_add(&mut self)
        ensures
            *final(self) == (GuiApp { add_picker: None, ..*old(self) }),
    {
        self.add_picker = None;
    }

    /// A confirm would start a write now.
    pub fn can_confirm_add(&self) -> (r: bool)
        ensures
            r == can_add(*self),
    {
        self.auth == AuthState::SignedIn && match &self.add_picker {
            Some(p) => p.selected.is_some() && !p.submitting,
            None => false,
        }
    }

    /// Confirm the selection: the add to run, with the picker marked busy.
    pub fn confirm_add(&mut self) -> (r: Option<AddRequest>)
        ensures
            (!can_add(*old(self)) || old(self).looked_up is None) ==> r is None && *final(self) == *old(self),
            (can_add(*old(self)) && old(self).looked_up is Some) ==> {
                let p = old(self).add_picker.unwrap();
                &&& *final(self) == (GuiApp { add_picker: Some(AddPicker { submitting: true, ..p }), ..*old(self) })
                &&& r matches Some(q) && q.username@ == old(self).looked_up.unwrap().username@
                    && q.award_def == p.selected.unwrap() && q.suffix@ == p.suffix@
            },
    {
        if !self.can_confirm_add() {
            return None;
        }
        let username = match &self.looked_up {
            Some(u) => copy_string(&u.username),
            None => return None,
        };
        match self.add_picker.take() {
            Some(mut p) => {
                let award_def = match &p.selected {
                    Some(d) => d.clone(),
                    None => {
                        self.add_picker = Some(p);
                        return None;
                    },
                };
                let suffix = copy_string(&p.suffix);
                p.submitting = true;
                self.add_picker = Some(p);
                Some(AddRequest { username, award_def, suffix })
            },
            None => None,
        }
    }

    /// An add finished: on success file the award and close the picker; on
    /// refusal keep the picker and its selection.
    pub fn handle_add_done(&mut self, username: String, result: EditResult)
        ensures
            add_done(*old(self), *final(self), username, result),
    {
        let (status, kind) = describe_result(&result);
        if result.ok {
            if let Some(award) = &result.award {
                match self.data.take() {
                    Some(mut d) => {
                        upsert_award_in_index(&mut d.index, award);
                        self.data = Some(d);
                    },
                    None => {},
                }
                match self.looked_up.take() {
                    Some(mut l) => {
                        if crate::text::str_eq(l.username.as_str(), username.as_str()) {
                            let ghost before = l.awards@;
                            l.awards.push(award.clone());
                            assert(awards_view(l.awards@) =~= awards_view(before).push(award@));
                            l.not_found = false;
                        }
                        self.looked_up = Some(l);
                    },
                    None => {},
                }
            }
            self.add_picker = None;
        } else {
            match self.add_picker.take() {
                Some(mut p) => {
                    p.submitting = false;
                    self.add_picker = Some(p);
                },
                None => {},
            }
        }
        self.status = status;
        self.status_kind = kind;
    }

    /// Open the correction of one shown award, prefilled with its cell (or its
    /// name when the cell is empty); any open picker closes.
    pub fn open_edit(&mut self, award: Award)
        ensures
            *final(self) == (GuiApp { add_picker: None, edit: final(self).edit, ..*old(self) }),
            final(self).edit matches Some(e) && e.award == award && !e.submitting && e.input@ == (if award@.cell.len()
                == 0 {
                award@.name
            } else {
                award@.cell
            }),
    {
        let value = if award.cell.as_str().is_empty() {
            copy_string(&award.name)
        } else {
            copy_string(&award.cell)
        };
        self.add_picker = None;
        self.edit = Some(EditFlow { award, input: value, submitting: false });
    }

    pub fn set_edit_input(&mut self, text: String)
        ensures
            old(self).edit is None ==> *final(self) == *old(self),
            old(self).edit matches Some(e) ==> *final(self) == (GuiApp {
                edit: Some(EditFlow { input: text, ..e }),
                ..*old(self)
            }),
    {
        match self.edit.take() {
            Some(mut e) => {
                e.input = text;
                self.edit = Some(e);
            },
            None => {},
        }
    }

    /// Close the correction; nothing is written.
    pub fn cancel_edit(&mut self)
        ensures
            *final(self) == (GuiApp { edit: None, ..*old(self) }),
    {
        self.edit = None;
    }

    /// A confirm would start a write now.
    pub fn can_confirm_edit(&self) -> (r: bool)
        ensures
            r == can_edit(*self),
    {
        self.auth == AuthState::SignedIn && match &self.edit {
            Some(e) => crate::text::trim_str(e.input.as_str()).len() > 0 && !e.submitting,
            None => false,
        }
    }

    /// Confirm the correction: the write to run, with the flow marked busy.
    pub fn confirm_edit(&mut self) -> (r: Option<EditRequest>)
        ensures
            (!can_edit(*old(self)) || old(self).looked_up is None) ==> r is None && *final(self) == *old(self),
            (can_edit(*old(self)) && old(self).looked_up is Some) ==> {
                let e = old(self).edit.unwrap();
                &&& *final(self) == (GuiApp { edit: Some(EditFlow { submitting: true, ..e }), ..*old(self) })
                &&& r matches Some(q) && q.username@ == old(self).looked_up.unwrap().username@ && q.award == e.award
                    && q.new_cell@ == trim(e.input@)
            },
    {
        if !self.can_confirm_edit() {
            return None;
        }
        let username = match &self.looked_up {
            Some(u) => copy_string(&u.username),
            None => return None,
        };
        match self.edit.take() {
            Some(mut e) => {
                let award = e.award.clone();
                let new_cell = crate::text::trimmed_string(e.input.as_str());
                e.submitting = true;
                self.edit = Some(e);
                Some(EditRequest { username, award, new_cell })
            },
            None => None,
        }
    }

    /// A correction finished: on success refile the award and reload the
    /// viewed member's list from the index (so a cell that moved to another
    /// member drops out); on refusal keep the flow open.
    pub fn handle_edit_done(&mut self, viewed_username: String, result: EditResult)
        ensures
            edit_done(*old(self), *final(self), viewed_username, result),
    {
        let (status, kind) = describe_result(&result);
        if result.ok {
            let mut moved = false;
            if let Some(award) = &result.award {
                match self.data.take() {
                    Some(mut d) => {
                        upsert_award_in_index(&mut d.index, award);
                        self.data = Some(d);
                    },
                    None => {},
                }
                match self.looked_up.take() {
                    Some(mut l) => {
                        if crate::text::str_eq(l.username.as_str(), viewed_username.as_str()) {
                            match &self.data {
                                Some(d) => {
                                    l.awards = get_awards_for_username(&d.index, viewed_username.as_str());
                                    l.not_found = l.awards.len() == 0;
                                    moved = !holds_column(&l.awards, &award.sheet, &award.col);
                                },
                                None => {},
                            }
                        }
                        self.looked_up = Some(l);
                    },
                    None => {},
                }
            }
            self.edit = None;
            if moved {
                let mut v = chars_of(status.as_str());
                extend_str(&mut v, " · no longer under @");
                extend_str(&mut v, viewed_username.as_str());
                self.status = string_of(&v);
            } else {
                self.status = status;
            }
            self.status_kind = kind;
        } else {
            match self.edit.take() {
                Some(mut e) => {
                    e.submitting = false;
                    self.edit = Some(e);
                },
                None => {},
            }
            self.status = status;
            self.status_kind = kind;
        }
    }

    /// Begin signing in unless it is already running; `true` when the caller
    /// should start the sign-in.
    pub fn start_sign_in(&mut self) -> (r: bool)
        ensures
            r == (old(self).auth != AuthState::SigningIn),
            !r ==> *final(self) == *old(self),
            r ==> *final(self) == (GuiApp {
                auth: AuthState::SigningIn,
                status: final(self).status,
                status_kind: StatusKind::Info,
                ..*old(self)
            }) && final(self).status@ == "Signing in..."@,
    {
        if self.auth == AuthState::SigningIn {
            return false;
        }
        self.auth = AuthState::SigningIn;
        self.status = crate::text::owned("Signing in...");
        self.status_kind = StatusKind::Info;
        true
    }

    /// Sign-in finished: show its message and re-read sign-in from the files
    /// rather than trusting the outcome.
    pub fn handle_login_done(&mut self, result: Result<String, String>, info: &AuthInfo)
        ensures
            login_done(*old(self), *final(self), result, *info),
    {
        match result {
            Ok(msg) => {
                self.status = msg;
                self.status_kind = StatusKind::Success;
            },
            Err(msg) => {
                self.status = msg;
                self.status_kind = StatusKind::Error;
            },
        }
        self.refresh_auth_state(info);
    }

    /// Signed out (the caller has removed the session): close both write flows.
    pub fn sign_out(&mut self, info: &AuthInfo)
        ensures
            *final(self) == (GuiApp {
                add_picker: None,
                edit: None,
                auth: auth_of(info.status@),
                account_label: final(self).account_label,
                can_sign_out: info.can_sign_out,
                status: final(self).status,
                status_kind: StatusKind::Info,
                ..*old(self)
            }),
            final(self).status@ == "Signed out."@,
    {
        self.add_picker = None;
        self.edit = None;
        self.refresh_auth_state(info);
        self.status = crate::text::owned("Signed out.");
        self.status_kind = StatusKind::Info;
    }
}

/// Signed in, with an award chosen and no write running.
pub open spec fn can_add(g: GuiApp) -> bool {
    g.auth == AuthState::SignedIn && picker_ready(g.add_picker)
}

/// Signed in, with a correction that is not blank and no write running.
pub open spec fn can_edit(g: GuiApp) -> bool {
    g.auth == AuthState::SignedIn && edit_ready(g.edit)
}

/// An award is chosen and no write is running.
pub open spec fn picker_ready(p: Option<AddPicker>) -> bool {
    match p {
        Some(p) => p.selected is Some && !p.submitting,
        None => false,
    }
}

/// The correction is not blank and no write is running.
pub open spec fn edit_ready(e: Option<EditFlow>) -> bool {
    match e {
        Some(e) => trim(e.input@).len() > 0 && !e.submitting,
        None => false,
    }
}

/// No award of `awards` is in column (`sheet`, `col`).
pub open spec fn column_absent(awards: Seq<AwardView>, sheet: Seq<char>, col: Seq<char>) -> bool {
    !(exists|i: int| 0 <= i < awards.len() && (#[trigger] awards[i]).sheet == sheet && awards[i].col == col)
}

fn holds_column(awards: &Vec<Award>, sheet: &String, col: &String) -> (r: bool)
    ensures
        r == !column_absent(awards_view(awards@), sheet@, col@),
{
    let ghost av = awards_view(awards@);
    let mut i: usize = 0;
    while i < awards.len()
        invariant
            i <= awards.len(),
            av == awards_view(awards@),
            forall|k: int| 0 <= k < i ==> !((#[trigger] av[k]).sheet == sheet@ && av[k].col == col@),
        decreases awards.len() - i,
    {
        if crate::text::str_eq(awards[i].sheet.as_str(), sheet.as_str()) && crate::text::str_eq(awards[i].col.as_str(), col.as_str()) {
            assert(av[i as int].sheet == sheet@ && av[i as int].col == col@);
            return true;
        }
        i += 1;
    }
    false
}

pub(crate) fn has_column(owned: &Vec<(String, String)>, sheet: &String, col: &String) -> (r: bool)
    ensures
        r == pairs_view(owned@).to_set().contains((sheet@, col@)),
{
    let ghost pv = pairs_view(owned@);
    let mut i: usize = 0;
    while i < owned.len()
        invariant
            i <= owned.len(),
            pv == pairs_view(owned@),
            forall|k: int| 0 <= k < i ==> pv[k] != (sheet@, col@),
        decreases owned.len() - i,
    {
        if crate::text::str_eq(owned[i].0.as_str(), sheet.as_str()) && crate::text::str_eq(owned[i].1.as_str(), col.as_str()) {
            assert(pv[i as int] == (sheet@, col@));
            assert(pv.contains((sheet@, col@)));
            return true;
        }
        i += 1;
    }
    assert(!pv.contains((sheet@, col@)));
    false
}

fn clone_defs(v: &Vec<AwardDef>) -> (r: Vec<AwardDef>)
    ensures
        r@ == v@,
{
    let mut r: Vec<AwardDef> = Vec::new();
    let mut i: usize = 0;
    while i < v.len()
        invariant
            i <= v.len(),
            r@ == v@.subrange(0, i as int),
        decreases v.len() - i,
    {
        r.push(v[i].clone());
        i += 1;
        assert(r@ =~= v@.subrange(0, i as int));
    }
    assert(v@.subrange(0, v.len() as int) =~= v@);
    r
}

} // verus!
