use awards::edit::{EditError, EditResult};
use awards::gui::{AuthInfo, AuthState, GuiApp, GuiMsg, StatusKind};
use awards::types::{Award, AwardDef, AwardIndex, AwardsData, SheetRows};

fn award(category: &str, base_name: &str, sheet: &str, col: &str, row: i32, cell: &str) -> Award {
    Award::new(category, base_name).with_location(sheet, col, row).with_cell(cell, base_name)
}

fn def(category: &str, sheet: &str, col: &str, base_name: &str) -> AwardDef {
    AwardDef {
        category: category.to_string(),
        sheet: sheet.to_string(),
        col: col.to_string(),
        base_name: base_name.to_string(),
    }
}

fn no_data_app() -> GuiApp {
    let mut app = GuiApp::new();
    app.syncing = true;
    app
}

/// What the credential files say on a machine with none.
fn no_credentials() -> AuthInfo {
    AuthInfo { status: "missing".to_string(), account_label: None, can_sign_out: false }
}

fn sample_data() -> AwardsData {
    let mut index = AwardIndex::new();
    index.insert(
        "torba_f".to_string(),
        vec![award("badges", "Army Parachutist Badge", "Badges Database", "C", 5, "torba_f")],
    );
    AwardsData {
        index,
        catalog: vec![
            def("badges", "Badges Database", "C", "Army Parachutist Badge"),
            def("badges", "Badges Database", "D", "Air Assault Badge"),
            def("ribbons", "Ribbons Database", "E", "Good Conduct Ribbon"),
        ],
        sheet_rows: SheetRows::new(),
    }
}

fn synced_and_looked_up() -> GuiApp {
    let mut app = no_data_app();
    app.handle_msg(GuiMsg::SyncDone(Ok(sample_data())));
    app.username_input = "torba_f".to_string();
    app.submit_lookup();
    app
}

#[test]
fn handle_sync_done_ok_populates_data_and_clears_syncing() {
    let mut app = no_data_app();
    app.handle_msg(GuiMsg::SyncDone(Ok(sample_data())));
    assert!(!app.syncing);
    assert!(app.sync_error.is_none());
    assert_eq!(app.data.unwrap().catalog.len(), 3);
}

#[test]
fn start_sync_is_a_no_op_while_a_sync_is_already_running() {
    let mut app = no_data_app();
    app.syncing = true;
    let status_before = app.status.clone();
    assert!(!app.start_sync(), "no second fetch may start");
    assert_eq!(app.status, status_before);
}

#[test]
fn handle_sync_done_err_leaves_previously_synced_data_untouched() {
    let mut app = no_data_app();
    app.handle_msg(GuiMsg::SyncDone(Ok(sample_data())));
    assert!(app.data.is_some());
    app.handle_msg(GuiMsg::SyncDone(Err("connection dropped".to_string())));
    assert!(!app.syncing);
    assert_eq!(app.sync_error.as_deref(), Some("connection dropped"));
    assert!(app.data.is_some(), "a failed refresh must not blank out previously-synced data");
}

#[test]
fn handle_sync_done_err_sets_sync_error_and_clears_syncing() {
    let mut app = no_data_app();
    app.handle_msg(GuiMsg::SyncDone(Err("network down".to_string())));
    assert!(!app.syncing);
    assert!(app.data.is_none());
    assert_eq!(app.sync_error.as_deref(), Some("network down"));
}

#[test]
fn submit_lookup_known_username_populates_awards() {
    let app = synced_and_looked_up();
    let looked_up = app.looked_up.expect("lookup should populate looked_up");
    assert!(!looked_up.not_found);
    assert_eq!(looked_up.awards.len(), 1);
}

#[test]
fn submit_lookup_unknown_username_sets_not_found() {
    let mut app = no_data_app();
    app.handle_msg(GuiMsg::SyncDone(Ok(sample_data())));
    app.username_input = "nobody_here".to_string();
    app.submit_lookup();
    let looked_up = app.looked_up.expect("lookup should still populate looked_up");
    assert!(looked_up.not_found);
    assert!(looked_up.awards.is_empty());
}

#[test]
fn submit_lookup_before_sync_completes_does_not_panic() {
    let mut app = no_data_app();
    app.username_input = "torba_f".to_string();
    app.submit_lookup();
    assert!(app.looked_up.is_none());
}

#[test]
fn submit_lookup_after_a_failed_sync_reports_the_failure_not_still_syncing() {
    let mut app = no_data_app();
    app.handle_msg(GuiMsg::SyncDone(Err("network down".to_string())));
    app.username_input = "torba_f".to_string();
    app.submit_lookup();
    assert!(app.looked_up.is_none());
    assert!(app.status.contains("Sync failed"));
    assert!(!app.status.contains("Still syncing"));
}

#[test]
fn open_add_picker_excludes_already_owned_awards() {
    let mut app = synced_and_looked_up();
    app.open_add_picker();
    let picker = app.add_picker.expect("candidates remain, picker should open");
    assert_eq!(picker.candidates.len(), 2);
    assert!(picker.candidates.iter().all(|d| d.base_name != "Army Parachutist Badge"));
}

#[test]
fn open_add_picker_with_nothing_left_stays_closed() {
    let mut app = no_data_app();
    let mut data = sample_data();
    data.catalog.retain(|d| d.base_name == "Army Parachutist Badge");
    app.handle_msg(GuiMsg::SyncDone(Ok(data)));
    app.username_input = "torba_f".to_string();
    app.submit_lookup();
    app.open_add_picker();
    assert!(app.add_picker.is_none());
    assert_eq!(app.status, "No remaining awards to add for this user");
}

#[test]
fn update_filter_narrows_to_matching_candidates() {
    let mut app = synced_and_looked_up();
    app.open_add_picker();
    app.update_filter("air".to_string());
    let picker = app.add_picker.unwrap();
    assert_eq!(picker.filtered.len(), 1);
    assert_eq!(picker.filtered[0].base_name, "Air Assault Badge");
}

#[test]
fn select_only_sets_selection_no_write() {
    let mut app = synced_and_looked_up();
    app.open_add_picker();
    let candidate = app.add_picker.as_ref().unwrap().candidates[0].clone();
    app.select(candidate.clone());
    assert_eq!(app.add_picker.unwrap().selected, Some(candidate));
}

fn added_air_assault() -> EditResult {
    EditResult {
        ok: true,
        message: "Added Air Assault Badge".to_string(),
        error: None,
        award: Some(award("badges", "Air Assault Badge", "Badges Database", "D", 5, "torba_f")),
        awards: Vec::new(),
    }
}

#[test]
fn handle_add_done_ok_appends_award_and_closes_picker() {
    let mut app = synced_and_looked_up();
    app.open_add_picker();
    let candidate = app.add_picker.as_ref().unwrap().candidates[0].clone();
    app.select(candidate.clone());
    app.handle_add_done("torba_f".to_string(), added_air_assault());
    assert!(app.add_picker.is_none());
    assert_eq!(app.looked_up.unwrap().awards.len(), 2);
    assert_eq!(app.status, "Added Air Assault Badge");
    assert_eq!(app.status_kind, StatusKind::Success);
}

#[test]
fn handle_add_done_ok_keeps_a_later_relookup_of_the_same_user_accurate() {
    let mut app = no_data_app();
    let mut data = sample_data();
    data.index.insert("someone_else".to_string(), Vec::new());
    app.handle_msg(GuiMsg::SyncDone(Ok(data)));
    app.username_input = "torba_f".to_string();
    app.submit_lookup();
    app.open_add_picker();
    let candidate = app.add_picker.as_ref().unwrap().candidates[0].clone();
    app.select(candidate.clone());
    app.handle_add_done("torba_f".to_string(), added_air_assault());

    app.username_input = "someone_else".to_string();
    app.submit_lookup();
    app.username_input = "torba_f".to_string();
    app.submit_lookup();

    assert_eq!(app.looked_up.unwrap().awards.len(), 2);
}

fn refused_stale() -> EditResult {
    EditResult {
        ok: false,
        message: "That cell changed since you looked up this user — refresh and retry".to_string(),
        error: None,
        award: None,
        awards: Vec::new(),
    }
}

#[test]
fn handle_add_done_failure_keeps_picker_open_with_selection_intact() {
    let mut app = synced_and_looked_up();
    app.open_add_picker();
    let candidate = app.add_picker.as_ref().unwrap().candidates[0].clone();
    app.select(candidate.clone());
    app.add_picker.as_mut().unwrap().submitting = true;
    app.handle_add_done("torba_f".to_string(), refused_stale());
    let picker = app.add_picker.expect("picker stays open on a refused write");
    assert!(!picker.submitting);
    assert_eq!(picker.selected, Some(candidate));
    assert_eq!(app.looked_up.unwrap().awards.len(), 1);
    assert_eq!(app.status_kind, StatusKind::Error);
}

#[test]
fn handle_add_done_api_failure_shows_plain_language_not_the_raw_error() {
    let mut app = synced_and_looked_up();
    app.open_add_picker();
    let candidate = app.add_picker.as_ref().unwrap().candidates[0].clone();
    app.select(candidate);
    app.handle_add_done(
        "torba_f".to_string(),
        EditResult {
            ok: false,
            message: "Sheets API HTTP 401: {\"error\":\"invalid_grant\"}".to_string(),
            error: Some(EditError::Api("HTTP 401: {\"error\":\"invalid_grant\"}".to_string())),
            award: None,
            awards: Vec::new(),
        },
    );
    assert_eq!(app.status, "Couldn't reach Google Sheets. Check your connection and try again.");
    assert_eq!(app.status_kind, StatusKind::Error);
}

#[test]
fn handle_login_done_ok_refreshes_to_signed_in_when_status_agrees() {
    let mut app = no_data_app();
    app.auth = AuthState::SigningIn;
    app.handle_login_done(Ok("Signed in.".to_string()), &no_credentials());
    assert_eq!(app.status, "Signed in.");
    assert_eq!(app.status_kind, StatusKind::Success);
    assert_ne!(app.auth, AuthState::SigningIn);
}

#[test]
fn handle_login_done_err_leaves_auth_not_signed_in() {
    let mut app = no_data_app();
    app.auth = AuthState::SigningIn;
    app.handle_login_done(Err("No credentials found".to_string()), &no_credentials());
    assert_eq!(app.status, "No credentials found");
    assert_eq!(app.status_kind, StatusKind::Error);
    assert_ne!(app.auth, AuthState::SignedIn);
}

#[test]
fn confirm_add_is_a_no_op_without_a_selection() {
    let mut app = synced_and_looked_up();
    app.open_add_picker();
    app.auth = AuthState::SignedIn;
    assert!(app.confirm_add().is_none(), "no write may start");
    assert!(!app.add_picker.unwrap().submitting);
}

#[test]
fn confirm_add_is_a_no_op_when_not_signed_in() {
    let mut app = synced_and_looked_up();
    app.open_add_picker();
    let candidate = app.add_picker.as_ref().unwrap().candidates[0].clone();
    app.select(candidate);
    app.auth = AuthState::SignedOut;
    assert!(app.confirm_add().is_none(), "no write may start");
    assert!(!app.add_picker.unwrap().submitting);
}

#[test]
fn cancel_add_drops_the_picker_with_no_side_effect() {
    let mut app = synced_and_looked_up();
    app.open_add_picker();
    assert!(app.add_picker.is_some());
    app.cancel_add();
    assert!(app.add_picker.is_none());
    assert_eq!(app.looked_up.unwrap().awards.len(), 1);
}

#[test]
fn open_edit_prefills_input_from_the_cell_when_present() {
    let mut app = synced_and_looked_up();
    let existing = app.looked_up.as_ref().unwrap().awards[0].clone();
    app.open_edit(existing.clone());
    let edit = app.edit.expect("edit flow should open");
    assert_eq!(edit.input, existing.cell);
    assert!(!edit.submitting);
}

#[test]
fn open_edit_falls_back_to_the_name_when_the_cell_is_empty() {
    let mut app = no_data_app();
    let blank_cell = award("badges", "Army Parachutist Badge", "Badges Database", "C", 5, "");
    app.open_edit(blank_cell.clone());
    assert_eq!(app.edit.unwrap().input, blank_cell.name);
}

#[test]
fn open_edit_closes_any_open_add_picker() {
    let mut app = synced_and_looked_up();
    app.open_add_picker();
    assert!(app.add_picker.is_some());
    let existing = app.looked_up.as_ref().unwrap().awards[0].clone();
    app.open_edit(existing);
    assert!(app.add_picker.is_none());
    assert!(app.edit.is_some());
}

#[test]
fn open_add_picker_closes_any_open_edit() {
    let mut app = synced_and_looked_up();
    let existing = app.looked_up.as_ref().unwrap().awards[0].clone();
    app.open_edit(existing);
    assert!(app.edit.is_some());
    app.open_add_picker();
    assert!(app.edit.is_none());
    assert!(app.add_picker.is_some());
}

#[test]
fn set_edit_input_updates_the_field() {
    let mut app = no_data_app();
    let existing = award("badges", "Army Parachutist Badge", "Badges Database", "C", 5, "torba_f");
    app.open_edit(existing);
    app.set_edit_input("torba_f x2".to_string());
    assert_eq!(app.edit.unwrap().input, "torba_f x2");
}

#[test]
fn cancel_edit_drops_the_flow_with_no_side_effect() {
    let mut app = synced_and_looked_up();
    let existing = app.looked_up.as_ref().unwrap().awards[0].clone();
    app.open_edit(existing);
    app.cancel_edit();
    assert!(app.edit.is_none());
    assert_eq!(app.looked_up.unwrap().awards.len(), 1);
}

#[test]
fn can_confirm_edit_false_without_an_open_edit() {
    let mut app = no_data_app();
    app.auth = AuthState::SignedIn;
    assert!(!app.can_confirm_edit());
}

#[test]
fn can_confirm_edit_false_when_not_signed_in() {
    let mut app = no_data_app();
    let existing = award("badges", "Army Parachutist Badge", "Badges Database", "C", 5, "torba_f");
    app.open_edit(existing);
    app.auth = AuthState::SignedOut;
    assert!(!app.can_confirm_edit());
}

#[test]
fn can_confirm_edit_false_with_a_blank_input() {
    let mut app = no_data_app();
    let existing = award("badges", "Army Parachutist Badge", "Badges Database", "C", 5, "torba_f");
    app.open_edit(existing);
    app.auth = AuthState::SignedIn;
    app.set_edit_input("   ".to_string());
    assert!(!app.can_confirm_edit());
}

#[test]
fn confirm_edit_is_a_no_op_when_not_signed_in() {
    let mut app = no_data_app();
    let existing = award("badges", "Army Parachutist Badge", "Badges Database", "C", 5, "torba_f");
    app.open_edit(existing);
    app.auth = AuthState::SignedOut;
    assert!(app.confirm_edit().is_none(), "no write may start");
    assert!(!app.edit.unwrap().submitting);
}

#[test]
fn handle_edit_done_ok_updates_the_awards_cell_text_in_place() {
    let mut app = synced_and_looked_up();
    let existing = app.looked_up.as_ref().unwrap().awards[0].clone();
    app.open_edit(existing.clone());
    app.auth = AuthState::SignedIn;
    app.set_edit_input("torba_f x2".to_string());
    let request = app.confirm_edit().expect("the write starts");
    assert_eq!(request.new_cell, "torba_f x2");

    let updated = award("badges", "Army Parachutist Badge x2", "Badges Database", "C", 5, "torba_f x2");
    app.handle_edit_done(
        "torba_f".to_string(),
        EditResult {
            ok: true,
            message: "Updated C5 → torba_f x2".to_string(),
            error: None,
            award: Some(updated),
            awards: Vec::new(),
        },
    );
    assert!(app.edit.is_none());
    let awards = app.looked_up.unwrap().awards;
    assert_eq!(awards.len(), 1);
    assert_eq!(awards[0].cell, "torba_f x2");
    assert_eq!(app.status, "Updated C5 → torba_f x2");
    assert_eq!(app.status_kind, StatusKind::Success);
}

#[test]
fn handle_edit_done_ok_drops_the_award_when_it_moves_to_a_different_user() {
    let mut app = synced_and_looked_up();
    let existing = app.looked_up.as_ref().unwrap().awards[0].clone();
    app.open_edit(existing);
    app.auth = AuthState::SignedIn;
    app.set_edit_input("someone_else".to_string());
    app.confirm_edit();

    let moved = award("badges", "Army Parachutist Badge", "Badges Database", "C", 5, "someone_else");
    app.handle_edit_done(
        "torba_f".to_string(),
        EditResult {
            ok: true,
            message: "Updated C5 → someone_else".to_string(),
            error: None,
            award: Some(moved),
            awards: Vec::new(),
        },
    );
    let looked_up = app.looked_up.unwrap();
    assert!(looked_up.awards.is_empty());
    assert!(looked_up.not_found);
    assert!(app.status.contains("no longer under @torba_f"));
}

#[test]
fn handle_edit_done_failure_keeps_the_flow_open_with_input_intact() {
    let mut app = synced_and_looked_up();
    let existing = app.looked_up.as_ref().unwrap().awards[0].clone();
    app.open_edit(existing);
    app.auth = AuthState::SignedIn;
    app.set_edit_input("torba_f x2".to_string());
    app.edit.as_mut().unwrap().submitting = true;
    app.handle_edit_done("torba_f".to_string(), refused_stale());
    let edit = app.edit.expect("edit flow stays open on a refused write");
    assert!(!edit.submitting);
    assert_eq!(edit.input, "torba_f x2");
    assert_eq!(app.looked_up.unwrap().awards.len(), 1);
    assert_eq!(app.status_kind, StatusKind::Error);
}

#[test]
fn a_fresh_lookup_closes_any_open_edit() {
    let mut app = synced_and_looked_up();
    let existing = app.looked_up.as_ref().unwrap().awards[0].clone();
    app.open_edit(existing);
    assert!(app.edit.is_some());
    app.username_input = "someone_else".to_string();
    app.submit_lookup();
    assert!(app.edit.is_none());
}

#[test]
fn drained_jobs_apply_in_order() {
    let mut app = no_data_app();
    app.drain_messages(vec![
        GuiMsg::SyncDone(Err("first".to_string())),
        GuiMsg::SyncDone(Ok(sample_data())),
        GuiMsg::LoginDone(Err("nope".to_string()), no_credentials()),
    ]);
    assert!(!app.syncing);
    assert!(app.sync_error.is_none(), "the later successful sync clears the error");
    assert!(app.data.is_some());
    assert_eq!(app.status, "nope");
    assert_eq!(app.auth, AuthState::SignedOut);
}

#[test]
fn signing_in_twice_starts_once() {
    let mut app = no_data_app();
    assert!(app.start_sign_in());
    assert_eq!(app.status, "Signing in...");
    assert!(!app.start_sign_in());
    app.handle_login_done(
        Ok("Signed in.".to_string()),
        &AuthInfo { status: "oauth_token".to_string(), account_label: Some("clerk@example.com".to_string()), can_sign_out: true },
    );
    assert_eq!(app.auth, AuthState::SignedIn);
    assert_eq!(app.account_label.as_deref(), Some("clerk@example.com"));
    app.sign_out(&no_credentials());
    assert_eq!(app.auth, AuthState::SignedOut);
    assert!(app.account_label.is_none());
    assert_eq!(app.status, "Signed out.");
}
