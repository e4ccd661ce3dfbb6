use awards::audit::{columns_fit_check, rows_fit_check};
use awards::colors::parse_hex_color;
use awards::browser::{Key, KeyCode, KeyKind, Modal, Task, WriteTask};
use awards::console::{auth_note, App};
use awards::edit::EditResult;
use awards::meta::col_fits_check;
use awards::text::text_lines;
use awards::tui::{AwardTab, FocusArea, PasteAddModal, WorkerMsg};
use awards::types::{Award, AwardColumn, AwardsData, SheetRows};

fn key(code: KeyCode) -> Key {
    Key { code, modifiers: 0, kind: KeyKind::Press }
}

fn award(name: &str, sheet: &str, col: &str, row: i32, cell: &str) -> Award {
    Award::new("badges", name).with_location(sheet, col, row).with_cell(cell, name)
}

fn data_for(username: &str, awards: Vec<Award>) -> AwardsData {
    let mut data = AwardsData::empty();
    data.index.insert(username.to_string(), awards);
    data
}

fn type_text(app: &mut App, text: &str) {
    for c in text.chars() {
        app.handle_key(key(KeyCode::Char(c)), "missing");
    }
}

#[test]
fn typed_lookup_lists_the_member_and_moves_focus() {
    let mut app = App::new(None, Vec::new());
    app.data = Some(data_for("alice", vec![award("Combat Action Badge", "Badges Database", "C", 10, "alice")]));
    type_text(&mut app, "@Alice");
    let tasks = app.handle_key(key(KeyCode::Enter), "missing");
    assert!(tasks.is_empty());
    assert_eq!(app.results_username.as_deref(), Some("alice"));
    assert_eq!(app.results.len(), 1);
    assert_eq!(app.visible.len(), 1);
    assert_eq!(app.awards_state, Some(0));
    assert_eq!(app.focus, FocusArea::Awards);
    assert_eq!(app.status, "alice · 1 award(s) · a/e/d · F5 refresh");
}

#[test]
fn lookup_of_an_empty_name_asks_for_one() {
    let mut app = App::new(None, Vec::new());
    app.data = Some(AwardsData::empty());
    app.handle_key(key(KeyCode::Enter), "missing");
    assert_eq!(app.status, "Enter a username");
    assert!(app.results_username.is_none());
}

#[test]
fn lookup_while_signed_in_starts_a_live_row_check() {
    let mut app = App::new(None, Vec::new());
    app.data = Some(data_for("alice", vec![award("Combat Action Badge", "Badges Database", "C", 10, "alice")]));
    type_text(&mut app, "alice");
    let tasks = app.handle_key(key(KeyCode::Enter), "oauth_token");
    assert_eq!(app.reconcile_gen, 1);
    match tasks.as_slice() {
        [Task::Reconcile { gen, username, results, duplicates }] => {
            assert_eq!(*gen, 1);
            assert_eq!(username, "alice");
            assert_eq!(results.len(), 1);
            assert!(duplicates.is_empty());
        },
        other => panic!("expected one live-row check, got {other:?}"),
    }
}

#[test]
fn live_rows_from_an_older_lookup_are_dropped() {
    let mut app = App::new(None, Vec::new());
    app.data = Some(data_for("alice", vec![award("Combat Action Badge", "Badges Database", "C", 10, "alice")]));
    type_text(&mut app, "alice");
    app.handle_key(key(KeyCode::Enter), "oauth_token");
    app.handle_key(key(KeyCode::Tab), "oauth_token");
    app.handle_key(key(KeyCode::BackTab), "oauth_token");
    let moved = vec![award("Combat Action Badge", "Badges Database", "C", 11, "alice")];
    app.handle_worker_msg(
        WorkerMsg::RowsFixed { gen: 0, username: "alice".into(), results: moved.clone(), duplicates: Vec::new() },
        "oauth_token",
        String::new(),
    );
    assert_eq!(app.results[0].row, 10, "an answer for an older lookup changes nothing");
    app.handle_worker_msg(
        WorkerMsg::RowsFixed { gen: 1, username: "alice".into(), results: moved, duplicates: Vec::new() },
        "oauth_token",
        String::new(),
    );
    assert_eq!(app.results[0].row, 11);
}

#[test]
fn sync_done_reports_members_and_credentials() {
    let mut app = App::new(Some("/etc/awards.toml".into()), Vec::new());
    assert_eq!(app.status, "Loading… · config /etc/awards.toml");
    let task = app.start_sync();
    assert!(matches!(task, Task::Sync));
    assert!(app.loading);
    let tasks = app.handle_worker_msg(
        WorkerMsg::SyncDone(Ok(data_for("alice", Vec::new()))),
        "missing",
        "2026-01-01 00:00:00 UTC".into(),
    );
    assert!(tasks.is_empty());
    assert!(!app.loading);
    assert_eq!(app.synced_at.as_deref(), Some("2026-01-01 00:00:00 UTC"));
    assert_eq!(app.status, "Ready · 1 users · write: no credentials");
    app.handle_worker_msg(WorkerMsg::SyncDone(Err("offline".into())), "missing", String::new());
    assert_eq!(app.status, "Sync failed: offline");
}

#[test]
fn auth_note_names_each_credential_state() {
    assert_eq!(auth_note("service_account"), "write: service account");
    assert_eq!(auth_note("oauth_token"), "write: logged in");
    assert_eq!(auth_note("oauth_needs_login"), "write: run --login");
    assert_eq!(auth_note("missing"), "write: no credentials");
    assert_eq!(auth_note("odd"), "write: odd");
}

#[test]
fn ctrl_q_quits_and_releases_are_ignored() {
    let mut app = App::new(None, Vec::new());
    app.handle_key(Key { code: KeyCode::Char('x'), modifiers: 0, kind: KeyKind::Release }, "missing");
    assert_eq!(app.username.value, "");
    app.handle_key(Key { code: KeyCode::Char('q'), modifiers: 2, kind: KeyKind::Press }, "missing");
    assert!(app.should_quit);
}

#[test]
fn busy_app_starts_no_second_job() {
    let mut app = App::new(None, Vec::new());
    app.data = Some(AwardsData::empty());
    app.busy = true;
    app.focus = FocusArea::Actions;
    let refresh = app.handle_key(key(KeyCode::F(5)), "missing");
    assert!(refresh.is_empty());
    assert_eq!(app.status, "Wait for the current sheet operation to finish");
    app.actions_state = Some(8);
    let audit = app.handle_key(key(KeyCode::Enter), "missing");
    assert!(audit.is_empty());
    assert!(app.busy);
}

#[test]
fn audit_action_starts_the_audit_when_idle() {
    let mut app = App::new(None, Vec::new());
    app.focus = FocusArea::Actions;
    app.actions_state = Some(8);
    let tasks = app.handle_key(key(KeyCode::Enter), "missing");
    assert!(matches!(tasks.as_slice(), [Task::Audit]));
    assert!(app.busy);
    assert_eq!(app.status, "Running duplicate audit...");
}

#[test]
fn written_add_is_filed_and_shown_highlighted() {
    let mut app = App::new(None, Vec::new());
    app.data = Some(data_for("alice", vec![award("Combat Action Badge", "Badges Database", "C", 10, "alice")]));
    app.results_username = Some("alice".into());
    app.busy = true;
    let written = award("Expert Soldier Badge", "Badges Database", "D", 10, "alice");
    let tasks = app.handle_worker_msg(
        WorkerMsg::WriteDone {
            kind: "add",
            result: EditResult {
                ok: true,
                message: "Added Expert Soldier Badge".into(),
                error: None,
                award: Some(written.clone()),
                awards: Vec::new(),
            },
            username: "alice".into(),
        },
        "missing",
        String::new(),
    );
    assert!(tasks.is_empty());
    assert!(!app.busy);
    assert_eq!(app.results.len(), 2);
    assert_eq!(app.status, "Added Expert Soldier Badge");
    let shown = app.selected_award().expect("highlighted");
    assert_eq!(shown.col, "D");
    let rows = app.data.as_ref().unwrap().sheet_rows.get("Badges Database").expect("patched tab");
    assert_eq!(rows[3][3], "alice", "row 10 of the badges tab is cached row 3 (six rows above the data), column D the fourth cell");
}

#[test]
fn failed_write_reports_the_kind() {
    let mut app = App::new(None, Vec::new());
    app.busy = true;
    app.handle_worker_msg(
        WorkerMsg::WriteDone {
            kind: "edit",
            result: EditResult { ok: false, message: "stale row".into(), error: None, award: None, awards: Vec::new() },
            username: "alice".into(),
        },
        "missing",
        String::new(),
    );
    assert!(!app.busy);
    assert_eq!(app.status, "edit failed: stale row");
}

#[test]
fn written_delete_shifts_the_member_list() {
    let mut app = App::new(None, Vec::new());
    let gone = award("Combat Action Badge", "Badges Database", "C", 10, "alice");
    let kept = award("Combat Action Badge", "Badges Database", "C", 11, "bob");
    let mut data = data_for("alice", vec![gone.clone()]);
    data.index.insert("bob".into(), vec![kept]);
    app.data = Some(data);
    app.pending_delete = Some(gone);
    app.handle_worker_msg(
        WorkerMsg::WriteDone {
            kind: "delete",
            result: EditResult { ok: true, message: "Removed".into(), error: None, award: None, awards: Vec::new() },
            username: "bob".into(),
        },
        "missing",
        String::new(),
    );
    assert!(app.pending_delete.is_none());
    assert_eq!(app.results.len(), 1);
    assert_eq!(app.results[0].row, 10, "the row below moved up into the deleted one");
    assert_eq!(app.status, "Removed");
}

#[test]
fn tab_keys_switch_the_awards_tab() {
    let mut app = App::new(None, Vec::new());
    app.focus = FocusArea::Awards;
    app.handle_key(key(KeyCode::Char('3')), "missing");
    assert_eq!(app.active_tab, AwardTab::Ribbons);
    app.handle_key(key(KeyCode::Char(']')), "missing");
    assert_eq!(app.active_tab, AwardTab::Foreign);
    app.handle_key(key(KeyCode::Char('[')), "missing");
    app.handle_key(key(KeyCode::Char('[')), "missing");
    app.handle_key(key(KeyCode::Char('[')), "missing");
    app.handle_key(key(KeyCode::Char('[')), "missing");
    assert_eq!(app.active_tab, AwardTab::Duplicates, "moving left from the first tab wraps to the last");
}

#[test]
fn rename_outcome_switches_the_name_field() {
    let mut app = App::new(None, Vec::new());
    app.data = Some(AwardsData::empty());
    let moved = award("Combat Action Badge", "Badges Database", "C", 10, "bob");
    let tasks = app.handle_worker_msg(
        WorkerMsg::WriteDone {
            kind: "rename",
            result: EditResult {
                ok: true,
                message: "Renamed".into(),
                error: None,
                award: None,
                awards: vec![moved],
            },
            username: "bob".into(),
        },
        "missing",
        String::new(),
    );
    assert!(tasks.is_empty());
    assert_eq!(app.username.value, "bob");
    assert_eq!(app.results_username.as_deref(), Some("bob"));
    assert_eq!(app.results.len(), 1);
    assert_eq!(app.awards_state, Some(0));
}

#[test]
fn paste_typing_and_backspace_edit_the_buffer() {
    let mut app = App::new(None, Vec::new());
    app.modal = Some(Modal::PasteAdd(PasteAddModal::default()));
    app.handle_key(key(KeyCode::Char('a')), "missing");
    app.handle_key(key(KeyCode::Char('b')), "missing");
    app.handle_key(key(KeyCode::Backspace), "missing");
    app.handle_paste("cd");
    match &app.modal {
        Some(Modal::PasteAdd(p)) => assert_eq!(p.buffer, "acd"),
        other => panic!("expected the paste dialog, got {other:?}"),
    }
    assert!(app.paste_ready_now(key(KeyCode::Enter)));
}

#[test]
fn add_suffix_confirm_hands_back_the_write() {
    let mut app = App::new(None, Vec::new());
    app.results_username = Some("alice".into());
    app.data = Some(AwardsData::empty());
    let def = awards::types::AwardDef {
        category: "badges".into(),
        sheet: "Badges Database".into(),
        col: "C".into(),
        base_name: "Army Service Ribbon".into(),
    };
    let mut add = awards::browser::AddModal::new(vec![def]);
    add.step = awards::tui::AddStep::Pick;
    app.modal = Some(Modal::Add(add));
    app.handle_key(key(KeyCode::Enter), "missing");
    type_text(&mut app, " x2 ");
    let tasks = app.handle_key(key(KeyCode::Enter), "missing");
    match tasks.as_slice() {
        [Task::Write(WriteTask::Add { username, award_def, suffix })] => {
            assert_eq!(username, "alice");
            assert_eq!(award_def.col, "C");
            assert_eq!(suffix, "x2");
        },
        other => panic!("expected one add write, got {other:?}"),
    }
}

#[test]
fn text_lines_follow_str_lines() {
    let got = text_lines("a\r\nb\n\nc\r");
    assert_eq!(got, vec!["a".to_string(), "b".to_string(), String::new(), "c\r".to_string()]);
    assert!(text_lines("").is_empty());
    assert_eq!(text_lines("x\n"), vec!["x".to_string()]);
}

#[test]
fn fit_checks_accept_ordinary_sheets() {
    assert!(col_fits_check("AB"));
    assert!(!col_fits_check(&"Z".repeat(30)));
    assert!(columns_fit_check(&[AwardColumn { sheet: "Badges Database".into(), col: "C".into() }]));
    let mut rows = SheetRows::new();
    rows.insert("Badges Database".into(), vec![vec!["x".into()]]);
    assert!(rows_fit_check(&rows));
}

#[test]
fn parse_hex() {
    assert_eq!(parse_hex_color("#a78bfa").unwrap(), (167, 139, 250));
}

#[test]
fn hex_colors_accept_case_hashes_and_spaces() {
    assert_eq!(parse_hex_color("  ##FF0010 "), Ok((255, 0, 16)));
    assert_eq!(parse_hex_color("+f+f+f"), Ok((15, 15, 15)), "a leading plus sign is allowed in each pair");
    assert_eq!(parse_hex_color("#12345"), Err("expected #RRGGBB, got \"#12345\"".to_string()));
    assert_eq!(parse_hex_color("#12345g"), Err("invalid digit found in string".to_string()));
    assert_eq!(parse_hex_color("ab\u{e9}cd"), Err("invalid digit found in string".to_string()));
}
