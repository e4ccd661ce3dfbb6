use awards::audit::{collect_sheet_audit, flatten_audit_findings, format_audit_report, AuditFinding};
use awards::browser::{
    AddModal, AssistModal, AuditModal, DeleteModal, EditModal, Key, KeyCode, KeyKind, Modal, RenameModal, Task,
    TextInput,
};
use awards::console::App;
use awards::edit::EditResult;
use awards::eligibility::GrantPlan;
use awards::tui::{
    AddStep, AssistStep, AuditOutcome, AuditView, FocusArea, PasteAddModal, RenameStep, VisibleAward, WorkerMsg,
};
use awards::types::{Award, AwardDef, AwardsData};

const NO_AUTH: &str = "missing";

fn test_app() -> App {
    App::new(None, Vec::new())
}

fn key(code: KeyCode) -> Key {
    Key { code, modifiers: 0, kind: KeyKind::Press }
}

fn press(app: &mut App, code: KeyCode) -> Vec<Task> {
    app.handle_key(key(code), NO_AUTH)
}

fn award(base_name: &str, name: &str, sheet: &str, col: &str, row: i32, cell: &str) -> Award {
    Award::new("badges", name).with_location(sheet, col, row).with_cell(cell, base_name)
}

fn awards_data_with(username: &str, awards: Vec<Award>) -> AwardsData {
    let mut data = AwardsData::empty();
    data.index.insert(username.to_string(), awards);
    data
}

fn awards_data_with_catalog(username: &str, awards: Vec<Award>, catalog: Vec<AwardDef>) -> AwardsData {
    let mut data = awards_data_with(username, awards);
    data.catalog = catalog;
    data
}

fn award_def(category: &str, base_name: &str, sheet: &str, col: &str) -> AwardDef {
    AwardDef {
        category: category.to_string(),
        sheet: sheet.to_string(),
        col: col.to_string(),
        base_name: base_name.to_string(),
    }
}

fn assist_modal(username: &str, query: &str, step: AssistStep) -> AssistModal {
    AssistModal {
        username: username.to_string(),
        input: TextInput::with_value(query.to_string()),
        step,
        report: String::new(),
        can_grant: false,
        grant: None,
        scroll: 0,
    }
}

/// Runs the audit-refresh work the way the terminal runner does.
fn run_refresh(app: &mut App, tasks: Vec<Task>) {
    for task in tasks {
        if let Task::RefreshAudit { path } = task {
            let (body, findings) = {
                let data = app.data.as_ref().expect("data");
                let report = collect_sheet_audit(data, &app.columns);
                let findings = flatten_audit_findings(&report);
                (format_audit_report(&report, "2026-01-01 00:00:00 UTC"), findings)
            };
            app.reopen_audit(path, &body, findings);
        }
    }
}

#[test]
fn esc_closes_edit_modal_and_reports_cancelled() {
    let mut app = test_app();
    app.modal = Some(Modal::Edit(EditModal {
        award: award("Combat Action Badge", "Combat Action Badge", "Badges Database", "C", 10, "alice"),
        input: TextInput::with_value("alice".into()),
    }));
    press(&mut app, KeyCode::Esc);
    assert!(app.modal.is_none());
    assert_eq!(app.status, "Dialog cancelled");
}

#[test]
fn esc_closes_audit_modal_without_overwriting_status() {
    let mut app = test_app();
    app.status = "Wrote audits/audit-x.txt".to_string();
    app.modal = Some(Modal::Audit(AuditModal::new("audits/audit-x.txt".into(), "line", Vec::new())));
    press(&mut app, KeyCode::Esc);
    assert!(app.modal.is_none());
    assert_eq!(app.status, "Wrote audits/audit-x.txt", "closing the audit browser must not stomp the summary line");
}

#[test]
fn action_add_refuses_to_replace_an_open_modal() {
    let mut app = test_app();
    app.data = Some(AwardsData::empty());
    app.results_username = Some("alice".into());
    app.modal = Some(Modal::Assist(assist_modal("alice", "MCAB", AssistStep::Query)));
    app.action_add();
    assert!(matches!(app.modal, Some(Modal::Assist(_))), "an already-open modal must not be replaced");
    assert_eq!(app.status, "Wait for the current sheet operation to finish");
}

#[test]
fn action_edit_refuses_to_open_while_busy() {
    let mut app = test_app();
    app.data = Some(AwardsData::empty());
    app.busy = true;
    app.action_edit();
    assert!(app.modal.is_none());
    assert_eq!(app.status, "Wait for the current sheet operation to finish");
}

#[test]
fn action_edit_opens_prefilled_with_the_selected_awards_cell() {
    let mut app = test_app();
    let a = award("Combat Action Badge", "Combat Action Badge", "Badges Database", "C", 10, "alice x2");
    app.visible = vec![VisibleAward { award: a.clone(), warning: false }];
    app.awards_state = Some(0);
    app.action_edit();
    match &app.modal {
        Some(Modal::Edit(edit)) => {
            assert_eq!(edit.award, a);
            assert_eq!(edit.input.value, "alice x2");
        },
        other => panic!("expected Edit modal, got {other:?}"),
    }
}

#[test]
fn action_edit_without_a_selection_shows_a_hint_and_opens_nothing() {
    let mut app = test_app();
    app.action_edit();
    assert!(app.modal.is_none());
    assert_eq!(app.status, "Select an award to edit");
}

#[test]
fn add_modal_enter_with_a_selection_advances_to_suffix() {
    let mut app = test_app();
    let def = award_def("badges", "Army Service Ribbon", "Badges Database", "C");
    app.modal = Some(Modal::Add(AddModal::new(vec![def.clone()])));
    press(&mut app, KeyCode::Enter);
    match &app.modal {
        Some(Modal::Add(add)) => {
            assert!(matches!(add.step, AddStep::Suffix));
            assert_eq!(add.chosen.as_ref(), Some(&def));
        },
        other => panic!("expected Add modal in Suffix step, got {other:?}"),
    }
}

#[test]
fn add_modal_enter_with_no_filtered_candidates_stays_on_pick() {
    let mut app = test_app();
    let def = award_def("badges", "Army Service Ribbon", "Badges Database", "C");
    let mut add = AddModal::new(vec![def]);
    add.filtered.clear();
    add.state = None;
    app.modal = Some(Modal::Add(add));
    press(&mut app, KeyCode::Enter);
    match &app.modal {
        Some(Modal::Add(add)) => assert!(matches!(add.step, AddStep::Pick)),
        other => panic!("expected Add modal still on Pick step, got {other:?}"),
    }
    assert_eq!(app.status, "Select an award first");
}

#[test]
fn add_modal_suffix_enter_commits_the_write_and_closes_the_modal() {
    let mut app = test_app();
    app.results_username = Some("alice".into());
    let def = award_def("badges", "Army Service Ribbon", "Badges Database", "C");
    let mut add = AddModal::new(vec![def.clone()]);
    add.chosen = Some(def.clone());
    add.step = AddStep::Suffix;
    app.modal = Some(Modal::Add(add));
    let tasks = press(&mut app, KeyCode::Enter);
    assert!(app.modal.is_none(), "confirming Add should close the modal");
    assert!(app.busy, "confirming Add should mark the app busy while the write runs");
    assert_eq!(app.status, format!("Writing {}...", def.base_name));
    assert_eq!(tasks.len(), 1);
}

#[test]
fn delete_modal_requires_the_word_delete() {
    let mut app = test_app();
    let a = award("Combat Action Badge", "Combat Action Badge", "Badges Database", "C", 10, "alice");
    app.modal = Some(Modal::Delete(DeleteModal {
        award: a,
        input: TextInput::with_value("nope".into()),
        viewed_username: "alice".into(),
    }));
    press(&mut app, KeyCode::Enter);
    assert!(app.modal.is_some(), "wrong confirmation text must not close the modal");
    assert!(!app.busy);
    assert_eq!(app.status, "Type \"delete\" to confirm");
}

#[test]
fn delete_modal_confirms_case_insensitively_and_commits() {
    let mut app = test_app();
    let a = award("Combat Action Badge", "Combat Action Badge", "Badges Database", "C", 10, "alice");
    app.modal = Some(Modal::Delete(DeleteModal {
        award: a.clone(),
        input: TextInput::with_value("DELETE".into()),
        viewed_username: "alice".into(),
    }));
    press(&mut app, KeyCode::Enter);
    assert!(app.modal.is_none());
    assert!(app.busy);
    assert_eq!(app.pending_delete.as_ref(), Some(&a));
    assert_eq!(app.status, format!("Removing {}...", a.name));
}

fn rename_modal(input: &str, confirm: &str, step: RenameStep) -> RenameModal {
    RenameModal {
        from: "alice".into(),
        cell_count: 1,
        existing_new: 0,
        input: TextInput::with_value(input.into()),
        confirm: if confirm.is_empty() { TextInput::new() } else { TextInput::with_value(confirm.into()) },
        step,
    }
}

#[test]
fn rename_modal_rejects_a_non_bare_username() {
    let mut app = test_app();
    app.data = Some(AwardsData::empty());
    app.modal = Some(Modal::Rename(rename_modal("Bob - Master", "", RenameStep::Name)));
    press(&mut app, KeyCode::Enter);
    match &app.modal {
        Some(Modal::Rename(rename)) => assert!(matches!(rename.step, RenameStep::Name)),
        other => panic!("expected Rename modal still on Name step, got {other:?}"),
    }
    assert_eq!(app.status, "Enter a bare Roblox username (no suffixes)");
}

#[test]
fn rename_modal_rejects_the_same_username() {
    let mut app = test_app();
    app.data = Some(AwardsData::empty());
    app.modal = Some(Modal::Rename(rename_modal("alice", "", RenameStep::Name)));
    press(&mut app, KeyCode::Enter);
    match &app.modal {
        Some(Modal::Rename(rename)) => assert!(matches!(rename.step, RenameStep::Name)),
        other => panic!("expected Rename modal still on Name step, got {other:?}"),
    }
    assert_eq!(app.status, "New username is the same as the current name");
}

#[test]
fn rename_modal_valid_name_advances_to_confirm_step() {
    let mut app = test_app();
    app.data = Some(AwardsData::empty());
    app.modal = Some(Modal::Rename(rename_modal("bob", "", RenameStep::Name)));
    press(&mut app, KeyCode::Enter);
    match &app.modal {
        Some(Modal::Rename(rename)) => assert!(matches!(rename.step, RenameStep::Confirm)),
        other => panic!("expected Rename modal to advance to Confirm, got {other:?}"),
    }
}

#[test]
fn rename_modal_confirm_step_recomputes_existing_new_award_count() {
    let mut app = test_app();
    app.data = Some(awards_data_with(
        "bob",
        vec![award("Combat Action Badge", "Combat Action Badge", "Badges Database", "C", 11, "bob")],
    ));
    app.modal = Some(Modal::Rename(rename_modal("bob", "", RenameStep::Confirm)));
    press(&mut app, KeyCode::Char('x'));
    match &app.modal {
        Some(Modal::Rename(rename)) => assert_eq!(rename.existing_new, 1),
        other => panic!("expected Rename modal on Confirm step, got {other:?}"),
    }
}

#[test]
fn rename_modal_confirm_requires_the_word_rename() {
    let mut app = test_app();
    app.data = Some(AwardsData::empty());
    app.modal = Some(Modal::Rename(rename_modal("bob", "nope", RenameStep::Confirm)));
    press(&mut app, KeyCode::Enter);
    assert!(app.modal.is_some(), "wrong confirm text must not close the modal");
    assert_eq!(app.status, "Type \"rename\" to confirm");
}

#[test]
fn rename_modal_confirm_typed_commits_the_rename_and_closes() {
    let mut app = test_app();
    app.data = Some(AwardsData::empty());
    app.results_username = Some("alice".into());
    app.modal = Some(Modal::Rename(rename_modal("bob", "rename", RenameStep::Confirm)));
    press(&mut app, KeyCode::Enter);
    assert!(app.modal.is_none());
    assert!(app.busy);
    assert_eq!(app.status, "Renaming @alice → bob across the sheet...");
}

#[test]
fn assist_query_empty_shows_a_hint_and_stays_on_query_step() {
    let mut app = test_app();
    app.data = Some(AwardsData::empty());
    app.modal = Some(Modal::Assist(assist_modal("alice", "", AssistStep::Query)));
    press(&mut app, KeyCode::Enter);
    match &app.modal {
        Some(Modal::Assist(assist)) => assert!(matches!(assist.step, AssistStep::Query)),
        other => panic!("expected Assist modal still on Query step, got {other:?}"),
    }
    assert_eq!(app.status, "Enter an award request (MCAB / MCIB / MCMB)");
}

#[test]
fn assist_query_approve_advances_to_result_with_grant_enabled() {
    let mut app = test_app();
    app.data = Some(awards_data_with(
        "alice",
        vec![
            award("Expert Soldier Badge", "Expert Soldier Badge", "Badges Database", "D", 10, "alice"),
            award("Combat Action Badge", "Combat Action Badge", "Badges Database", "C", 10, "alice"),
        ],
    ));
    app.modal = Some(Modal::Assist(assist_modal("alice", "MCAB", AssistStep::Query)));
    press(&mut app, KeyCode::Enter);
    match &app.modal {
        Some(Modal::Assist(assist)) => {
            assert!(matches!(assist.step, AssistStep::Result));
            assert!(assist.can_grant);
            assert!(assist.grant.is_some());
        },
        other => panic!("expected Assist modal in Result step, got {other:?}"),
    }
    assert!(app.status.contains("Eligible"));
}

#[test]
fn assist_query_deny_advances_to_result_without_grant() {
    let mut app = test_app();
    app.data = Some(awards_data_with(
        "alice",
        vec![award("Combat Action Badge", "Combat Action Badge", "Badges Database", "C", 10, "alice")],
    ));
    app.modal = Some(Modal::Assist(assist_modal("alice", "MCAB", AssistStep::Query)));
    press(&mut app, KeyCode::Enter);
    match &app.modal {
        Some(Modal::Assist(assist)) => {
            assert!(matches!(assist.step, AssistStep::Result));
            assert!(!assist.can_grant);
            assert!(assist.grant.is_none());
        },
        other => panic!("expected Assist modal in Result step, got {other:?}"),
    }
    assert_eq!(app.status, "Assist result — Esc to close");
}

#[test]
fn assist_result_enter_without_can_grant_is_a_no_op() {
    let mut app = test_app();
    app.data = Some(AwardsData::empty());
    app.status = "unchanged".into();
    let mut assist = assist_modal("alice", "MCAB", AssistStep::Result);
    assist.report = "DENY ...".into();
    app.modal = Some(Modal::Assist(assist));
    press(&mut app, KeyCode::Enter);
    assert!(app.modal.is_some(), "modal should stay open when nothing can be granted");
    assert!(!app.busy);
    assert_eq!(app.status, "unchanged");
}

#[test]
fn assist_result_scroll_is_saturating_and_moves_with_j_k() {
    let mut app = test_app();
    app.data = Some(AwardsData::empty());
    app.modal = Some(Modal::Assist(assist_modal("alice", "MCAB", AssistStep::Result)));
    press(&mut app, KeyCode::Up);
    match &app.modal {
        Some(Modal::Assist(assist)) => assert_eq!(assist.scroll, 0),
        other => panic!("expected Assist modal, got {other:?}"),
    }
    press(&mut app, KeyCode::Char('j'));
    match &app.modal {
        Some(Modal::Assist(assist)) => assert_eq!(assist.scroll, 1),
        other => panic!("expected Assist modal, got {other:?}"),
    }
}

#[test]
fn assist_result_enter_with_can_grant_commits_the_grant_and_closes_modal() {
    let mut app = test_app();
    app.data = Some(awards_data_with(
        "alice",
        vec![
            award("Expert Soldier Badge", "Expert Soldier Badge", "Badges Database", "D", 10, "alice"),
            award("Combat Action Badge", "Combat Action Badge", "Badges Database", "C", 10, "alice"),
        ],
    ));
    let mut assist = assist_modal("alice", "MCAB", AssistStep::Result);
    assist.can_grant = true;
    assist.grant =
        Some(GrantPlan::UpgradeCell { base_name: "Combat Action Badge".into(), new_cell: "alice - MC".into() });
    app.modal = Some(Modal::Assist(assist));
    press(&mut app, KeyCode::Enter);
    assert!(app.modal.is_none(), "granting should close the Assist modal");
    assert!(app.busy, "granting dispatches a sheet write (via commit_edit)");
}

#[test]
fn audit_modal_scroll_keys_clamp_and_jump() {
    let mut app = test_app();
    let lines: Vec<String> = (0..20).map(|i| format!("line {i}")).collect();
    let mut audit = AuditModal::new("audits/audit-x.txt".into(), &lines.join("\n"), Vec::new());
    audit.view = AuditView::Report;
    audit.scroll = 5;
    app.modal = Some(Modal::Audit(audit));
    press(&mut app, KeyCode::PageUp);
    match &app.modal {
        Some(Modal::Audit(a)) => assert_eq!(a.scroll, 0, "5.saturating_sub(10) == 0"),
        other => panic!("expected Audit modal, got {other:?}"),
    }
    if let Some(Modal::Audit(a)) = app.modal.as_mut() {
        a.scroll = 5;
    }
    press(&mut app, KeyCode::PageDown);
    match &app.modal {
        Some(Modal::Audit(a)) => assert_eq!(a.scroll, 15),
        other => panic!("expected Audit modal, got {other:?}"),
    }
    press(&mut app, KeyCode::End);
    match &app.modal {
        Some(Modal::Audit(a)) => assert_eq!(a.scroll, (lines.len() - 1) as u16),
        other => panic!("expected Audit modal, got {other:?}"),
    }
    press(&mut app, KeyCode::Home);
    match &app.modal {
        Some(Modal::Audit(a)) => assert_eq!(a.scroll, 0),
        other => panic!("expected Audit modal, got {other:?}"),
    }
}

#[test]
fn c_key_opens_assist_modal_prefilled_with_mcab() {
    let mut app = test_app();
    app.data = Some(AwardsData::empty());
    app.results_username = Some("alice".into());
    app.focus = FocusArea::Awards;
    press(&mut app, KeyCode::Char('c'));
    match &app.modal {
        Some(Modal::Assist(assist)) => {
            assert_eq!(assist.username, "alice");
            assert!(matches!(assist.step, AssistStep::Query));
            assert_eq!(assist.input.value, "MCAB");
        },
        other => panic!("expected Assist modal to open, got {other:?}"),
    }
}

#[test]
fn c_key_is_ignored_while_focus_is_on_the_username_field() {
    let mut app = test_app();
    app.data = Some(AwardsData::empty());
    app.results_username = Some("alice".into());
    press(&mut app, KeyCode::Char('c'));
    assert!(app.modal.is_none());
    assert_eq!(app.username.value, "c");
}

fn duplicate_row_finding() -> AuditFinding {
    AuditFinding::DuplicateRow {
        user: "alice".into(),
        sheet: "Badges Database".into(),
        col: "C".into(),
        base_name: "Combat Action Badge".into(),
        kind: "identical".into(),
        row: 10,
        cell: "alice".into(),
    }
}

fn malformed_cell_finding() -> AuditFinding {
    AuditFinding::MalformedCell {
        user: "carol".into(),
        sheet: "Ribbons Database".into(),
        col: "D".into(),
        base_name: "Test Ribbon".into(),
        row: 12,
        cell: "carol -Senior".into(),
        issues: vec!["missing_space_before_dash".into()],
    }
}

fn similar_usernames_finding() -> AuditFinding {
    AuditFinding::SimilarUsernames {
        a: "bob".into(),
        b: "bobb".into(),
        sheet: "Badges Database".into(),
        col: "C".into(),
        base_name: "Combat Action Badge".into(),
    }
}

fn audit_on(findings: Vec<AuditFinding>) -> Modal {
    Modal::Audit(AuditModal::new("audits/audit-x.txt".into(), "report body", findings))
}

#[test]
fn enter_on_duplicate_finding_opens_delete_modal_and_stashes_audit() {
    let mut app = test_app();
    app.data = Some(AwardsData::empty());
    app.modal = Some(audit_on(vec![duplicate_row_finding()]));
    press(&mut app, KeyCode::Enter);
    match &app.modal {
        Some(Modal::Delete(delete)) => {
            assert_eq!(delete.award.base_name, "Combat Action Badge");
            assert_eq!(delete.viewed_username, "alice");
        },
        other => panic!("expected Delete modal, got {other:?}"),
    }
    assert!(app.saved_audit.is_some(), "the audit list must be stashed for Esc/failure to restore");
    assert_eq!(app.audit_fix_username.as_deref(), Some("alice"));
}

#[test]
fn enter_on_malformed_finding_opens_edit_modal_prefilled_with_the_cell() {
    let mut app = test_app();
    app.data = Some(AwardsData::empty());
    app.modal = Some(audit_on(vec![malformed_cell_finding()]));
    press(&mut app, KeyCode::Enter);
    match &app.modal {
        Some(Modal::Edit(edit)) => {
            assert_eq!(edit.award.base_name, "Test Ribbon");
            assert_eq!(edit.input.value, "carol -Senior");
        },
        other => panic!("expected Edit modal, got {other:?}"),
    }
    assert!(app.saved_audit.is_some());
    assert_eq!(app.audit_fix_username.as_deref(), Some("carol"));
}

#[test]
fn esc_from_a_finding_triggered_fix_restores_the_audit_list_unchanged() {
    let mut app = test_app();
    app.data = Some(AwardsData::empty());
    app.modal = Some(audit_on(vec![duplicate_row_finding()]));
    press(&mut app, KeyCode::Enter);
    assert!(matches!(app.modal, Some(Modal::Delete(_))));
    press(&mut app, KeyCode::Esc);
    match &app.modal {
        Some(Modal::Audit(audit)) => assert_eq!(audit.list.len(), 1, "the finding is still there"),
        other => panic!("expected Esc to restore the Audit modal, got {other:?}"),
    }
    assert!(app.saved_audit.is_none(), "the stash must be cleared once restored");
    assert!(app.audit_fix_username.is_none());
}

#[test]
fn enter_on_similar_usernames_finding_opens_a_choice_then_rename() {
    let mut app = test_app();
    app.data = Some(awards_data_with(
        "bobb",
        vec![award("Combat Action Badge", "Combat Action Badge", "Badges Database", "C", 10, "bobb")],
    ));
    app.modal = Some(audit_on(vec![similar_usernames_finding()]));
    press(&mut app, KeyCode::Enter);
    match &app.modal {
        Some(Modal::Audit(audit)) => assert!(matches!(audit.view, AuditView::ChooseUsername { .. })),
        other => panic!("expected the Audit modal to show the username choice, got {other:?}"),
    }
    press(&mut app, KeyCode::Char('2'));
    match &app.modal {
        Some(Modal::Rename(rename)) => assert_eq!(rename.from, "bobb"),
        other => panic!("expected Rename modal, got {other:?}"),
    }
    assert!(app.saved_audit.is_some());
}

#[test]
fn esc_from_the_similar_usernames_choice_returns_to_the_list_not_the_whole_close() {
    let mut app = test_app();
    app.data = Some(AwardsData::empty());
    app.modal = Some(audit_on(vec![similar_usernames_finding()]));
    press(&mut app, KeyCode::Enter);
    assert!(matches!(
        app.modal,
        Some(Modal::Audit(ref audit)) if matches!(audit.view, AuditView::ChooseUsername { .. })
    ));
    press(&mut app, KeyCode::Esc);
    match &app.modal {
        Some(Modal::Audit(audit)) => assert!(matches!(audit.view, AuditView::List)),
        other => panic!("expected the Audit modal to still be open on the list, got {other:?}"),
    }
}

#[test]
fn esc_from_a_rename_opened_via_similar_usernames_restores_the_list_not_the_choice() {
    let mut app = test_app();
    app.data = Some(awards_data_with(
        "bobb",
        vec![award("Combat Action Badge", "Combat Action Badge", "Badges Database", "C", 10, "bobb")],
    ));
    app.modal = Some(audit_on(vec![similar_usernames_finding()]));
    press(&mut app, KeyCode::Enter);
    assert!(matches!(
        app.modal,
        Some(Modal::Audit(ref audit)) if matches!(audit.view, AuditView::ChooseUsername { .. })
    ));
    press(&mut app, KeyCode::Char('2'));
    assert!(matches!(app.modal, Some(Modal::Rename(_))));
    press(&mut app, KeyCode::Esc);
    match &app.modal {
        Some(Modal::Audit(audit)) => assert!(
            matches!(audit.view, AuditView::List),
            "the restored Audit modal must show the findings list, not be stuck on the choice"
        ),
        other => panic!("expected Esc to restore the Audit modal, got {other:?}"),
    }
    assert!(app.saved_audit.is_none());
}

#[test]
fn enter_on_unparseable_finding_leaves_the_audit_modal_open_unchanged() {
    let mut app = test_app();
    app.data = Some(AwardsData::empty());
    let finding = AuditFinding::UnparseableCell {
        sheet: "Badges Database".into(),
        col: "C".into(),
        base_name: "Combat Action Badge".into(),
        row: 14,
        cell: "???".into(),
    };
    app.modal = Some(audit_on(vec![finding]));
    press(&mut app, KeyCode::Enter);
    match &app.modal {
        Some(Modal::Audit(audit)) => {
            assert!(matches!(audit.view, AuditView::List), "no sub-dialog or fix flow opens for an unparseable cell");
            assert_eq!(audit.list.len(), 1, "the finding is still there — nothing selects it away");
        },
        other => panic!("expected the Audit modal to remain open and unchanged, got {other:?}"),
    }
    assert!(app.saved_audit.is_none());
    assert_eq!(app.status, "No direct fix available for this cell — edit it manually on the sheet");
}

#[test]
fn navigation_skips_group_headers_and_wraps_across_multiple_groups() {
    let mut app = test_app();
    app.data = Some(AwardsData::empty());
    app.modal = Some(audit_on(vec![duplicate_row_finding(), malformed_cell_finding()]));
    let selected = |app: &App| match &app.modal {
        Some(Modal::Audit(audit)) => audit.list_state,
        _ => None,
    };
    assert_eq!(selected(&app), Some(1), "constructor selects the first selectable row");
    press(&mut app, KeyCode::Down);
    assert_eq!(selected(&app), Some(3), "Down skips the carol header row (2)");
    press(&mut app, KeyCode::Down);
    assert_eq!(selected(&app), Some(1), "Down from the last finding wraps to the first");
    press(&mut app, KeyCode::Up);
    assert_eq!(selected(&app), Some(3), "Up from the first finding wraps to the last");
    press(&mut app, KeyCode::PageUp);
    assert_eq!(selected(&app), Some(1), "PageUp(5) wraps by position, not by row index");
    press(&mut app, KeyCode::PageDown);
    assert_eq!(selected(&app), Some(3), "PageDown(5) wraps back to the last finding");
}

#[test]
fn tab_toggles_list_and_report_without_closing_the_modal_or_discarding_the_list() {
    let mut app = test_app();
    app.data = Some(AwardsData::empty());
    app.modal = Some(audit_on(vec![duplicate_row_finding()]));
    press(&mut app, KeyCode::Tab);
    match &app.modal {
        Some(Modal::Audit(audit)) => {
            assert!(matches!(audit.view, AuditView::Report));
            assert_eq!(audit.list.len(), 1, "toggling to Report must not discard the findings list");
        },
        other => panic!("expected the Audit modal to stay open on Report, got {other:?}"),
    }
    press(&mut app, KeyCode::Tab);
    match &app.modal {
        Some(Modal::Audit(audit)) => {
            assert!(matches!(audit.view, AuditView::List));
            assert_eq!(audit.list.len(), 1, "toggling back to List must still have the findings list");
        },
        other => panic!("expected the Audit modal to stay open on List, got {other:?}"),
    }
}

#[test]
fn audit_done_success_opens_the_modal_defaulted_to_the_findings_list() {
    let mut app = test_app();
    app.modal = None;
    app.busy = true;
    app.handle_worker_msg(
        WorkerMsg::AuditDone(Ok(AuditOutcome {
            path: "audits/audit-x.txt".into(),
            body: "report body".into(),
            summary: "1 finding".into(),
            findings: vec![duplicate_row_finding()],
        })),
        NO_AUTH,
        String::new(),
    );
    assert!(!app.busy);
    assert_eq!(app.status, "1 finding");
    match &app.modal {
        Some(Modal::Audit(audit)) => {
            assert!(matches!(audit.view, AuditView::List), "a fresh audit must open on the findings list, not the text report");
            assert_eq!(audit.list.len(), 1);
        },
        other => panic!("expected the Audit modal to open, got {other:?}"),
    }
}

#[test]
fn successful_write_from_a_finding_reopens_audit_with_a_refreshed_list() {
    let mut app = test_app();
    let target = award("Combat Action Badge", "Combat Action Badge", "Badges Database", "C", 10, "alice");
    app.data = Some(awards_data_with("alice", vec![target.clone()]));
    app.modal = Some(audit_on(vec![duplicate_row_finding()]));
    press(&mut app, KeyCode::Enter);
    assert!(matches!(app.modal, Some(Modal::Delete(_))));
    let tasks = app.handle_worker_msg(
        WorkerMsg::WriteDone {
            kind: "delete",
            result: EditResult {
                ok: true,
                message: "Removed Combat Action Badge".to_string(),
                error: None,
                award: None,
                awards: Vec::new(),
            },
            username: "alice".into(),
        },
        NO_AUTH,
        String::new(),
    );
    run_refresh(&mut app, tasks);
    match &app.modal {
        Some(Modal::Audit(audit)) => {
            assert_eq!(audit.path, "audits/audit-x.txt", "reuses the same export path");
            assert!(audit.list.is_empty(), "no sheet rows means nothing left to audit after the local patch");
        },
        other => panic!("expected the write to reopen the Audit modal, got {other:?}"),
    }
    assert_eq!(app.status, "Removed Combat Action Badge");
    assert!(app.saved_audit.is_none());
    assert!(app.audit_fix_username.is_none());
}

#[test]
fn failed_write_from_a_finding_restores_the_saved_audit_unchanged() {
    let mut app = test_app();
    let target = award("Combat Action Badge", "Combat Action Badge", "Badges Database", "C", 10, "alice");
    app.data = Some(awards_data_with("alice", vec![target]));
    app.modal = Some(audit_on(vec![duplicate_row_finding()]));
    press(&mut app, KeyCode::Enter);
    assert!(matches!(app.modal, Some(Modal::Delete(_))));
    app.handle_worker_msg(
        WorkerMsg::WriteDone {
            kind: "delete",
            result: EditResult {
                ok: false,
                message: "row changed on the sheet".to_string(),
                error: None,
                award: None,
                awards: Vec::new(),
            },
            username: "alice".into(),
        },
        NO_AUTH,
        String::new(),
    );
    match &app.modal {
        Some(Modal::Audit(audit)) => assert_eq!(audit.list.len(), 1, "the failed fix must not drop the finding"),
        other => panic!("expected the failed write to restore the Audit modal, got {other:?}"),
    }
    assert_eq!(app.status, "delete failed: row changed on the sheet");
    assert!(app.saved_audit.is_none());
    assert!(app.audit_fix_username.is_none());
}

#[test]
fn paste_add_with_a_confident_match_lands_in_the_suffix_step_prefilled() {
    let mut app = test_app();
    app.data = Some(awards_data_with_catalog(
        "torba_f",
        Vec::new(),
        vec![
            award_def("badges", "Army Parachutist Badge", "Badges Database", "C"),
            award_def("badges", "Combat Action Badge", "Badges Database", "D"),
        ],
    ));
    app.modal = Some(Modal::PasteAdd(PasteAddModal::default()));
    app.handle_paste(
        "ROBLOX Username: torba_f\n\
         ROBLOX ID: 2452545815\n\
         Current Division & Rank: 1ID, Colonel\n\
         Badge Requested: Army Parachutist Badge\n\
         Proof: [image attachment]",
    );
    press(&mut app, KeyCode::Enter);
    match &app.modal {
        Some(Modal::Add(add)) => {
            assert!(matches!(add.step, AddStep::Suffix));
            assert_eq!(add.chosen.as_ref().map(|def| def.base_name.as_str()), Some("Army Parachutist Badge"));
            assert_eq!(add.suffix.value, "");
        },
        other => panic!("expected a pre-filled Add modal, got {other:?}"),
    }
    assert_eq!(app.results_username.as_deref(), Some("torba_f"));
}

#[test]
fn paste_add_with_a_repeat_count_suffix_prefills_the_suffix_field() {
    let mut app = test_app();
    app.data = Some(awards_data_with_catalog(
        "Nevazaku_u",
        Vec::new(),
        vec![award_def("ribbons", "Afganistan Campaign", "Ribbons Database", "E")],
    ));
    app.modal = Some(Modal::PasteAdd(PasteAddModal::default()));
    app.handle_paste(
        "ROBLOX Username: Nevazaku_u\n\
         ROBLOX ID: 1881585077\n\
         Current Division & Rank: JFKSWCS, Brigadier General\n\
         Ribbon Requested: Afganistan Campaign x1\n\
         Proof: https://docs.google.com/spreadsheets/d/1Y8jEcLpRb6lDDhe7Axb5Z27dotsb3p-QKMtpvFATEjY/edit?gid=1708955154#gid=1708955154",
    );
    press(&mut app, KeyCode::Enter);
    match &app.modal {
        Some(Modal::Add(add)) => {
            assert!(matches!(add.step, AddStep::Suffix));
            assert_eq!(add.chosen.as_ref().map(|def| def.base_name.as_str()), Some("Afganistan Campaign"));
            assert_eq!(add.suffix.value, "x1", "FR-011: the count indicator must carry through");
        },
        other => panic!("expected a pre-filled Add modal, got {other:?}"),
    }
}

#[test]
fn confirming_a_paste_prefilled_add_reaches_the_same_write_dispatch_as_manual_add() {
    let mut app = test_app();
    app.data = Some(awards_data_with_catalog(
        "torba_f",
        Vec::new(),
        vec![award_def("badges", "Army Parachutist Badge", "Badges Database", "C")],
    ));
    app.modal = Some(Modal::PasteAdd(PasteAddModal::default()));
    app.handle_paste("ROBLOX Username: torba_f\nBadge Requested: Army Parachutist Badge");
    press(&mut app, KeyCode::Enter);
    assert!(matches!(app.modal, Some(Modal::Add(_))), "expected the paste to resolve into Modal::Add first");
    press(&mut app, KeyCode::Enter);
    assert!(app.modal.is_none(), "commit_add closes the modal exactly like a manual Add (FR-009)");
    assert!(app.busy, "the write dispatch went through the same begin_busy/commit_add path");
    assert!(app.status.starts_with("Writing Army Parachutist Badge"), "status: {}", app.status);
}

#[test]
fn paste_add_with_no_catalog_match_opens_the_picker_prefiltered() {
    let mut app = test_app();
    app.data = Some(awards_data_with_catalog(
        "torba_f",
        Vec::new(),
        vec![award_def("badges", "Army Parachutist Badge", "Badges Database", "C")],
    ));
    app.modal = Some(Modal::PasteAdd(PasteAddModal::default()));
    app.handle_paste("ROBLOX Username: torba_f\nBadge Requested: Not A Real Badge");
    press(&mut app, KeyCode::Enter);
    match &app.modal {
        Some(Modal::Add(add)) => {
            assert!(matches!(add.step, AddStep::Pick));
            assert_eq!(add.filter.value, "Not A Real Badge");
            assert!(add.filtered.is_empty(), "the filter matches nothing in the catalog");
        },
        other => panic!("expected the Pick-step picker, got {other:?}"),
    }
    assert_eq!(app.results_username.as_deref(), Some("torba_f"));
}

#[test]
fn paste_add_with_multiple_catalog_matches_opens_the_picker_prefiltered() {
    let mut app = test_app();
    app.data = Some(awards_data_with_catalog(
        "torba_f",
        Vec::new(),
        vec![
            award_def("badges", "Army Parachutist Badge", "Badges Database", "C"),
            award_def("badges", "Army Air Assault Badge", "Badges Database", "D"),
        ],
    ));
    app.modal = Some(Modal::PasteAdd(PasteAddModal::default()));
    app.handle_paste("ROBLOX Username: torba_f\nBadge Requested: Army");
    press(&mut app, KeyCode::Enter);
    match &app.modal {
        Some(Modal::Add(add)) => {
            assert!(matches!(add.step, AddStep::Pick));
            assert_eq!(add.filter.value, "Army");
            assert_eq!(add.filtered.len(), 2, "both Army-prefixed badges should still be listed for the clerk to choose");
        },
        other => panic!("expected the Pick-step picker, got {other:?}"),
    }
}

#[test]
fn paste_add_with_no_username_line_keeps_the_modal_open_with_an_error() {
    let mut app = test_app();
    app.data = Some(AwardsData::empty());
    app.modal = Some(Modal::PasteAdd(PasteAddModal::default()));
    app.handle_paste("Badge Requested: Army Parachutist Badge");
    press(&mut app, KeyCode::Enter);
    match &app.modal {
        Some(Modal::PasteAdd(paste)) => {
            assert!(paste.error.is_some(), "expected an inline error");
            assert!(
                paste.buffer.contains("Army Parachutist Badge"),
                "the buffer must be preserved so the clerk can correct and resubmit"
            );
        },
        other => panic!("expected Modal::PasteAdd to stay open, got {other:?}"),
    }
}

#[test]
fn paste_add_with_completely_unparseable_text_gets_the_same_generic_error() {
    let mut app = test_app();
    app.data = Some(AwardsData::empty());
    app.modal = Some(Modal::PasteAdd(PasteAddModal::default()));
    app.handle_paste("just some unrelated text with no labeled lines at all");
    press(&mut app, KeyCode::Enter);
    match &app.modal {
        Some(Modal::PasteAdd(paste)) => assert!(paste.error.is_some()),
        other => panic!("expected Modal::PasteAdd to stay open, got {other:?}"),
    }
}

#[test]
fn esc_from_paste_add_closes_it_and_reports_cancelled() {
    let mut app = test_app();
    app.modal = Some(Modal::PasteAdd(PasteAddModal::default()));
    press(&mut app, KeyCode::Esc);
    assert!(app.modal.is_none());
    assert_eq!(app.status, "Dialog cancelled");
}
