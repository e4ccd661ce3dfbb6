use awards::edit::{
    a1, add_award_to_user, cell_filled_message, cell_stale_message, column_foreign_username,
    find_existing_row, find_target_row, format_remaining_ranges, remove_award, rename_username, update_award_cell,
    EditError, EditResult, SheetReply, SheetRequest,
};
use awards::types::{Award, AwardDef};
use std::collections::HashSet;

fn finished(req: SheetRequest) -> EditResult {
    match req {
        SheetRequest::Finish(result) => result,
        other => panic!("expected the flow to finish at once, got {other:?}"),
    }
}

fn column(cells: &[&str]) -> Vec<Vec<String>> {
    cells.iter().map(|c| vec![c.to_string()]).collect()
}

#[test]
fn a1_quotes_sheet_name() {
    assert_eq!(a1("Badges Database", "C", 10), "'Badges Database'!C10");
}

#[test]
fn stale_message_shape() {
    let award = Award::new("badges", "X").with_location("Badges Database", "C", 10).with_cell("alice", "X");
    let msg = cell_stale_message(&award, "bob");
    assert!(msg.contains("C10"));
    assert!(msg.contains("alice"));
    assert!(msg.contains("bob"));
}

#[test]
fn column_foreign_username_skips_allowed_rows() {
    let col_vals = column(&["Header", "alice", "bob x2", "carol"]);
    let mut allowed = HashSet::new();
    allowed.insert(3); // bob already rewritten in place
    assert_eq!(
        column_foreign_username(&col_vals, 2, "bob", &allowed),
        None,
        "in-place rewrite is not a foreign overlap"
    );
    assert_eq!(
        column_foreign_username(&col_vals, 2, "carol", &allowed),
        Some(4),
        "other user in the column is still an overlap"
    );
    assert_eq!(column_foreign_username(&col_vals, 2, "bob", &HashSet::new()), Some(3));
    assert_eq!(column_foreign_username(&col_vals, 2, "header", &HashSet::new()), None);
}

#[test]
fn format_remaining_ranges_truncates() {
    let ranges: Vec<String> = (1..=10).map(|i| format!("C{i}")).collect();
    let text = format_remaining_ranges(&ranges);
    assert!(text.contains("C1"));
    assert!(text.contains("+2 more"));
}

#[test]
fn rename_rejects_non_bare_new_username() {
    let (_flow, req) = rename_username("alice", "Bob - Master", None);
    let result = finished(req);
    assert!(!result.ok);
    assert!(result.message.contains("bare Roblox name"), "{}", result.message);
}

#[test]
fn find_existing_row_matches_normalized_username_case_and_format() {
    let col_vals = column(&["Header", "alice", "Bob x2"]);
    assert_eq!(
        find_existing_row(&col_vals, 2, "bob"),
        Some((3, "Bob x2".to_string())),
        "a suffixed cell still normalizes to its bare username"
    );
    assert_eq!(find_existing_row(&col_vals, 2, "carol"), None);
    assert_eq!(find_existing_row(&col_vals, 2, "header"), None, "rows before `start` must not be scanned");
}

#[test]
fn find_target_row_prefers_first_empty_cell_then_falls_back_past_the_end() {
    let with_gap = column(&["Header", "alice", "", "carol"]);
    assert_eq!(find_target_row(&with_gap, 2), 3, "row 3 is the first empty cell");
    let full = column(&["Header", "alice", "bob"]);
    assert_eq!(
        find_target_row(&full, 2),
        4,
        "no empty cell in range falls back to one past the last fetched row"
    );
}

#[test]
fn filled_message_names_the_cell_and_the_live_value() {
    let msg = cell_filled_message("C", 12, "someone_else");
    assert!(msg.contains("C12"), "{msg}");
    assert!(msg.contains("someone_else"), "{msg}");
    assert!(msg.contains("Refresh and try again"), "{msg}");
}

#[test]
fn err_result_message_matches_the_typed_error_display() {
    let error = EditError::Validation("Username required".into());
    let result = EditResult::err(error.clone());
    assert!(!result.ok);
    assert_eq!(result.message, error.message());
    assert_eq!(result.error.map(|e| e.message()), Some(error.message()));
}

#[test]
fn edit_error_variants_classify_by_category_not_just_text() {
    let validation = EditError::Validation("duplicate message".into());
    let conflict = EditError::Conflict("duplicate message".into());
    assert_eq!(validation.message(), conflict.message());
    assert_ne!(std::mem::discriminant(&validation), std::mem::discriminant(&conflict));

    let (_flow, req) = add_award_to_user(
        "",
        &AwardDef {
            category: "badges".into(),
            sheet: "Badges Database".into(),
            col: "C".into(),
            base_name: "Test".into(),
        },
        "",
    );
    let dup_add = finished(req);
    assert!(matches!(dup_add.error, Some(EditError::Validation(_))));

    let (_flow, req) = rename_username("alice", "Bob - Master", None);
    let bad_rename = finished(req);
    assert!(matches!(bad_rename.error, Some(EditError::Validation(_))));
}

#[test]
fn correcting_a_cell_checks_the_text_before_the_sheet() {
    let award = Award::new("badges", "X").with_location("No Such Tab", "C", 10).with_cell("alice", "X");
    let (_flow, req) = update_award_cell(&award, "   ");
    let r = finished(req);
    assert!(!r.ok);
    assert!(r.award.is_none());
    assert!(matches!(&r.error, Some(EditError::Validation(m)) if m == "Cell value cannot be empty (use delete instead)"));

    let (_flow, req) = update_award_cell(&award, "- no name");
    let r = finished(req);
    assert!(matches!(&r.error, Some(EditError::Validation(m)) if m == "Cell must start with a username"));

    let unplaced = Award::new("badges", "X").with_cell("alice", "X");
    let (_flow, req) = update_award_cell(&unplaced, "bob");
    let r = finished(req);
    assert!(matches!(r.error, Some(EditError::Stale(_))));
}

#[test]
fn correcting_on_an_unknown_tab_stops_once_connected() {
    let award = Award::new("badges", "X").with_location("No Such Tab", "C", 10).with_cell("alice", "X");
    let (flow, req) = update_award_cell(&award, "bob");
    assert!(matches!(req, SheetRequest::Connect));
    assert!(!flow.accepts(&SheetReply::Connected));
    assert!(flow.accepts(&SheetReply::Failed("offline".into())));

    let known = Award::new("badges", "X").with_location("Badges Database", "C", 10).with_cell("alice", "X");
    let (flow, _) = update_award_cell(&known, "bob");
    assert!(flow.accepts(&SheetReply::Connected));
}

#[test]
fn deleting_on_an_unknown_tab_stops_once_connected() {
    let award = Award::new("badges", "X").with_location("No Such Tab", "C", 10).with_cell("alice", "X");
    let (flow, req) = remove_award(&award);
    assert!(matches!(req, SheetRequest::Connect));
    assert!(!flow.accepts(&SheetReply::Connected));

    let near_the_end = Award::new("badges", "X").with_location("Badges Database", "C", i32::MAX - 3).with_cell("alice", "X");
    let (flow, _) = remove_award(&near_the_end);
    assert!(!flow.accepts(&SheetReply::Connected));

    let known = Award::new("badges", "X").with_location("Badges Database", "C", 10).with_cell("alice", "X");
    let (mut flow, _) = remove_award(&known);
    assert!(flow.accepts(&SheetReply::Connected));
    let next = flow.step(SheetReply::Connected);
    assert!(matches!(next, SheetRequest::GetValues(_)));
}

#[test]
fn adding_on_an_unknown_tab_checks_the_username_first() {
    let def = AwardDef {
        category: "badges".into(),
        sheet: "No Such Tab".into(),
        col: "C".into(),
        base_name: "Test".into(),
    };
    let (_flow, req) = add_award_to_user("  @ ", &def, "");
    let r = finished(req);
    assert!(matches!(&r.error, Some(EditError::Validation(m)) if m == "Username required"));

    let (mut flow, req) = add_award_to_user("alice", &def, "");
    assert!(matches!(req, SheetRequest::Connect));
    assert!(flow.accepts(&SheetReply::Connected));
    let next = flow.step(SheetReply::Connected);
    assert!(matches!(next, SheetRequest::GetValues(_)));
    assert!(!flow.accepts(&SheetReply::Values(column(&["Header", "alice"]))));
}
