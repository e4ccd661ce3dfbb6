use awards::audit::AuditFinding;
use awards::dialogs::{
    add_candidates, awards_under_new_name, check_new_username, confirm_word, fix_for_finding, member_after_rename,
    patch_sheet_cell, plan_paste_add, rename_cell_count, FixPlan, PastePlan,
};
use awards::parse::has_ascii_last_space;
use awards::tui::{cycle_focus, selected_action, step_tab, tab_for_digit, Action, AwardTab, FocusArea};
use awards::types::{Award, AwardDef, AwardIndex, AwardsData, SheetRows};

fn award(category: &str, name: &str, sheet: &str, col: &str, row: i32, cell: &str) -> Award {
    Award::new(category, name).with_location(sheet, col, row).with_cell(cell, name)
}

fn def(category: &str, sheet: &str, col: &str, base_name: &str) -> AwardDef {
    AwardDef {
        category: category.to_string(),
        sheet: sheet.to_string(),
        col: col.to_string(),
        base_name: base_name.to_string(),
    }
}

fn catalog() -> Vec<AwardDef> {
    vec![
        def("badges", "Badges Database", "C", "Army Parachutist Badge"),
        def("badges", "Badges Database", "D", "Air Assault Badge"),
        def("ribbons", "Ribbons Database", "E", "Afghanistan Campaign"),
        def("ribbons", "Ribbons Database", "F", "Army Good Conduct Medal"),
    ]
}

#[test]
fn add_candidates_leave_out_the_members_columns() {
    let shown = vec![
        award("badges", "Army Parachutist Badge", "Badges Database", "C", 10, "torba_f"),
        award("badges", "Air Assault Badge", "Badges Database", "D", 11, "torba_ff"),
    ];
    let left = add_candidates(&catalog(), &shown, "torba_f");
    let names: Vec<_> = left.iter().map(|d| d.base_name.as_str()).collect();
    assert_eq!(names, vec!["Air Assault Badge", "Afghanistan Campaign", "Army Good Conduct Medal"]);
}

#[test]
fn paste_with_a_confident_match_lands_in_the_suffix_step() {
    let text = "Afghanistan Campaign x1";
    assert!(has_ascii_last_space(text));
    match plan_paste_add(Some(text), &catalog(), &[], "nevazaku_u") {
        PastePlan::Suffix { candidates, chosen, suffix } => {
            assert_eq!(candidates.len(), 4);
            assert_eq!(chosen.base_name, "Afghanistan Campaign");
            assert_eq!(suffix, "x1");
        }
        other => panic!("expected the suffix step, got {other:?}"),
    }
}

#[test]
fn paste_with_several_or_no_matches_opens_the_filtered_picker() {
    match plan_paste_add(Some("Army"), &catalog(), &[], "bob") {
        PastePlan::Picker { filter, filtered, .. } => {
            assert_eq!(filter, "Army");
            assert_eq!(filtered.len(), 2);
        }
        other => panic!("expected the picker, got {other:?}"),
    }
    match plan_paste_add(Some("Not An Award"), &catalog(), &[], "bob") {
        PastePlan::Picker { filter, filtered, candidates } => {
            assert_eq!(filter, "Not An Award");
            assert!(filtered.is_empty());
            assert_eq!(candidates.len(), 4);
        }
        other => panic!("expected the picker, got {other:?}"),
    }
    match plan_paste_add(None, &catalog(), &[], "bob") {
        PastePlan::Picker { filter, filtered, .. } => {
            assert_eq!(filter, "");
            assert_eq!(filtered.len(), 4);
        }
        other => panic!("expected the picker, got {other:?}"),
    }
}

#[test]
fn paste_for_a_member_holding_everything_closes() {
    let shown: Vec<Award> = catalog()
        .iter()
        .enumerate()
        .map(|(i, d)| award(&d.category, &d.base_name, &d.sheet, &d.col, 10 + i as i32, "bob"))
        .collect();
    assert!(matches!(plan_paste_add(Some("Army"), &catalog(), &shown, "bob"), PastePlan::NothingLeft));
}

#[test]
fn each_finding_opens_its_fix() {
    let dup = AuditFinding::DuplicateRow {
        user: "alice".into(),
        sheet: "Badges Database".into(),
        col: "C".into(),
        base_name: "Test Badge".into(),
        kind: "identical".into(),
        row: 10,
        cell: "alice".into(),
    };
    let (plan, status) = fix_for_finding(&dup);
    assert_eq!(status, "Type \"delete\" to remove this duplicate row");
    match plan {
        FixPlan::Delete { award, viewed_username } => {
            assert_eq!(award.row, 10);
            assert_eq!(viewed_username, "alice");
        }
        other => panic!("expected a delete, got {other:?}"),
    }

    let malformed = AuditFinding::MalformedCell {
        user: "carol".into(),
        sheet: "Ribbons Database".into(),
        col: "D".into(),
        base_name: "Test Ribbon".into(),
        row: 12,
        cell: "carol -Senior".into(),
        issues: vec!["missing_space_before_dash".into()],
    };
    match fix_for_finding(&malformed).0 {
        FixPlan::Edit { award, prefill, username } => {
            assert_eq!(award.cell, "carol -Senior");
            assert_eq!(prefill, "carol -Senior");
            assert_eq!(username, "carol");
        }
        other => panic!("expected an edit, got {other:?}"),
    }

    let similar = AuditFinding::SimilarUsernames {
        a: "bob".into(),
        b: "bobb".into(),
        sheet: "Badges Database".into(),
        col: "C".into(),
        base_name: "Test Badge".into(),
    };
    let (plan, status) = fix_for_finding(&similar);
    assert_eq!(status, "Which account is the typo? Press 1 or 2");
    assert!(matches!(plan, FixPlan::ChooseUsername { ref a, ref b } if a == "bob" && b == "bobb"));

    let unparsed = AuditFinding::UnparseableCell {
        sheet: "Badges Database".into(),
        col: "C".into(),
        base_name: "Test Badge".into(),
        row: 5,
        cell: "\"???\"".into(),
    };
    let (plan, status) = fix_for_finding(&unparsed);
    assert!(matches!(plan, FixPlan::NoFix));
    assert_eq!(status, "No direct fix available for this cell — edit it manually on the sheet");
}

#[test]
fn delete_and_rename_need_their_word() {
    assert!(confirm_word("  DELETE ", "delete"));
    assert!(!confirm_word("del", "delete"));
    assert!(confirm_word("Rename", "rename"));
    assert!(!confirm_word("", "rename"));
}

#[test]
fn a_new_name_must_be_bare_and_different() {
    assert_eq!(check_new_username("Bob - Master", "alice"), Err("Enter a bare Roblox username (no suffixes)"));
    assert_eq!(check_new_username("  @Alice ", "alice"), Err("New username is the same as the current name"));
    assert_eq!(check_new_username(" Nova_1 ", "alice"), Ok("Nova_1".to_string()));
}

#[test]
fn rename_counts_the_cells_it_would_rewrite() {
    let shown = vec![
        award("ribbons", "A", "Ribbons Database", "C", 10, "alice"),
        award("ribbons", "B", "Ribbons Database", "D", 11, "alice x2"),
        award("ribbons", "C", "Ribbons Database", "E", 12, "alicee"),
        Award::new("ribbons", "D").with_cell("alice", "D"),
    ];
    let index = AwardIndex::new();
    assert_eq!(rename_cell_count(&shown, "alice", &index), 2);

    let mut index = AwardIndex::new();
    index.insert("carol".into(), vec![award("ribbons", "A", "Ribbons Database", "C", 10, "carol")]);
    assert_eq!(rename_cell_count(&[], "carol", &index), 1);
    assert_eq!(rename_cell_count(&[], "nobody", &index), 0);
    assert_eq!(awards_under_new_name(&index, "@Carol"), 1);
    assert_eq!(awards_under_new_name(&index, "Carol x2"), 0);
}

#[test]
fn after_a_rename_the_new_member_is_shown_only_on_success() {
    assert_eq!(member_after_rename(true, "@NewName", "old"), "newname");
    assert_eq!(member_after_rename(false, "@NewName", "old"), "old");
    assert_eq!(member_after_rename(true, " @Odd - name ", "old"), "odd - name");
}

#[test]
fn a_written_cell_is_patched_into_the_cached_rows() {
    let mut data = AwardsData { index: AwardIndex::new(), catalog: vec![], sheet_rows: SheetRows::new() };
    let mut rows = SheetRows::new();
    rows.insert("Ribbons Database".into(), vec![vec!["hdr".to_string()]]);
    data.sheet_rows = rows;
    // Ribbons live row 12 is data row 3.
    patch_sheet_cell(&mut data, &award("ribbons", "A", "Ribbons Database", "C", 12, "alice x2"));
    let rows = data.sheet_rows.get("Ribbons Database").unwrap();
    assert_eq!(rows.len(), 4);
    assert_eq!(rows[0], vec!["hdr"]);
    assert_eq!(rows[3], vec!["", "", "alice x2"]);
    // A tab not cached yet is created.
    patch_sheet_cell(&mut data, &award("badges", "B", "Badges Database", "A", 8, "bob"));
    assert_eq!(data.sheet_rows.get("Badges Database").unwrap()[1], vec!["bob"]);
    // A row above the data is left alone.
    patch_sheet_cell(&mut data, &award("badges", "B", "Badges Database", "A", 3, "zed"));
    assert_eq!(data.sheet_rows.get("Badges Database").unwrap().len(), 2);
}

#[test]
fn focus_tabs_and_menu_wrap() {
    assert_eq!(cycle_focus(FocusArea::Detail, 1), FocusArea::Username);
    assert_eq!(cycle_focus(FocusArea::Username, -1), FocusArea::Detail);
    assert_eq!(step_tab(AwardTab::All, -1), AwardTab::Duplicates);
    assert_eq!(step_tab(AwardTab::Foreign, 1), AwardTab::Duplicates);
    assert_eq!(tab_for_digit('3'), Some(AwardTab::Ribbons));
    assert_eq!(tab_for_digit('6'), None);
    assert_eq!(selected_action(Some(8)), Action::Audit);
    assert_eq!(selected_action(Some(9)), Action::Lookup);
    assert_eq!(selected_action(None), Action::Lookup);
}
