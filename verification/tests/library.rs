use awards::audit::{collect_sheet_audit, AuditFinding};
use awards::edit::{cell_stale_message, EditError, EditResult};
use awards::format::extract_cjs;
use awards::gui::describe_result;
use awards::gui::StatusKind;
use awards::index::{
    drop_award_location, get_awards_for_username, shift_column_up_in_rows, upsert_award_in_index,
};
use awards::parse::{build_cell_value, normalize_username, usernames_similar};
use awards::sheets::parse_csv;
use awards::tui::{
    actions, award_tabs, category_label, describe_finding, move_audit_row, move_list, visible_for_tab,
    Action, AuditFindingsList, AuditRow, AwardTab,
};
use awards::types::{Award, AwardColumn, AwardIndex, AwardsData, SheetRows};

fn award(category: &str, name: &str, sheet: &str, col: &str, row: i32, cell: &str) -> Award {
    Award::new(category, name).with_location(sheet, col, row).with_cell(cell, name)
}

fn dup(user: &str, row: i32) -> AuditFinding {
    AuditFinding::DuplicateRow {
        user: user.to_string(),
        sheet: "Badges Database".to_string(),
        col: "C".to_string(),
        base_name: "Test Badge".to_string(),
        kind: "identical".to_string(),
        row,
        cell: user.to_string(),
    }
}

fn unparsed(row: i32) -> AuditFinding {
    AuditFinding::UnparseableCell {
        sheet: "Badges Database".to_string(),
        col: "C".to_string(),
        base_name: "Test Badge".to_string(),
        row,
        cell: "\"???\"".to_string(),
    }
}

// --- A written cell reads back as its member -------------------------------

#[test]
fn written_cell_is_found_under_the_typed_member() {
    for (typed, suffix) in [("@Bob", "x2"), ("Bob", "Master"), ("Bob", ""), ("Bob", "  - Senior ")] {
        let cell = build_cell_value(typed, suffix);
        assert_eq!(normalize_username(Some(&cell)).as_deref(), Some("bob"), "{cell}");
        let mut index = AwardIndex::new();
        let a = award("badges", "Army Parachutist Badge", "Badges Database", "C", 10, &cell);
        upsert_award_in_index(&mut index, &a);
        let found = get_awards_for_username(&index, typed);
        assert_eq!(found.len(), 1, "{cell}");
        assert_eq!(found[0].cell, cell);
    }
}

// --- Lookups after index writes ---------------------------------------------

#[test]
fn upsert_twice_reads_the_same_as_once() {
    let mut once = AwardIndex::new();
    once.insert("alice".into(), vec![award("ribbons", "A", "Ribbons Database", "C", 5, "alice")]);
    let mut twice = AwardIndex::new();
    twice.insert("alice".into(), vec![award("ribbons", "A", "Ribbons Database", "C", 5, "alice")]);
    let moved = award("ribbons", "A", "Ribbons Database", "C", 5, "bob x2");
    upsert_award_in_index(&mut once, &moved);
    upsert_award_in_index(&mut twice, &moved);
    upsert_award_in_index(&mut twice, &moved);
    for who in ["alice", "bob"] {
        assert_eq!(get_awards_for_username(&once, who), get_awards_for_username(&twice, who), "{who}");
    }
    assert_eq!(get_awards_for_username(&twice, "bob").len(), 1);
    assert!(get_awards_for_username(&twice, "alice").is_empty());
}

#[test]
fn dropping_a_cell_leaves_no_member_filed_there() {
    let mut index = AwardIndex::new();
    index.insert(
        "alice".into(),
        vec![
            award("ribbons", "A", "Ribbons Database", "C", 5, "alice"),
            award("ribbons", "B", "Ribbons Database", "D", 5, "alice"),
        ],
    );
    index.insert("bob".into(), vec![award("ribbons", "A", "Ribbons Database", "C", 5, "bob")]);
    drop_award_location(&mut index, "Ribbons Database", "C", 5);
    let alice = get_awards_for_username(&index, "alice");
    assert_eq!(alice.len(), 1);
    assert_eq!(alice[0].col, "D");
    assert!(get_awards_for_username(&index, "bob").is_empty());
}

#[test]
fn deleting_a_cell_leaves_other_columns_alone() {
    let mut rows: Vec<Vec<String>> = vec![
        vec!["t".into(), "u".into(), "Title".into()],
        vec!["a1".into(), "b1".into(), "alice".into()],
        vec!["a2".into()],
        vec!["a3".into(), "b3".into(), "carol".into()],
    ];
    // Ribbons data row 2 is live row 11.
    shift_column_up_in_rows(&mut rows, "Ribbons Database", "C", 10);
    assert_eq!(rows[0], vec!["t", "u", "Title"]);
    assert_eq!(rows[1][0], "a1");
    assert_eq!(rows[1][2], "");
    assert_eq!(rows[2], vec!["a2", "", "carol"]);
    assert_eq!(rows[3], vec!["a3", "b3", ""]);
}

// --- Outside calls, through the library --------------------------------------

#[test]
fn csv_quotes_and_errors_come_from_the_reader() {
    let rows = parse_csv("x,\"a \"\"b\"\"\"\n").unwrap();
    assert_eq!(rows, vec![vec!["x".to_string(), "a \"b\"".to_string()]]);
}

#[test]
fn edit_distance_decides_similarity() {
    assert!(usernames_similar("alice_1", "alice_2"));
    assert!(!usernames_similar("alice", "bobby"));
}

#[test]
fn stale_message_quotes_both_cells() {
    let a = award("badges", "X", "Badges Database", "C", 10, "al\"ice");
    let msg = cell_stale_message(&a, "bob");
    assert!(msg.contains("\"bob\""), "{msg}");
    assert!(msg.contains("\"al\\\"ice\""), "{msg}");
}

#[test]
fn unparseable_cell_is_reported_quoted() {
    let rows: Vec<Vec<String>> = ["hdr", "x", "Army Parachutist Badge", "???"]
        .iter()
        .map(|c| vec![String::new(), String::new(), c.to_string()])
        .collect();
    let mut sheet_rows = SheetRows::new();
    sheet_rows.insert("Badges Database".into(), rows);
    let data = AwardsData { index: AwardIndex::new(), catalog: vec![], sheet_rows };
    let cols = vec![AwardColumn { sheet: "Badges Database".into(), col: "C".into() }];
    let report = collect_sheet_audit(&data, &cols);
    assert_eq!(report.unparsed.len(), 1);
    assert_eq!(report.unparsed[0].cell, "\"???\"");
    assert_eq!(report.unparsed[0].row, 10);
}

// --- Status for write results ------------------------------------------------

#[test]
fn every_write_error_kind_has_a_status() {
    let errors = vec![
        EditError::Validation("v".into()),
        EditError::Stale("s".into()),
        EditError::Conflict("c".into()),
        EditError::NotFound("n".into()),
        EditError::Api("a".into()),
        EditError::Other("o".into()),
    ];
    for e in errors {
        let is_api = matches!(e, EditError::Api(_));
        let text = e.message();
        let (status, kind) = describe_result(&EditResult::err(e));
        assert_eq!(kind, StatusKind::Error);
        if is_api {
            assert_eq!(status, "Couldn't reach Google Sheets. Check your connection and try again.");
        } else {
            assert_eq!(status, text);
        }
    }
}

// --- Terminal browser tables and lists ----------------------------------------

#[test]
fn menu_and_tabs_read_in_order() {
    let labels: Vec<_> = actions().into_iter().map(Action::label).collect();
    assert_eq!(
        labels,
        vec!["Lookup", "Add", "Paste", "Edit", "Delete", "Rename", "Assist", "Refresh", "Audit"]
    );
    let tabs: Vec<_> = award_tabs().into_iter().map(|t| (t.label(), t.category())).collect();
    assert_eq!(
        tabs,
        vec![
            ("All", None),
            ("Badges", Some("badges")),
            ("Ribbons", Some("ribbons")),
            ("Foreign", Some("foreign")),
            ("Duplicates/Typos", None),
        ]
    );
    assert_eq!(category_label("foreign"), "Foreign Awards");
    assert_eq!(category_label("medals"), "medals");
}

#[test]
fn tabs_list_awards_then_flagged_duplicates() {
    let results = vec![
        award("badges", "B1", "Badges Database", "C", 10, "a"),
        award("ribbons", "R1", "Ribbons Database", "C", 10, "a"),
    ];
    let dups = vec![award("badges", "B1 (duplicate copy)", "Badges Database", "C", 11, "a")];
    let all = visible_for_tab(AwardTab::All, &results, &dups);
    assert_eq!(all.iter().map(|v| (v.award.name.as_str(), v.warning)).collect::<Vec<_>>(), vec![
        ("B1", false),
        ("R1", false),
        ("B1 (duplicate copy)", true)
    ]);
    let ribbons = visible_for_tab(AwardTab::Ribbons, &results, &dups);
    assert_eq!(ribbons.len(), 1);
    assert_eq!(ribbons[0].award.name, "R1");
    let only_dups = visible_for_tab(AwardTab::Duplicates, &results, &dups);
    assert_eq!(only_dups.len(), 1);
    assert!(only_dups[0].warning);
}

#[test]
fn list_selection_wraps_both_ways() {
    assert_eq!(move_list(None, 0, 1), None);
    assert_eq!(move_list(None, 3, 1), Some(1));
    assert_eq!(move_list(Some(2), 3, 1), Some(0));
    assert_eq!(move_list(Some(0), 3, -1), Some(2));
    assert_eq!(move_list(Some(9), 3, 0), Some(2));
    assert_eq!(move_list(Some(1), 3, -7), Some(0));
}

#[test]
fn findings_are_grouped_by_member_in_name_order() {
    let list = AuditFindingsList::from_findings(vec![dup("zed", 5), unparsed(9), dup("amy", 6), dup("zed", 7)]);
    let names: Vec<_> = list.groups.iter().map(|g| g.username.clone()).collect();
    assert_eq!(names, vec![Some("amy".to_string()), Some("zed".to_string()), None]);
    assert_eq!(list.groups[1].findings, vec![dup("zed", 5), dup("zed", 7)]);
    assert_eq!(list.len(), 4);
    assert!(!list.is_empty());

    let rows: Vec<String> = list
        .rows_for_render()
        .into_iter()
        .map(|r| match r {
            AuditRow::Header(h) => h,
            AuditRow::Item(f) => describe_finding(f),
        })
        .collect();
    assert_eq!(rows[0], "@amy");
    assert_eq!(rows[2], "@zed");
    assert_eq!(rows[5], "(unattributed)");
    assert_eq!(rows[1], "\u{26a0} Test Badge (duplicate copy) \u{b7} Badges Database C6");
    assert_eq!(rows[6], "\u{26a0} Test Badge (unparseable \"\"???\"\") \u{b7} Badges Database C9");

    assert_eq!(list.selectable_rows(), vec![1, 3, 4, 6]);
    assert_eq!(list.finding_at_row(0), None);
    assert_eq!(list.finding_at_row(4), Some(&dup("zed", 7)));
    assert_eq!(list.finding_at_row(99), None);

    assert_eq!(move_audit_row(&list, Some(1), 1), Some(3));
    assert_eq!(move_audit_row(&list, Some(6), 1), Some(1));
    assert_eq!(move_audit_row(&list, Some(1), -1), Some(6));
    assert_eq!(move_audit_row(&list, None, 0), Some(1));
    assert_eq!(move_audit_row(&list, Some(2), 1), Some(3));

    let empty = AuditFindingsList::from_findings(vec![]);
    assert!(empty.is_empty());
    assert_eq!(empty.len(), 0);
    assert_eq!(move_audit_row(&empty, Some(0), 1), None);
}

#[test]
fn jump_star_note_is_cut_and_the_rest_tidied() {
    let (rest, note) = extract_cjs("alice   Bronze  (2x CJS)");
    assert_eq!(rest, "alice Bronze");
    assert_eq!(note.as_deref(), Some("2 Combat Jump Stars"));

    let (rest, note) = extract_cjs("bob - (x1 CJS)");
    assert_eq!(rest, "bob");
    assert_eq!(note.as_deref(), Some("Combat Jump Star"));

    let (rest, _) = extract_cjs("carol (3x CJS) ()");
    assert_eq!(rest, "carol");

    let (rest, note) = extract_cjs("dave - Gold");
    assert_eq!(rest, "dave - Gold");
    assert!(note.is_none());
}

#[test]
fn similar_names_use_the_edit_distance() {
    assert!(usernames_similar("kitten_army", "kitten_arny"));
    assert!(!usernames_similar("kitten_army", "sitting_navy"));
}
