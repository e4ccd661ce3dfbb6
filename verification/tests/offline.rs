use awards::audit::{collect_sheet_audit, find_duplicates_for_user, format_audit_report};
use awards::format::format_award_name;
use awards::index::{
    add_award, awards_excluding_duplicate_rows, drop_award_location, flatten_awards_sorted,
    get_awards_for_username, group_awards, owned_award_columns, reindex_column_after_delete,
    shift_column_up_in_rows, upsert_award_in_index,
};
use awards::meta::{csv_index_to_sheet_row, index_to_col, sheet_data_start_row, USER_AGENT};
use awards::parse::{
    build_cell_value, cell_format_issues, extract_paste_fields, find_first_empty_row,
    match_catalog_entries, match_row_in_window, normalize_username, parse_bare_username,
    replace_username_in_cell, split_award_suffix, usernames_similar,
};
use awards::types::{Award, AwardColumn, AwardDef, AwardIndex, AwardsData, ExtractedRequest, SheetRows};
use std::collections::HashSet;

fn rows_of(cells: &[&str]) -> Vec<Vec<String>> {
    cells
        .iter()
        .map(|c| vec![String::new(), String::new(), c.to_string()])
        .collect()
}

fn badges_column_c() -> Vec<AwardColumn> {
    vec![AwardColumn { sheet: "Badges Database".into(), col: "C".into() }]
}

fn data_with_badges(rows: Vec<Vec<String>>, index: AwardIndex) -> AwardsData {
    let mut sheet_rows = SheetRows::new();
    sheet_rows.insert("Badges Database".into(), rows);
    AwardsData { index, catalog: vec![], sheet_rows }
}

#[test]
fn test_normalize() {
    assert_eq!(normalize_username(Some("@FooBar_1 - x2")).as_deref(), Some("foobar_1"));
    assert_eq!(normalize_username(Some("Alice")).as_deref(), Some("alice"));
    assert_eq!(normalize_username(Some("")), None);
    assert_eq!(
        normalize_username(Some("\u{200b}\u{200b}amongus400and20")).as_deref(),
        Some("amongus400and20")
    );
    assert_eq!(normalize_username(Some("Alice  ")).as_deref(), Some("alice"));
}

#[test]
fn test_user_agent_includes_package_version() {
    assert!(USER_AGENT.contains("1.2"), "USER_AGENT={USER_AGENT}");
    assert!(USER_AGENT.starts_with("awards-tui/"));
}

#[test]
fn test_usernames_similar() {
    assert!(usernames_similar("codythebeast89", "codythebast89"));
    assert!(!usernames_similar("codythebeast89", "totallydifferent"));
    assert!(usernames_similar("rangers_apprentice122", "rangers_aprentice122"));
    assert!(usernames_similar("thundebolt_rblx", "thunderbolt_rblx"));
}

#[test]
fn test_cell_format_issues() {
    assert!(cell_format_issues("codythebeast89- Master")
        .iter()
        .any(|i| i == "missing_space_before_dash"));
    assert!(cell_format_issues("user  - x2").iter().any(|i| i == "extra_spaces"));
    assert!(cell_format_issues("Alice  ").is_empty());
    assert!(cell_format_issues("Alice").is_empty());
}

#[test]
fn test_find_duplicates_for_user() {
    let rows = rows_of(&[
        "hdr",
        "x",
        "Army Parachutist Badge",
        "codythebeast89",
        "codythebeast89",
        "codythebast89- Master",
        "codythebeast89 - Master",
    ]);
    let data = data_with_badges(rows, AwardIndex::new());
    let hits = find_duplicates_for_user(&data, &badges_column_c(), "codythebeast89");
    let reasons: HashSet<_> = hits.iter().map(|h| h.reason.as_str()).collect();
    assert!(reasons.contains("duplicate_conflict"));
    assert!(reasons.contains("similar_username"));
    assert!(reasons.contains("malformed_cell"));
}

#[test]
fn test_duplicate_identical_vs_conflict() {
    let rows = rows_of(&[
        "hdr",
        "x",
        "Army Parachutist Badge",
        "alice",
        "alice",
        "bob - Basic",
        "bob - Master",
    ]);
    let data = data_with_badges(rows, AwardIndex::new());
    let report = collect_sheet_audit(&data, &badges_column_c());
    let kinds: HashSet<_> = report
        .duplicate_groups
        .iter()
        .map(|g| (g.user.as_str(), g.kind.as_str()))
        .collect();
    assert!(kinds.contains(&("alice", "identical")));
    assert!(kinds.contains(&("bob", "conflict")));
    let text = format_audit_report(&report, "2026-08-14 00:00:00 UTC");
    assert!(text.contains("Decorations Database — duplicate audit"));
    assert!(text.contains("@alice"));
    assert!(text.contains("@bob"));
    assert!(text.contains("Row "));
    assert!(text.contains("End of report."));
}

#[test]
fn test_format_ribbon() {
    let name = format_award_name(
        "ribbons",
        Some("Army Good Conduct Medal"),
        "user - \"Bronze Oak Leaf\" x2",
    )
    .unwrap();
    assert!(name.contains("Army Good Conduct Medal"));
    assert!(name.contains("2nd Award"));
}

#[test]
fn test_format_badge() {
    let cib = format_award_name("badges", Some("Combat Infantryman Badge"), "cancholic - MC x2").unwrap();
    assert_eq!(cib, "Master Combat Infantryman Badge (2nd Award)");

    let cab = format_award_name("badges", Some("Combat Action Badge"), "user - MC").unwrap();
    assert_eq!(cab, "Master Combat Action Badge");

    let cmb = format_award_name("badges", Some("Combat Medical Badge"), "user x2 - MC").unwrap();
    assert_eq!(cmb, "Master Combat Medical Badge (2nd Award)");

    let esb = format_award_name("badges", Some("Combat Action Badge"), "user - ESB").unwrap();
    assert_eq!(esb, "Expert Soldier Badge");

    let senior = format_award_name("badges", Some("Army Parachutist Badge"), "user - Senior").unwrap();
    assert_eq!(senior, "Army Parachutist Badge (Senior)");

    let one_cjs =
        format_award_name("badges", Some("Army Parachutist Badge"), "user - Master (1x CJS)").unwrap();
    assert_eq!(one_cjs, "Army Parachutist Badge (Master, Combat Jump Star)");

    let x1_cjs =
        format_award_name("badges", Some("Military Freefall Badge"), "user - Basic (x1 CJS)").unwrap();
    assert_eq!(x1_cjs, "Military Freefall Badge (Basic, Combat Jump Star)");

    let three_cjs =
        format_award_name("badges", Some("Army Parachutist Badge"), "user - Senior (3x CJS)").unwrap();
    assert_eq!(three_cjs, "Army Parachutist Badge (Senior, 3 Combat Jump Stars)");

    let messy_cjs = format_award_name(
        "badges",
        Some("Army Parachutist Badge"),
        "weeelfdude - Master  (x5 CJS)",
    )
    .unwrap();
    assert_eq!(messy_cjs, "Army Parachutist Badge (Master, 5 Combat Jump Stars)");
}

#[test]
fn test_group() {
    let awards = vec![
        Award::new("badges", "Expert Infantryman Badge"),
        Award::new("ribbons", "Army Service Ribbon"),
        Award::new("foreign", "German Armed Forces Badge"),
    ];
    let grouped = group_awards(&awards);
    assert_eq!(
        grouped.get("Badges").map(|v| v.as_slice()),
        Some(&["Expert Infantryman Badge".to_string()][..])
    );
    assert_eq!(
        grouped.get("Ribbons").map(|v| v.as_slice()),
        Some(&["Army Service Ribbon".to_string()][..])
    );
    assert_eq!(
        grouped.get("Foreign Awards").map(|v| v.as_slice()),
        Some(&["German Armed Forces Badge".to_string()][..])
    );
}

#[test]
fn test_dedupe() {
    let mut index = AwardIndex::new();
    let a = Award::new("ribbons", "ASR").with_location("Ribbons Database", "C", 10);
    add_award(&mut index, Some("bob"), Some(&a));
    add_award(&mut index, Some("bob"), Some(&a));
    assert_eq!(index.get("bob").unwrap().len(), 1);
}

#[test]
fn test_dedupe_same_name_different_column() {
    let mut index = AwardIndex::new();
    let a1 = Award::new("ribbons", "ASR").with_location("Ribbons Database", "C", 10);
    let a2 = Award::new("ribbons", "ASR").with_location("Ribbons Database", "D", 11);
    add_award(&mut index, Some("bob"), Some(&a1));
    add_award(&mut index, Some("bob"), Some(&a2));
    assert_eq!(index.get("bob").unwrap().len(), 2);
}

#[test]
fn test_index_to_col() {
    assert_eq!(index_to_col(0), "A");
    assert_eq!(index_to_col(2), "C");
    assert_eq!(index_to_col(27), "AB");
}

#[test]
fn test_build_cell_value() {
    assert_eq!(build_cell_value("Alice", ""), "Alice");
    assert_eq!(build_cell_value("@Bob", "x2"), "Bob x2");
    assert_eq!(build_cell_value("Carol", "Master"), "Carol - Master");
}

#[test]
fn test_replace_username_in_cell() {
    assert_eq!(replace_username_in_cell("Alice", "Bob").as_deref(), Some("Bob"));
    assert_eq!(replace_username_in_cell("@alice x2", "NewName").as_deref(), Some("NewName x2"));
    assert_eq!(
        replace_username_in_cell("alice - 75th CSIB", "Nova").as_deref(),
        Some("Nova - 75th CSIB")
    );
    assert_eq!(
        replace_username_in_cell("alice - Master  (x5 CJS)", "bob").as_deref(),
        Some("bob - Master  (x5 CJS)")
    );
    assert_eq!(replace_username_in_cell("", "Bob"), None);
    assert_eq!(
        replace_username_in_cell("Alice x2", "Bob - Master"),
        None,
        "refuse cell-like new usernames"
    );
    assert_eq!(replace_username_in_cell("Alice", "Bob x2"), None);
}

#[test]
fn test_parse_bare_username() {
    assert_eq!(parse_bare_username("Bob").as_deref(), Some("Bob"));
    assert_eq!(parse_bare_username("@Nova_1").as_deref(), Some("Nova_1"));
    assert_eq!(parse_bare_username("Bob - Master"), None);
    assert_eq!(parse_bare_username("Alice x2"), None);
    assert_eq!(parse_bare_username(""), None);
}

#[test]
fn test_find_first_empty() {
    let rows = rows_of(&["Army Distinguished Service Cross", "user1", "", "user2"]);
    // csv row 3 + ribbons offset 8 => sheet row 11
    assert_eq!(find_first_empty_row(&rows, "Ribbons Database", "C"), 11);
}

#[test]
fn test_badges_row_offset() {
    assert_eq!(csv_index_to_sheet_row("Badges Database", 49), 56);
    assert_eq!(csv_index_to_sheet_row("Ribbons Database", 49), 58);
    assert_eq!(csv_index_to_sheet_row("Ribbons Database", 305), 314);
    assert_eq!(sheet_data_start_row("Ribbons Database"), 10);
    assert_eq!(csv_index_to_sheet_row("Foreign Awards Database", 49), 57);
    assert_eq!(sheet_data_start_row("Foreign Awards Database"), 10);
}

#[test]
fn test_flatten_order() {
    let awards = vec![
        Award::new("foreign", "Zulu"),
        Award::new("badges", "Beta"),
        Award::new("ribbons", "Alpha"),
        Award::new("badges", "Alpha"),
    ];
    let flat = flatten_awards_sorted(&awards);
    let cats: Vec<_> = flat.iter().map(|a| a.category.as_str()).collect();
    assert_eq!(cats, vec!["badges", "badges", "ribbons", "foreign"]);
}

#[test]
fn test_awards_excluding_duplicate_rows() {
    let rows = rows_of(&["hdr", "x", "Army Parachutist Badge", "alice", "alice", "bob"]);
    let a1 = Award::new("badges", "Army Parachutist Badge")
        .with_location("Badges Database", "C", 10)
        .with_cell("alice", "Army Parachutist Badge");
    let a2 = Award::new("badges", "Army Parachutist Badge")
        .with_location("Badges Database", "C", 11)
        .with_cell("alice", "Army Parachutist Badge");
    let a3 = Award::new("badges", "Army Parachutist Badge")
        .with_location("Badges Database", "C", 12)
        .with_cell("bob", "Army Parachutist Badge");
    let mut index = AwardIndex::new();
    index.insert("alice".into(), vec![a1, a2]);
    index.insert("bob".into(), vec![a3]);
    let data = data_with_badges(rows, index);
    let hits = find_duplicates_for_user(&data, &badges_column_c(), "alice");
    let primary = awards_excluding_duplicate_rows(
        &flatten_awards_sorted(&get_awards_for_username(&data.index, "alice")),
        &hits,
    );
    assert!(primary.is_empty());
    assert_eq!(hits.len(), 2);
}

#[test]
fn test_upsert_award_moves_username() {
    let award = Award::new("ribbons", "Army Achievement")
        .with_location("Ribbons Database", "C", 5)
        .with_cell("Alice", "Army Achievement");
    let mut index = AwardIndex::new();
    index.insert("alice".into(), vec![award]);
    let moved = Award::new("ribbons", "Army Achievement")
        .with_location("Ribbons Database", "C", 5)
        .with_cell("Bob x2", "Army Achievement");
    let key = upsert_award_in_index(&mut index, &moved);
    assert_eq!(key.as_deref(), Some("bob"));
    assert!(!index.contains_key("alice") || index.get("alice").unwrap().is_empty());
    assert_eq!(index.get("bob").unwrap().len(), 1);
    assert_eq!(index.get("bob").unwrap()[0].cell, "Bob x2");
    drop_award_location(&mut index, "Ribbons Database", "C", 5);
    assert!(!index.contains_key("bob") || index.get("bob").unwrap().is_empty());
}

#[test]
fn test_shift_column_up_on_delete() {
    let mut rows = rows_of(&["Title", "alice", "bob", "carol"]);
    let mut snapshot = rows.clone();
    shift_column_up_in_rows(&mut snapshot, "Ribbons Database", "C", 99);
    assert_eq!(snapshot[3][2], "carol");

    shift_column_up_in_rows(&mut rows, "Ribbons Database", "C", 11); // delete bob
    assert_eq!(rows[1][2], "alice");
    assert_eq!(rows[2][2], "carol");
    assert_eq!(rows[3][2], "");

    let a_alice = Award::new("ribbons", "A").with_location("Ribbons Database", "C", 10).with_cell("alice", "");
    let a_bob = Award::new("ribbons", "B").with_location("Ribbons Database", "C", 11).with_cell("bob", "");
    let a_carol = Award::new("ribbons", "C").with_location("Ribbons Database", "C", 12).with_cell("carol", "");
    let mut index = AwardIndex::new();
    index.insert("alice".into(), vec![a_alice]);
    index.insert("bob".into(), vec![a_bob]);
    index.insert("carol".into(), vec![a_carol]);
    reindex_column_after_delete(&mut index, "Ribbons Database", "C", 11);
    assert!(!index.contains_key("bob"));
    assert_eq!(index.get("carol").unwrap()[0].row, 11);
    assert_eq!(index.get("alice").unwrap()[0].row, 10);
}

#[test]
fn test_owned_award_columns_ignores_similar_cells() {
    let alice = Award::new("ribbons", "A").with_location("Ribbons Database", "C", 10).with_cell("alice", "");
    let alicie = Award::new("ribbons", "A").with_location("Ribbons Database", "D", 11).with_cell("alicie", "");
    let owned = owned_award_columns(&[alice, alicie], "alice");
    let owned: HashSet<(String, String)> = owned.into_iter().collect();
    assert_eq!(owned, [("Ribbons Database".into(), "C".into())].into_iter().collect());
}

#[test]
fn test_match_row_in_window() {
    let values = vec![
        vec![],
        vec!["Shadow325418 - 75th CSIB".to_string()],
        vec!["NovaStorm_Commader - ASF CSIB".to_string()],
    ];
    assert_eq!(
        match_row_in_window(&values, 4413, "NovaStorm_Commader - ASF CSIB", 4413),
        Some(4415)
    );
    let both = vec![vec!["alice".to_string()], vec!["bob".to_string()], vec!["alice".to_string()]];
    assert_eq!(match_row_in_window(&both, 10, "alice", 12), Some(12));
}

#[test]
fn test_extract_paste_fields_real_samples() {
    let badge_sample = "\
ROBLOX Username: torba_f
ROBLOX ID: 2452545815
Current Division & Rank: 1ID, Colonel
Badge Requested: Army Parachutist Badge
Proof: [image attachment]";
    let extracted = extract_paste_fields(badge_sample);
    assert_eq!(extracted.username.as_deref(), Some("torba_f"));
    assert_eq!(extracted.award_text.as_deref(), Some("Army Parachutist Badge"));

    let ribbon_sample = "\
ROBLOX Username: Nevazaku_u
ROBLOX ID: 1881585077
Current Division & Rank: JFKSWCS, Brigadier General
Ribbon Requested: Afganistan Campaign x1
Proof: https://docs.google.com/spreadsheets/d/1Y8jEcLpRb6lDDhe7Axb5Z27dotsb3p-QKMtpvFATEjY/edit?gid=1708955154#gid=1708955154";
    let extracted = extract_paste_fields(ribbon_sample);
    assert_eq!(extracted.username.as_deref(), Some("Nevazaku_u"));
    assert_eq!(extracted.award_text.as_deref(), Some("Afganistan Campaign x1"));
}

#[test]
fn test_extract_paste_fields_bare_username_label_and_markdown_artifacts() {
    let sample = "**Username**: @torba_f\nBadge Requested: _Army Parachutist Badge_\nProof: [image attachment]";
    let extracted = extract_paste_fields(sample);
    assert_eq!(extracted.username.as_deref(), Some("torba_f"));
    assert_eq!(extracted.award_text.as_deref(), Some("Army Parachutist Badge"));
}

#[test]
fn test_extract_paste_fields_missing_username_line() {
    let sample = "Badge Requested: Army Parachutist Badge\nProof: [image attachment]";
    let extracted = extract_paste_fields(sample);
    assert_eq!(extracted.username, None);
    assert_eq!(extracted.award_text.as_deref(), Some("Army Parachutist Badge"));
}

#[test]
fn test_extract_paste_fields_missing_award_line() {
    let sample = "ROBLOX Username: torba_f\nProof: [image attachment]";
    let extracted = extract_paste_fields(sample);
    assert_eq!(extracted.username.as_deref(), Some("torba_f"));
    assert_eq!(extracted.award_text, None);
}

#[test]
fn test_extract_paste_fields_first_of_two_stacked_username_lines_wins() {
    let sample = "ROBLOX Username: first_user\nBadge Requested: Some Badge\nROBLOX Username: second_user";
    let extracted = extract_paste_fields(sample);
    assert_eq!(extracted.username.as_deref(), Some("first_user"));
}

#[test]
fn test_extract_paste_fields_completely_unparseable() {
    let extracted = extract_paste_fields("just some unrelated text\nwith no labeled lines at all");
    assert_eq!(extracted, ExtractedRequest::default());
}

#[test]
fn test_extract_paste_fields_cr_only_line_endings() {
    let badge_sample = "ROBLOX Username: torba_f\rROBLOX ID: 2452545815\rCurrent Division & Rank: 1ID, Colonel\rBadge Requested: Army Parachutist Badge\rProof: [image attachment]";
    let extracted = extract_paste_fields(badge_sample);
    assert_eq!(extracted.username.as_deref(), Some("torba_f"));
    assert_eq!(extracted.award_text.as_deref(), Some("Army Parachutist Badge"));
}

#[test]
fn test_extract_paste_fields_mixed_crlf_and_lone_cr() {
    let sample = "ROBLOX Username: torba_f\r\nBadge Requested: Army Parachutist Badge\rProof: [image attachment]";
    let extracted = extract_paste_fields(sample);
    assert_eq!(extracted.username.as_deref(), Some("torba_f"));
    assert_eq!(extracted.award_text.as_deref(), Some("Army Parachutist Badge"));
}

#[test]
fn test_split_award_suffix() {
    assert_eq!(
        split_award_suffix("Afghanistan Campaign x1"),
        ("Afghanistan Campaign".to_string(), "x1".to_string())
    );
    assert_eq!(
        split_award_suffix("Army Parachutist Badge"),
        ("Army Parachutist Badge".to_string(), String::new())
    );
    assert_eq!(
        split_award_suffix("Something x"),
        ("Something x".to_string(), String::new()),
        "a trailing 'x' not followed by digits must not be treated as a suffix"
    );
}

#[test]
fn test_match_catalog_entries() {
    let catalog = vec![
        AwardDef {
            category: "badges".into(),
            sheet: "Badges Database".into(),
            col: "C".into(),
            base_name: "Army Parachutist Badge".into(),
        },
        AwardDef {
            category: "badges".into(),
            sheet: "Badges Database".into(),
            col: "D".into(),
            base_name: "Army Air Assault Badge".into(),
        },
        AwardDef {
            category: "ribbons".into(),
            sheet: "Ribbons Database".into(),
            col: "E".into(),
            base_name: "Afghanistan Campaign".into(),
        },
    ];

    let exact = match_catalog_entries(&catalog, "parachutist");
    assert_eq!(exact.len(), 1);
    assert_eq!(exact[0].base_name, "Army Parachutist Badge");

    let none = match_catalog_entries(&catalog, "not a real award");
    assert!(none.is_empty());

    let many = match_catalog_entries(&catalog, "army");
    assert_eq!(many.len(), 2);
}
