use awards::audit::{
    finding_username, flatten_audit_findings, format_audit_report, AuditDuplicateGroup, AuditFinding,
    AuditMalformed, AuditReport, AuditSimilarPair, AuditUnparsed,
};

fn sample_report() -> AuditReport {
    AuditReport {
        cells: 10,
        columns: 3,
        duplicate_groups: vec![AuditDuplicateGroup {
            user: "alice".to_string(),
            sheet: "Badges Database".to_string(),
            col: "C".to_string(),
            base_name: "Test Badge".to_string(),
            kind: "identical".to_string(),
            rows: vec![(5, "alice".to_string()), (6, "alice".to_string()), (7, "alice".to_string())],
        }],
        similar_pairs: vec![AuditSimilarPair {
            a: "bob".to_string(),
            b: "bobb".to_string(),
            sheet: "Ribbons Database".to_string(),
            col: "D".to_string(),
            base_name: "Test Ribbon".to_string(),
        }],
        malformed: vec![AuditMalformed {
            sheet: "Badges Database".to_string(),
            col: "E".to_string(),
            base_name: "Another Badge".to_string(),
            row: 9,
            cell: "carol -Senior".to_string(),
            issues: vec!["missing_space_before_dash".to_string()],
        }],
        unparsed: vec![AuditUnparsed {
            sheet: "Foreign Awards Database".to_string(),
            col: "F".to_string(),
            base_name: "Foreign Device".to_string(),
            row: 12,
            cell: "\"???\"".to_string(),
        }],
    }
}

#[test]
fn format_audit_report_output_is_unchanged_in_shape_and_deterministic() {
    let report = sample_report();
    let body = format_audit_report(&report, "2026-01-01 00:00:00 UTC");

    assert!(
        body.starts_with(
            "Decorations Database — duplicate audit\n\
             Generated: 2026-01-01 00:00:00 UTC\n\
             Mode: read-only (no sheet writes)\n\
             \n\
             SUMMARY\n\
             =======\n\
             Award columns scanned: 3\n\
             Filled cells:          10\n\
             Identical copies:      1 groups\n\
             Conflicting rows:      0 groups\n\
             Similar usernames:     1 pairs (same award column)\n\
             Malformed cells:       1\n\
             Unparseable cells:     1\n"
        ),
        "header/summary block changed:\n{body}"
    );
    assert!(body.ends_with("End of report.\n"), "footer changed:\n{body}");

    let headers = [
        "1. Identical copies",
        "2. Conflicting rows",
        "3. Similar usernames",
        "4. Malformed cells",
        "5. Unparseable cells",
    ];
    let mut last_pos = 0;
    for header in headers {
        let pos = body[last_pos..]
            .find(header)
            .unwrap_or_else(|| panic!("missing section header {header:?} in:\n{body}"))
            + last_pos;
        last_pos = pos + header.len();
    }
    let conflicting_title = "2. Conflicting rows";
    let expected_conflicting_section = format!(
        "{conflicting_title}\n{}\nSame username appears more than once in the same award column with different cell text.\n\n(none)\n",
        "-".repeat(conflicting_title.len())
    );
    assert!(body.contains(&expected_conflicting_section), "empty-section rendering changed:\n{body}");

    assert_eq!(
        body,
        format_audit_report(&report, "2026-01-01 00:00:00 UTC"),
        "format_audit_report must be a pure function of its inputs"
    );
}

#[test]
fn flatten_splits_duplicate_group_rows_into_one_finding_each() {
    let findings = flatten_audit_findings(&sample_report());
    let dup_rows: Vec<_> = findings
        .iter()
        .filter(|f| matches!(f, AuditFinding::DuplicateRow { .. }))
        .collect();
    assert_eq!(dup_rows.len(), 3, "a 3-row duplicate group must yield 3 findings");
}

#[test]
fn flatten_maps_similar_malformed_unparsed_one_to_one() {
    let findings = flatten_audit_findings(&sample_report());
    assert_eq!(findings.iter().filter(|f| matches!(f, AuditFinding::SimilarUsernames { .. })).count(), 1);
    assert_eq!(findings.iter().filter(|f| matches!(f, AuditFinding::MalformedCell { .. })).count(), 1);
    assert_eq!(findings.iter().filter(|f| matches!(f, AuditFinding::UnparseableCell { .. })).count(), 1);
}

#[test]
fn flatten_is_stable_across_calls() {
    let report = sample_report();
    assert_eq!(flatten_audit_findings(&report), flatten_audit_findings(&report));
}

#[test]
fn flatten_empty_report_yields_no_findings() {
    let report = AuditReport {
        cells: 0,
        columns: 0,
        duplicate_groups: vec![],
        similar_pairs: vec![],
        malformed: vec![],
        unparsed: vec![],
    };
    assert!(flatten_audit_findings(&report).is_empty());
}

#[test]
fn finding_username_is_none_only_for_unparseable_cells() {
    let findings = flatten_audit_findings(&sample_report());
    for finding in &findings {
        let expect_none = matches!(finding, AuditFinding::UnparseableCell { .. });
        assert_eq!(finding_username(finding).is_none(), expect_none, "{finding:?}");
    }
}

#[test]
fn duplicate_row_finding_carries_the_group_username() {
    let findings = flatten_audit_findings(&sample_report());
    let dup = findings
        .iter()
        .find(|f| matches!(f, AuditFinding::DuplicateRow { .. }))
        .unwrap();
    assert_eq!(finding_username(dup), Some("alice"));
}

#[test]
fn duplicate_row_maps_to_an_award_with_the_right_location_and_category() {
    let finding = AuditFinding::DuplicateRow {
        user: "alice".to_string(),
        sheet: "Badges Database".to_string(),
        col: "C".to_string(),
        base_name: "Test Badge".to_string(),
        kind: "identical".to_string(),
        row: 10,
        cell: "alice".to_string(),
    };
    let award = finding.to_award().expect("DuplicateRow maps to an Award");
    assert_eq!(award.category, "badges");
    assert_eq!(award.sheet, "Badges Database");
    assert_eq!(award.col, "C");
    assert_eq!(award.row, 10);
    assert_eq!(award.cell, "alice");
    assert_eq!(award.base_name, "Test Badge");
    assert!(award.name.contains("duplicate copy"), "{}", award.name);
}

#[test]
fn duplicate_row_conflict_kind_labels_the_award_differently() {
    let finding = AuditFinding::DuplicateRow {
        user: "alice".to_string(),
        sheet: "Badges Database".to_string(),
        col: "C".to_string(),
        base_name: "Test Badge".to_string(),
        kind: "conflict".to_string(),
        row: 10,
        cell: "alice".to_string(),
    };
    let award = finding.to_award().unwrap();
    assert!(award.name.contains("conflicting rows"), "{}", award.name);
}

#[test]
fn malformed_cell_maps_to_an_award() {
    let finding = AuditFinding::MalformedCell {
        user: "carol".to_string(),
        sheet: "Ribbons Database".to_string(),
        col: "D".to_string(),
        base_name: "Test Ribbon".to_string(),
        row: 12,
        cell: "carol -Senior".to_string(),
        issues: vec!["missing_space_before_dash".to_string()],
    };
    let award = finding.to_award().expect("MalformedCell maps to an Award");
    assert_eq!(award.category, "ribbons");
    assert_eq!(award.row, 12);
    assert_eq!(award.cell, "carol -Senior");
    assert!(award.name.contains("malformed cell"), "{}", award.name);
}

#[test]
fn similar_usernames_and_unparseable_cell_have_no_single_target_row() {
    let similar = AuditFinding::SimilarUsernames {
        a: "bob".to_string(),
        b: "bobb".to_string(),
        sheet: "Badges Database".to_string(),
        col: "C".to_string(),
        base_name: "Test Badge".to_string(),
    };
    assert!(similar.to_award().is_none());

    let unparseable = AuditFinding::UnparseableCell {
        sheet: "Badges Database".to_string(),
        col: "C".to_string(),
        base_name: "Test Badge".to_string(),
        row: 5,
        cell: "\"???\"".to_string(),
    };
    assert!(unparseable.to_award().is_none());
}
