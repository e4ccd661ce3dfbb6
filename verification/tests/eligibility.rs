use awards::eligibility::{check_assist, find_grant_target, parse_assist_award, AssistAward, AssistVerdict, GrantPlan};
use awards::types::Award;

fn award(base: &str, name: &str, cell: &str) -> Award {
    Award::new("badges", name).with_cell(cell, base)
}

#[test]
fn parse_master_aliases() {
    assert_eq!(parse_assist_award("MCAB"), Some(AssistAward::MasterCab));
    assert_eq!(parse_assist_award("MCIB"), Some(AssistAward::MasterCib));
    assert_eq!(parse_assist_award("MCMB"), Some(AssistAward::MasterCmb));
    assert_eq!(parse_assist_award("Master CIB"), Some(AssistAward::MasterCib));
    assert_eq!(parse_assist_award("Master Combat Medical Badge"), Some(AssistAward::MasterCmb));
    assert_eq!(parse_assist_award("OSB"), None);
}

#[test]
fn mcab_approve_with_esb_and_cab() {
    let awards = vec![
        award("Expert Soldier Badge", "Expert Soldier Badge", "MaoZhuuDong"),
        award("Combat Action Badge", "Combat Action Badge", "MaoZhuuDong"),
    ];
    let v = check_assist("MaoZhuuDong", &awards, "MCAB");
    match v {
        AssistVerdict::Approve { grant, .. } => match grant {
            GrantPlan::UpgradeCell { base_name, new_cell } => {
                assert_eq!(base_name, "Combat Action Badge");
                assert_eq!(new_cell, "MaoZhuuDong - MC");
            }
        },
        other => panic!("expected Approve, got {other:?}"),
    }
}

#[test]
fn mcab_deny_missing_esb() {
    let awards = vec![award("Combat Action Badge", "Combat Action Badge", "alice")];
    let v = check_assist("alice", &awards, "Master CAB");
    match v {
        AssistVerdict::Deny { reasons, .. } => {
            assert!(reasons.iter().any(|r| r.contains("Expert Soldier")));
        }
        other => panic!("expected Deny, got {other:?}"),
    }
}

#[test]
fn mcab_already_has() {
    let awards = vec![award("Combat Action Badge", "Master Combat Action Badge", "bob - MC")];
    let v = check_assist("bob", &awards, "MCAB");
    assert!(matches!(v, AssistVerdict::AlreadyHas { .. }));
}

#[test]
fn mcib_approve_with_eib_and_cib() {
    let awards = vec![
        award("Expert Infantryman Badge", "Expert Infantryman Badge", "user"),
        award("Combat Infantryman Badge", "Combat Infantryman Badge", "user"),
    ];
    let v = check_assist("user", &awards, "MCIB");
    match v {
        AssistVerdict::Approve { grant, award, .. } => {
            assert_eq!(award, AssistAward::MasterCib);
            match grant {
                GrantPlan::UpgradeCell { base_name, new_cell } => {
                    assert_eq!(base_name, "Combat Infantryman Badge");
                    assert_eq!(new_cell, "user - MC");
                }
            }
        }
        other => panic!("expected Approve, got {other:?}"),
    }
}

#[test]
fn mcmb_deny_missing_cmb() {
    let awards = vec![award("Expert Field Medical Badge", "Expert Field Medical Badge", "doc")];
    let v = check_assist("doc", &awards, "MCMB");
    match v {
        AssistVerdict::Deny { reasons, .. } => {
            assert!(reasons.iter().any(|r| r.contains("Combat Medical")));
        }
        other => panic!("expected Deny, got {other:?}"),
    }
}

#[test]
fn mcmb_approve_with_efmb_and_cmb() {
    let awards = vec![
        award("Expert Field Medical Badge", "Expert Field Medical Badge", "MedicOne"),
        award("Combat Medical Badge", "Combat Medical Badge", "MedicOne"),
    ];
    assert!(check_assist("MedicOne", &awards, "Master CMB").approved());
}

#[test]
fn esb_only_on_cab_column_is_not_grantable_combat() {
    let awards = vec![award("Combat Action Badge", "Expert Soldier Badge", "alice - ESB")];
    let v = check_assist("alice", &awards, "MCAB");
    match v {
        AssistVerdict::Deny { reasons, .. } => {
            assert!(reasons.iter().any(|r| r.contains("Combat Action")));
        }
        other => panic!("expected Deny missing CAB, got {other:?}"),
    }
}

#[test]
fn mcab_substring_does_not_count_as_master() {
    let awards = vec![
        award("Expert Soldier Badge", "Expert Soldier Badge", "bob"),
        award("Combat Action Badge", "Combat Action Badge", "bob - MCAB"),
    ];
    assert!(
        check_assist("bob", &awards, "MCAB").approved(),
        "bob - MCAB should still be grantable, not AlreadyHas"
    );
}

#[test]
fn grant_target_ignores_similar_username_neighbor() {
    let alice_awards = vec![
        award("Expert Soldier Badge", "Expert Soldier Badge", "alice"),
        award("Combat Action Badge", "Combat Action Badge", "alice"),
    ];
    let v = check_assist("alice", &alice_awards, "MCAB");
    let AssistVerdict::Approve { grant, .. } = v else {
        panic!("expected Approve for alice-only awards");
    };
    let mixed = vec![
        award("Combat Action Badge", "Combat Action Badge", "alice"),
        award("Combat Action Badge", "Combat Action Badge", "alicee"),
    ];
    let target = find_grant_target(&mixed, &grant, "alice").expect("alice CAB");
    assert_eq!(target.cell, "alice");
    assert!(find_grant_target(
        &[award("Combat Action Badge", "Combat Action Badge", "alicee")],
        &grant,
        "alice"
    )
    .is_none());
}

#[test]
fn multiple_grantable_combat_rows_denied() {
    let awards = vec![
        award("Expert Soldier Badge", "Expert Soldier Badge", "dup"),
        award("Combat Action Badge", "Combat Action Badge", "dup"),
        award("Combat Action Badge", "Combat Action Badge", "dup x2"),
    ];
    let v = check_assist("dup", &awards, "MCAB");
    assert!(matches!(v, AssistVerdict::Deny { .. }), "expected Deny for duplicate CAB rows, got {v:?}");
}
