use owners_ledger::domain::links::{
    active_link_for_submissive, active_link_ids_for_keyholder,
    active_or_paused_link_for_keyholder, create, force_end, parties, DEFAULT_CODE_TTL_SECS,
};
use owners_ledger::domain::verification::policy::{get_for_link, set_for_link, SetPolicy};
use owners_ledger::error::{is_unique_violation, DbError};
use owners_ledger::ledger::Ledger;

const NOW: i64 = 1_700_000_000;

#[test]
fn creating_a_link_also_creates_its_default_verification_policy() {
    let mut db = Ledger::new();
    let link_id = create(&mut db, "kh", "sub", NOW).unwrap();

    let policy = get_for_link(&db, &link_id).unwrap();
    assert_eq!(policy.frequency_kind, "on_demand_only");
    assert_eq!(policy.code_ttl_seconds, DEFAULT_CODE_TTL_SECS);
}

#[test]
fn a_submissive_cannot_have_two_active_links() {
    let mut db = Ledger::new();
    create(&mut db, "kh1", "sub", NOW).unwrap();
    let second = create(&mut db, "kh2", "sub", NOW);
    assert!(second.is_err());
    assert!(is_unique_violation(&second.unwrap_err()));
    assert_eq!(db.links.len(), 1);
    assert_eq!(db.policies.len(), 1);
}

#[test]
fn force_end_ends_an_active_link_and_is_idempotent_false_after() {
    let mut db = Ledger::new();
    let link_id = create(&mut db, "kh", "sub", NOW).unwrap();

    assert!(force_end(&mut db, &link_id, NOW));
    assert_eq!(db.links[0].status, "ended");

    assert!(!force_end(&mut db, &link_id, NOW));
}

#[test]
fn set_then_get_round_trips() {
    let mut db = Ledger::new();
    let link_id = create(&mut db, "kh", "sub", NOW).unwrap();

    let default_policy = get_for_link(&db, &link_id).unwrap();
    assert_eq!(default_policy.frequency_kind, "on_demand_only");

    set_for_link(
        &mut db,
        &link_id,
        SetPolicy {
            frequency_kind: "interval_hours",
            frequency_value: r#"{"hours":24}"#,
            code_ttl_seconds: 600,
            grace_period_seconds: 300,
        },
        NOW,
    );

    let updated = get_for_link(&db, &link_id).unwrap();
    assert_eq!(updated.frequency_kind, "interval_hours");
    assert_eq!(updated.code_ttl_seconds, 600);
}

#[test]
fn setting_one_policy_leaves_the_others() {
    let mut db = Ledger::new();
    let first = create(&mut db, "kh", "sub-1", NOW).unwrap();
    let second = create(&mut db, "kh", "sub-2", NOW).unwrap();
    let before = get_for_link(&db, &second).unwrap();

    let set = SetPolicy {
        frequency_kind: "interval_hours",
        frequency_value: r#"{"hours":1}"#,
        code_ttl_seconds: 60,
        grace_period_seconds: 0,
    };
    set_for_link(&mut db, &first, set, NOW + 5);

    assert_eq!(get_for_link(&db, &second).unwrap(), before);
    assert_eq!(get_for_link(&db, &first).unwrap().updated_at, NOW + 5);
    assert_eq!(get_for_link(&db, "no-such-link"), None);
}

#[test]
fn a_new_link_can_follow_an_ended_one() {
    let mut db = Ledger::new();
    let first = create(&mut db, "kh1", "sub", NOW).unwrap();
    force_end(&mut db, &first, NOW);
    let second = create(&mut db, "kh2", "sub", NOW + 1).unwrap();

    assert_eq!(active_link_for_submissive(&db, "sub"), Some(second.clone()));
    assert_eq!(active_link_ids_for_keyholder(&db, "kh2"), vec![second.clone()]);
    assert!(active_link_ids_for_keyholder(&db, "kh1").is_empty());
    assert_eq!(parties(&db, &second), Some(("kh2".to_string(), "sub".to_string())));
    assert_eq!(parties(&db, "no-such-link"), None);
}

#[test]
fn a_paused_link_is_still_the_keyholders_to_read() {
    let mut db = Ledger::new();
    let link_id = create(&mut db, "kh", "sub", NOW).unwrap();
    db.links[0].status = "paused".to_string();

    assert_eq!(active_or_paused_link_for_keyholder(&db, "kh", "sub"), Some(link_id.clone()));
    assert_eq!(active_link_for_submissive(&db, "sub"), None);

    assert!(force_end(&mut db, &link_id, NOW));
    assert_eq!(active_or_paused_link_for_keyholder(&db, "kh", "sub"), None);
    assert_eq!(db.links[0].ended_at, Some(NOW));
}

#[test]
fn only_a_conflict_is_a_unique_violation() {
    assert!(is_unique_violation(&DbError::Conflict));
    assert!(!is_unique_violation(&DbError::NoRows));
    assert!(!is_unique_violation(&DbError::OutOfRange));
    assert!(!is_unique_violation(&DbError::InvalidQuery));
}
