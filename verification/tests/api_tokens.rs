use owners_ledger::domain::api_tokens::{
    create, decode_scopes, list_for_keyholder, resolve, revoke, update,
};
use owners_ledger::domain::users::{create_keyholder, NewAccount};
use owners_ledger::error::DbError;
use owners_ledger::ledger::Ledger;

const NOW: i64 = 1_700_000_000;

fn seed_keyholder(db: &mut Ledger, email: &str) -> String {
    let new = NewAccount { email, password_hash: "hash", display_name: "KH" };
    create_keyholder(db, new, NOW).unwrap()
}

#[test]
fn create_then_resolve_round_trips_keyholder_and_scopes() {
    let mut db = Ledger::new();
    let keyholder_id = seed_keyholder(&mut db, "kh@example.test");

    create(
        &mut db,
        &keyholder_id,
        "notifier bot",
        &["read:submissives".to_string()],
        None,
        "secret-token",
        "token-hash",
        NOW,
    )
    .unwrap();

    let resolved = resolve(&mut db, "token-hash", NOW).unwrap().unwrap();
    assert_eq!(resolved.keyholder_id, keyholder_id);
    assert_eq!(resolved.scopes, vec!["read:submissives".to_string()]);
    assert_eq!(resolved.display_name, "KH");
}

#[test]
fn resolve_updates_last_used_at() {
    let mut db = Ledger::new();
    let keyholder_id = seed_keyholder(&mut db, "kh@example.test");
    create(&mut db, &keyholder_id, "bot", &[], None, "secret-token", "token-hash", NOW).unwrap();

    resolve(&mut db, "token-hash", NOW).unwrap();

    let summary = &list_for_keyholder(&db, &keyholder_id)[0];
    assert!(summary.last_used_at.is_some());
}

#[test]
fn a_revoked_token_no_longer_resolves() {
    let mut db = Ledger::new();
    let keyholder_id = seed_keyholder(&mut db, "kh@example.test");
    create(&mut db, &keyholder_id, "bot", &[], None, "secret-token", "token-hash", NOW).unwrap();
    let token_id = list_for_keyholder(&db, &keyholder_id)[0].id.clone();

    assert!(revoke(&mut db, &token_id, &keyholder_id, NOW));
    assert!(resolve(&mut db, "token-hash", NOW).unwrap().is_none());
}

#[test]
fn an_expired_token_no_longer_resolves() {
    let mut db = Ledger::new();
    let keyholder_id = seed_keyholder(&mut db, "kh@example.test");
    create(&mut db, &keyholder_id, "bot", &[], Some(1), "secret-token", "token-hash", NOW)
        .unwrap();
    db.api_tokens[0].expires_at = Some(0);

    assert!(resolve(&mut db, "token-hash", NOW).unwrap().is_none());
}

#[test]
fn update_can_narrow_scopes_and_is_scoped_to_the_owning_keyholder() {
    let mut db = Ledger::new();
    let keyholder_id = seed_keyholder(&mut db, "kh@example.test");
    let other_keyholder_id = seed_keyholder(&mut db, "other@example.test");
    create(
        &mut db,
        &keyholder_id,
        "bot",
        &["read:submissives".to_string(), "manage:invites".to_string()],
        None,
        "secret-token",
        "token-hash",
        NOW,
    )
    .unwrap();
    let token_id = list_for_keyholder(&db, &keyholder_id)[0].id.clone();

    assert!(!update(&mut db, &token_id, &other_keyholder_id, None, Some(&[])));

    assert!(update(
        &mut db,
        &token_id,
        &keyholder_id,
        Some("renamed bot"),
        Some(&["read:submissives".to_string()]),
    ));

    let summary = &list_for_keyholder(&db, &keyholder_id)[0];
    assert_eq!(summary.label, "renamed bot");
    assert_eq!(summary.scopes, vec!["read:submissives".to_string()]);
}

#[test]
fn a_token_with_no_scopes_resolves_but_grants_nothing() {
    let mut db = Ledger::new();
    let keyholder_id = seed_keyholder(&mut db, "kh@example.test");
    create(&mut db, &keyholder_id, "bare bot", &[], None, "secret-token", "token-hash", NOW)
        .unwrap();

    let resolved = resolve(&mut db, "token-hash", NOW).unwrap().unwrap();
    assert!(resolved.scopes.is_empty());
}

#[test]
fn a_token_shows_its_prefix_and_lapses_after_its_days() {
    let mut db = Ledger::new();
    let keyholder_id = seed_keyholder(&mut db, "kh@example.test");
    let created =
        create(&mut db, &keyholder_id, "bot", &[], Some(2), "secret-token", "hash", NOW).unwrap();
    assert_eq!(created.prefix, "secret-t");
    assert_eq!(created.token, "secret-token");
    assert_eq!(created.expires_at, Some(NOW + 2 * 86_400));
    assert_eq!(list_for_keyholder(&db, &keyholder_id)[0].token_prefix, "secret-t");

    assert!(resolve(&mut db, "hash", NOW + 2 * 86_400).unwrap().is_some());
    assert!(resolve(&mut db, "hash", NOW + 2 * 86_400 + 1).unwrap().is_none());
    assert!(resolve(&mut db, "other", NOW).unwrap().is_none());
    let never = create(&mut db, &keyholder_id, "b", &[], Some(i64::MAX), "t-123456", "h", NOW);
    assert_eq!(never, Err(DbError::OutOfRange));
}

#[test]
fn scopes_that_cannot_be_read_grant_nothing() {
    assert!(decode_scopes("not json").is_empty());
    assert!(decode_scopes(r#"["a", 1]"#).is_empty());
    assert_eq!(decode_scopes(r#"["a","\"b\""]"#), vec!["a".to_string(), "\"b\"".to_string()]);
}

#[test]
fn scopes_are_kept_as_a_json_array() {
    let mut db = Ledger::new();
    let scopes = ["a:b".to_string(), "say \"hi\"".to_string()];
    create(&mut db, "kh", "bot", &scopes, None, "12345678", "hash", NOW).unwrap();
    assert_eq!(db.api_tokens[0].scopes, r#"["a:b","say \"hi\""]"#);
}
