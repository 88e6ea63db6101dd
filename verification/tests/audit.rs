use owners_ledger::domain::audit::{list_for_keyholder, record, tag_detail, Actor, Entry};
use owners_ledger::domain::links;
use owners_ledger::domain::toys;
use owners_ledger::domain::users::{create_keyholder, create_submissive, NewAccount};
use owners_ledger::error::DbError;
use owners_ledger::ledger::Ledger;

const NOW: i64 = 1_700_000_000;

fn entry<'a>(
    actor: Actor<'a>,
    action: &'a str,
    entity_type: &'a str,
    entity_id: &'a str,
) -> Entry<'a> {
    Entry { actor, link_id: None, action, entity_type, entity_id, detail: None }
}

fn member(text: &str, key: &str) -> serde_json::Value {
    let value: serde_json::Value = serde_json::from_str(text).unwrap();
    value.get(key).cloned().unwrap_or(serde_json::Value::Null)
}

fn account<'a>(email: &'a str, display_name: &'a str) -> NewAccount<'a> {
    NewAccount { email, password_hash: "hash", display_name }
}

fn seed_link(db: &mut Ledger) -> (String, String, String) {
    let kh = create_keyholder(db, account("kh@example.test", "KH"), NOW).unwrap();
    let sub = create_submissive(db, account("sub@example.test", "Sub"), NOW).unwrap();
    let link_id = links::create(db, &kh, &sub, NOW).unwrap();
    (kh, sub, link_id)
}

#[test]
fn user_actor_has_no_actor_type_tag() {
    let mut db = Ledger::new();
    record(&mut db, entry(Actor::User("u1"), "profile.updated", "users", "u1"), NOW).unwrap();

    assert_eq!(db.audit_log[0].actor_user_id.as_deref(), Some("u1"));
    assert!(db.audit_log[0].detail.is_none());
}

#[test]
fn system_actor_tags_detail_with_actor_type() {
    let mut db = Ledger::new();
    let line = entry(Actor::System, "assignment.auto_failed", "assignments", "a1");
    record(&mut db, line, NOW).unwrap();

    assert!(db.audit_log[0].actor_user_id.is_none());
    let detail = db.audit_log[0].detail.as_deref().unwrap();
    assert_eq!(member(detail, "actor_type"), "system");
}

#[test]
fn admin_cli_actor_tags_detail_and_preserves_existing_fields() {
    let mut db = Ledger::new();
    let line = Entry {
        detail: Some(r#"{"reason":"lost 2fa device"}"#),
        ..entry(Actor::AdminCli, "user.password_reset_forced", "users", "u2")
    };
    record(&mut db, line, NOW).unwrap();

    let detail = db.audit_log[0].detail.as_deref().unwrap();
    assert_eq!(member(detail, "actor_type"), "admin_cli");
    assert_eq!(member(detail, "reason"), "lost 2fa device");
}

#[test]
fn list_for_keyholder_includes_link_scoped_rows() {
    let mut db = Ledger::new();
    let (kh, sub, link_id) = seed_link(&mut db);

    let line = Entry {
        link_id: Some(&link_id),
        ..entry(Actor::User(&sub), "invite.redeemed", "invites", "i1")
    };
    record(&mut db, line, NOW).unwrap();

    let rows = list_for_keyholder(&db, &kh);
    assert_eq!(rows.len(), 1);
    assert_eq!(rows[0].action, "invite.redeemed");
    assert_eq!(rows[0].submissive_id.as_deref(), Some(sub.as_str()));
    assert_eq!(rows[0].submissive_display_name.as_deref(), Some("Sub"));
    assert_eq!(rows[0].actor_display_name.as_deref(), Some("Sub"));

    // Another Keyholder never sees this line.
    let other_kh = create_keyholder(&mut db, account("kh2@example.test", "KH2"), NOW).unwrap();
    assert!(list_for_keyholder(&db, &other_kh).is_empty());
}

#[test]
fn list_for_keyholder_resolves_toy_actions_with_no_link_id_via_the_toy_row() {
    let mut db = Ledger::new();
    let (kh, sub, _link_id) = seed_link(&mut db);
    let toy_id = toys::create(
        &mut db,
        toys::NewToy {
            submissive_id: &sub,
            added_by_user_id: &sub,
            name: "steel cage",
            category: None,
            material: None,
            brand: None,
            size_notes: None,
            color: None,
            compatible_device_id: None,
            storage_location: None,
            care_instructions: None,
            usage_notes: None,
            tags: None,
            photo_attachment_path: None,
            acquired_at: None,
        },
    );

    record(&mut db, entry(Actor::User(&kh), "toy.retired", "toys", &toy_id), NOW).unwrap();

    let rows = list_for_keyholder(&db, &kh);
    assert_eq!(rows.len(), 1);
    assert_eq!(rows[0].submissive_id.as_deref(), Some(sub.as_str()));
    assert_eq!(rows[0].actor_display_name.as_deref(), Some("KH"));
}

#[test]
fn list_for_keyholder_includes_admin_cli_rows_about_their_own_account() {
    let mut db = Ledger::new();
    let (kh, _sub, _link_id) = seed_link(&mut db);

    let line = entry(
        Actor::AdminCli,
        "user.password_reset_issued_via_admin_cli",
        "users",
        &kh,
    );
    record(&mut db, line, NOW).unwrap();

    let rows = list_for_keyholder(&db, &kh);
    assert_eq!(rows.len(), 1);
    assert!(rows[0].actor_user_id.is_none());
    assert!(rows[0].submissive_id.is_none());
}

#[test]
fn the_log_is_listed_newest_first() {
    let mut db = Ledger::new();
    for (action, at) in [("first", NOW), ("third", NOW + 2), ("second", NOW + 1)] {
        record(&mut db, entry(Actor::User("kh"), action, "users", "kh"), at).unwrap();
    }
    let actions: Vec<String> =
        list_for_keyholder(&db, "kh").into_iter().map(|r| r.action).collect();
    assert_eq!(actions, vec!["third", "second", "first"]);
    assert_eq!(db.audit_log[0].id.len(), 36);
}

#[test]
fn a_detail_is_tagged_whatever_it_is() {
    assert_eq!(tag_detail(None, None), Ok(None));
    assert_eq!(tag_detail(Some(r#"{"a":1}"#), None), Ok(Some(r#"{"a":1}"#.to_string())));
    let tagged = tag_detail(None, Some("system")).unwrap().unwrap();
    assert_eq!(tagged, r#"{"actor_type":"system"}"#);
    let tagged = tag_detail(Some(r#"{"a":[1,"x"]}"#), Some("system")).unwrap().unwrap();
    assert_eq!(member(&tagged, "a").to_string(), r#"[1,"x"]"#);
    assert_eq!(member(&tagged, "actor_type"), "system");
    // What is no object is kept beside the tag.
    let tagged = tag_detail(Some("[1,2]"), Some("system")).unwrap().unwrap();
    assert_eq!(member(&tagged, "actor_type"), "system");
    assert_eq!(member(&tagged, "value").to_string(), "[1,2]");
    assert_eq!(tag_detail(Some("not json"), Some("system")), Err(DbError::InvalidQuery));
}
