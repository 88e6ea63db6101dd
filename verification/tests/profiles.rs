use owners_ledger::domain::profiles::{
    get_keyholder_profile, get_submissive_profile, update_keyholder_notes,
    update_keyholder_profile, update_submissive_profile, KeyholderProfileEdit,
    SubmissiveProfileEdit,
};
use owners_ledger::domain::users::{create_keyholder, create_submissive, NewAccount};
use owners_ledger::error::DbError;
use owners_ledger::ledger::Ledger;

const NOW: i64 = 1_700_000_000;

fn seed_keyholder(db: &mut Ledger) -> String {
    let new = NewAccount { email: "kh@example.test", password_hash: "hash", display_name: "KH" };
    create_keyholder(db, new, NOW).unwrap()
}

fn seed_submissive(db: &mut Ledger) -> String {
    let new = NewAccount { email: "sub@example.test", password_hash: "hash", display_name: "Sub" };
    create_submissive(db, new, NOW).unwrap()
}

#[test]
fn a_fresh_keyholder_profile_is_empty_but_gettable() {
    let mut db = Ledger::new();
    let id = seed_keyholder(&mut db);

    let profile = get_keyholder_profile(&db, &id).unwrap();
    assert!(profile.bio.is_none());
}

#[test]
fn update_keyholder_profile_only_touches_provided_fields() {
    let mut db = Ledger::new();
    let id = seed_keyholder(&mut db);

    update_keyholder_profile(
        &mut db,
        &id,
        KeyholderProfileEdit {
            bio: Some(Some("A strict but fair keyholder.")),
            timezone: Some(Some("America/New_York")),
            ..Default::default()
        },
    )
    .unwrap();

    update_keyholder_profile(
        &mut db,
        &id,
        KeyholderProfileEdit {
            contact_info: Some(Some("signal: kh123")),
            ..Default::default()
        },
    )
    .unwrap();

    let profile = get_keyholder_profile(&db, &id).unwrap();
    assert_eq!(profile.bio.as_deref(), Some("A strict but fair keyholder."));
    assert_eq!(profile.timezone.as_deref(), Some("America/New_York"));
    assert_eq!(profile.contact_info.as_deref(), Some("signal: kh123"));
}

#[test]
fn update_keyholder_profile_can_explicitly_clear_a_field() {
    let mut db = Ledger::new();
    let id = seed_keyholder(&mut db);
    update_keyholder_profile(
        &mut db,
        &id,
        KeyholderProfileEdit { bio: Some(Some("temporary")), ..Default::default() },
    )
    .unwrap();

    update_keyholder_profile(
        &mut db,
        &id,
        KeyholderProfileEdit { bio: Some(None), ..Default::default() },
    )
    .unwrap();

    assert!(get_keyholder_profile(&db, &id).unwrap().bio.is_none());
}

#[test]
fn submissive_profile_edit_never_touches_keyholder_notes() {
    let mut db = Ledger::new();
    let id = seed_submissive(&mut db);
    update_keyholder_notes(&mut db, &id, Some("keeps missing verification windows"));

    update_submissive_profile(
        &mut db,
        &id,
        SubmissiveProfileEdit {
            bio: Some(Some("here to behave")),
            safeword: Some(Some("banana")),
            ..Default::default()
        },
    )
    .unwrap();

    let profile = get_submissive_profile(&db, &id).unwrap();
    assert_eq!(profile.bio.as_deref(), Some("here to behave"));
    assert_eq!(profile.safeword.as_deref(), Some("banana"));
    assert_eq!(profile.keyholder_notes.as_deref(), Some("keeps missing verification windows"));
}

#[test]
fn update_keyholder_notes_only_touches_that_field() {
    let mut db = Ledger::new();
    let id = seed_submissive(&mut db);
    update_submissive_profile(
        &mut db,
        &id,
        SubmissiveProfileEdit { bio: Some(Some("here to behave")), ..Default::default() },
    )
    .unwrap();

    update_keyholder_notes(&mut db, &id, Some("doing well lately"));

    let profile = get_submissive_profile(&db, &id).unwrap();
    assert_eq!(profile.bio.as_deref(), Some("here to behave"));
    assert_eq!(profile.keyholder_notes.as_deref(), Some("doing well lately"));
}

#[test]
fn a_profile_that_is_not_there_is_no_row() {
    let mut db = Ledger::new();
    assert_eq!(get_keyholder_profile(&db, "nobody"), Err(DbError::NoRows));
    assert_eq!(get_submissive_profile(&db, "nobody"), Err(DbError::NoRows));
    let edit = KeyholderProfileEdit { bio: Some(Some("x")), ..Default::default() };
    assert_eq!(update_keyholder_profile(&mut db, "nobody", edit), Err(DbError::NoRows));
    let edit = SubmissiveProfileEdit { bio: Some(Some("x")), ..Default::default() };
    assert_eq!(update_submissive_profile(&mut db, "nobody", edit), Err(DbError::NoRows));
}

#[test]
fn an_empty_edit_changes_nothing() {
    let mut db = Ledger::new();
    let id = seed_submissive(&mut db);
    update_keyholder_notes(&mut db, &id, Some("note"));
    let before = get_submissive_profile(&db, &id).unwrap();

    update_submissive_profile(&mut db, &id, SubmissiveProfileEdit::default()).unwrap();

    assert_eq!(get_submissive_profile(&db, &id).unwrap(), before);
    update_keyholder_notes(&mut db, &id, None);
    assert_eq!(get_submissive_profile(&db, &id).unwrap().keyholder_notes, None);
}
