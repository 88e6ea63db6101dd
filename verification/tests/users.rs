use owners_ledger::domain::users::{
    create_keyholder, create_submissive, find_by_email, is_locked, record_failed_login,
    record_successful_login, unlock, CreateUserError, NewAccount, LOCKOUT_DURATION_SECS,
    LOCKOUT_THRESHOLD,
};
use owners_ledger::ledger::Ledger;

const NOW: i64 = 1_700_000_000;

fn account<'a>(email: &'a str, display_name: &'a str) -> NewAccount<'a> {
    NewAccount { email, password_hash: "hash", display_name }
}

#[test]
fn create_keyholder_also_creates_an_empty_profile_row() {
    let mut db = Ledger::new();
    let id = create_keyholder(&mut db, account("kh@example.test", "KH"), NOW).unwrap();

    let profile_exists = db.keyholder_profiles.iter().any(|p| p.user_id == id);
    assert!(profile_exists);
}

#[test]
fn duplicate_email_is_rejected_cleanly() {
    let mut db = Ledger::new();
    create_keyholder(&mut db, account("dup@example.test", "First"), NOW).unwrap();

    let result = create_keyholder(&mut db, account("dup@example.test", "Second"), NOW);
    assert!(matches!(result, Err(CreateUserError::EmailInUse)));
}

#[test]
fn find_by_email_returns_none_for_unknown_address() {
    let db = Ledger::new();
    assert!(find_by_email(&db, "nobody@example.test").is_none());
}

#[test]
fn account_locks_after_threshold_failed_logins() {
    let mut db = Ledger::new();
    let id = create_keyholder(&mut db, account("lockout@example.test", "KH"), NOW).unwrap();

    for _ in 0..LOCKOUT_THRESHOLD {
        record_failed_login(&mut db, &id, NOW).unwrap();
    }

    let account = find_by_email(&db, "lockout@example.test").unwrap();
    assert!(is_locked(&account, NOW));
}

#[test]
fn successful_login_clears_the_counter() {
    let mut db = Ledger::new();
    let id = create_keyholder(&mut db, account("clears@example.test", "KH"), NOW).unwrap();

    record_failed_login(&mut db, &id, NOW).unwrap();
    record_successful_login(&mut db, &id);

    let account = find_by_email(&db, "clears@example.test").unwrap();
    assert_eq!(account.failed_login_count, 0);
    assert!(account.locked_until.is_none());
}

#[test]
fn one_failure_short_of_the_threshold_does_not_lock() {
    let mut db = Ledger::new();
    let id = create_keyholder(&mut db, account("almost@example.test", "KH"), NOW).unwrap();

    for _ in 0..LOCKOUT_THRESHOLD - 1 {
        record_failed_login(&mut db, &id, NOW).unwrap();
    }

    let account = find_by_email(&db, "almost@example.test").unwrap();
    assert_eq!(account.failed_login_count, 9);
    assert_eq!(account.locked_until, None);
    assert!(!is_locked(&account, NOW));
}

#[test]
fn a_lock_ends_after_its_duration() {
    let mut db = Ledger::new();
    let id = create_keyholder(&mut db, account("wait@example.test", "KH"), NOW).unwrap();
    for _ in 0..LOCKOUT_THRESHOLD {
        record_failed_login(&mut db, &id, NOW).unwrap();
    }

    let account = find_by_email(&db, "wait@example.test").unwrap();
    assert_eq!(account.locked_until, Some(NOW + 900));
    assert!(is_locked(&account, NOW + LOCKOUT_DURATION_SECS - 1));
    assert!(!is_locked(&account, NOW + LOCKOUT_DURATION_SECS));
}

#[test]
fn unlocking_lifts_a_lock_at_once() {
    let mut db = Ledger::new();
    let id = create_submissive(&mut db, account("locked@example.test", "Sub"), NOW).unwrap();
    for _ in 0..LOCKOUT_THRESHOLD {
        record_failed_login(&mut db, &id, NOW).unwrap();
    }

    unlock(&mut db, &id);

    let account = find_by_email(&db, "locked@example.test").unwrap();
    assert!(!is_locked(&account, NOW));
    assert_eq!(account.failed_login_count, 0);
}

#[test]
fn failures_count_against_one_account_only() {
    let mut db = Ledger::new();
    let id = create_keyholder(&mut db, account("a@example.test", "A"), NOW).unwrap();
    create_keyholder(&mut db, account("b@example.test", "B"), NOW).unwrap();

    record_failed_login(&mut db, &id, NOW).unwrap();

    assert_eq!(find_by_email(&db, "a@example.test").unwrap().failed_login_count, 1);
    assert_eq!(find_by_email(&db, "b@example.test").unwrap().failed_login_count, 0);
}

#[test]
fn created_submissive_has_its_role_and_profile() {
    let mut db = Ledger::new();
    let id = create_submissive(&mut db, account("sub@example.test", "Sub"), NOW).unwrap();

    let found = find_by_email(&db, "sub@example.test").unwrap();
    assert_eq!(found.id, id);
    assert_eq!(found.role, "submissive");
    assert_eq!(found.password_hash, "hash");
    assert_eq!(found.display_name, "Sub");
    assert_eq!(db.submissive_profiles[0].user_id, id);
    assert_eq!(id.len(), 36);
}
