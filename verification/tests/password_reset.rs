use owners_ledger::domain::password_reset::{issue, redeem, RedeemError, RequestedVia};
use owners_ledger::domain::users::{create_keyholder, LoginSession, NewAccount};
use owners_ledger::error::DbError;
use owners_ledger::ledger::Ledger;

const NOW: i64 = 1_700_000_000;

fn seed_user(db: &mut Ledger) -> String {
    let new = NewAccount {
        email: "kh@example.test",
        password_hash: "old-hash",
        display_name: "KH",
    };
    create_keyholder(db, new, NOW).unwrap()
}

#[test]
fn issue_then_redeem_sets_the_new_password_hash() {
    let mut db = Ledger::new();
    let user_id = seed_user(&mut db);

    issue(&mut db, &user_id, RequestedVia::AdminCli, "token", "token-hash", NOW).unwrap();
    let redeemed_user_id = redeem(&mut db, "token-hash", "new-hash", NOW).unwrap();
    assert_eq!(redeemed_user_id, user_id);
    assert_eq!(db.users[0].password_hash, "new-hash");
}

#[test]
fn password_reset_redeeming_twice_fails_the_second_time() {
    let mut db = Ledger::new();
    let user_id = seed_user(&mut db);
    issue(&mut db, &user_id, RequestedVia::SelfService, "token", "token-hash", NOW).unwrap();

    redeem(&mut db, "token-hash", "new-hash", NOW).unwrap();
    let second = redeem(&mut db, "token-hash", "another-hash", NOW);
    assert!(matches!(second, Err(RedeemError::InvalidOrExpired)));
}

#[test]
fn expired_token_cannot_be_redeemed() {
    let mut db = Ledger::new();
    let user_id = seed_user(&mut db);
    issue(&mut db, &user_id, RequestedVia::AdminCli, "token", "token-hash", NOW).unwrap();
    db.reset_tokens[0].expires_at = 0;

    let result = redeem(&mut db, "token-hash", "new-hash", NOW);
    assert!(matches!(result, Err(RedeemError::InvalidOrExpired)));
}

#[test]
fn redeeming_revokes_every_existing_session() {
    let mut db = Ledger::new();
    let user_id = seed_user(&mut db);
    db.sessions.push(LoginSession { id: "s1".into(), user_id: user_id.clone() });
    db.sessions.push(LoginSession { id: "s2".into(), user_id: "another".into() });
    db.sessions.push(LoginSession { id: "s3".into(), user_id: user_id.clone() });
    issue(&mut db, &user_id, RequestedVia::AdminCli, "token", "token-hash", NOW).unwrap();

    redeem(&mut db, "token-hash", "new-hash", NOW).unwrap();

    let left: Vec<&str> = db.sessions.iter().map(|s| s.id.as_str()).collect();
    assert_eq!(left, vec!["s2"]);
}

#[test]
fn a_token_lasts_a_day() {
    let mut db = Ledger::new();
    let user_id = seed_user(&mut db);
    let issued =
        issue(&mut db, &user_id, RequestedVia::SelfService, "token", "hash", NOW).unwrap();
    assert_eq!(issued.token, "token");
    assert_eq!(issued.expires_at, NOW + 86_400);
    assert_eq!(db.reset_tokens[0].requested_via, RequestedVia::SelfService.as_str());
    assert_eq!(RequestedVia::AdminCli.as_str(), "admin_cli");

    let late = redeem(&mut db, "hash", "new-hash", NOW + 86_400);
    assert_eq!(late, Err(RedeemError::InvalidOrExpired));
    assert_eq!(redeem(&mut db, "wrong", "x", NOW), Err(RedeemError::InvalidOrExpired));
    assert_eq!(db.users[0].password_hash, "old-hash");
    redeem(&mut db, "hash", "new-hash", NOW + 86_399).unwrap();
    let never = issue(&mut db, &user_id, RequestedVia::AdminCli, "t", "h", i64::MAX);
    assert_eq!(never, Err(DbError::OutOfRange));
}
