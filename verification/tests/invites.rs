use owners_ledger::domain::invites::{
    create, list_for_keyholder, redeem, revoke, Redeem, RedeemError,
};
use owners_ledger::domain::links::active_link_for_submissive;
use owners_ledger::domain::users::{create_keyholder, NewAccount};
use owners_ledger::error::DbError;
use owners_ledger::ledger::Ledger;

const NOW: i64 = 1_700_000_000;

fn seed_keyholder(db: &mut Ledger, email: &str) -> String {
    let new = NewAccount { email, password_hash: "hash", display_name: "KH" };
    create_keyholder(db, new, NOW).unwrap()
}

fn with<'a>(token_hash: &'a str, email: &'a str, display_name: &'a str) -> Redeem<'a> {
    Redeem { token_hash, email, password_hash: "hash", display_name }
}

#[test]
fn create_then_redeem_creates_account_and_active_link() {
    let mut db = Ledger::new();
    let keyholder_id = seed_keyholder(&mut db, "kh@example.test");

    create(&mut db, &keyholder_id, None, "token", "token-hash", NOW).unwrap();

    let redeemed =
        redeem(&mut db, with("token-hash", "new-sub@example.test", "New Sub"), NOW).unwrap();

    let link = db.links.iter().find(|l| l.id == redeemed.link_id).unwrap();
    assert_eq!(link.status, "active");
}

#[test]
fn mod_redeeming_twice_fails_the_second_time() {
    let mut db = Ledger::new();
    let keyholder_id = seed_keyholder(&mut db, "kh@example.test");
    create(&mut db, &keyholder_id, None, "token", "token-hash", NOW).unwrap();

    redeem(&mut db, with("token-hash", "first@example.test", "First"), NOW).unwrap();

    let second = redeem(&mut db, with("token-hash", "second@example.test", "Second"), NOW);
    assert!(matches!(second, Err(RedeemError::InvalidOrExpired)));
}

#[test]
fn expired_invite_cannot_be_redeemed() {
    let mut db = Ledger::new();
    let keyholder_id = seed_keyholder(&mut db, "kh@example.test");
    create(&mut db, &keyholder_id, Some(1), "token", "token-hash", NOW).unwrap();
    db.invites[0].expires_at = 0;

    let result = redeem(&mut db, with("token-hash", "toolate@example.test", "Too Late"), NOW);
    assert!(matches!(result, Err(RedeemError::InvalidOrExpired)));
}

#[test]
fn revoke_only_deletes_the_owning_keyholders_unused_invite() {
    let mut db = Ledger::new();
    let keyholder_id = seed_keyholder(&mut db, "kh@example.test");
    let other_keyholder_id = seed_keyholder(&mut db, "other@example.test");
    let invite = create(&mut db, &keyholder_id, None, "token", "token-hash", NOW).unwrap();

    assert!(!revoke(&mut db, &invite.id, &other_keyholder_id));
    assert!(revoke(&mut db, &invite.id, &keyholder_id));
    assert!(list_for_keyholder(&db, &keyholder_id).is_empty());
}

#[test]
fn list_for_keyholder_only_returns_own_invites() {
    let mut db = Ledger::new();
    let keyholder_id = seed_keyholder(&mut db, "kh@example.test");
    let other_keyholder_id = seed_keyholder(&mut db, "other@example.test");
    create(&mut db, &keyholder_id, None, "token-1", "hash-1", NOW).unwrap();
    create(&mut db, &other_keyholder_id, None, "token-2", "hash-2", NOW).unwrap();

    let mine = list_for_keyholder(&db, &keyholder_id);
    assert_eq!(mine.len(), 1);
}

#[test]
fn an_invite_lasts_two_days_unless_said_otherwise() {
    let mut db = Ledger::new();
    let usual = create(&mut db, "kh", None, "t", "h", NOW).unwrap();
    let short = create(&mut db, "kh", Some(1), "t2", "h2", NOW).unwrap();
    assert_eq!(usual.expires_at, NOW + 48 * 3600);
    assert_eq!(usual.token, "t");
    assert_eq!(short.expires_at, NOW + 3600);
    let refused = create(&mut db, "kh", Some(i64::MAX), "t3", "h3", NOW);
    assert_eq!(refused, Err(DbError::OutOfRange));
    let listed = list_for_keyholder(&db, "kh");
    assert_eq!(listed[0].id, usual.id);
    assert_eq!(listed[1].id, short.id);
}

#[test]
fn a_taken_address_leaves_the_invite_unused() {
    let mut db = Ledger::new();
    let keyholder_id = seed_keyholder(&mut db, "kh@example.test");
    create(&mut db, &keyholder_id, None, "token", "token-hash", NOW).unwrap();

    let result = redeem(&mut db, with("token-hash", "kh@example.test", "Copy"), NOW);
    assert_eq!(result, Err(RedeemError::EmailInUse));
    assert!(db.links.is_empty());
    assert_eq!(list_for_keyholder(&db, &keyholder_id)[0].used_at, None);

    redeem(&mut db, with("token-hash", "sub@example.test", "Sub"), NOW).unwrap();
}

#[test]
fn redeeming_links_the_new_account_to_the_issuer_and_is_logged() {
    let mut db = Ledger::new();
    let keyholder_id = seed_keyholder(&mut db, "kh@example.test");
    let invite = create(&mut db, &keyholder_id, None, "token", "token-hash", NOW).unwrap();
    let redeemed = redeem(&mut db, with("token-hash", "sub@example.test", "Sub"), NOW + 7).unwrap();

    assert_eq!(active_link_for_submissive(&db, &redeemed.user_id), Some(redeemed.link_id.clone()));
    assert_eq!(db.links[0].keyholder_id, keyholder_id);
    let listed = list_for_keyholder(&db, &keyholder_id);
    assert_eq!(listed[0].used_at, Some(NOW + 7));
    assert_eq!(listed[0].used_by_user_id, Some(redeemed.user_id.clone()));
    assert_eq!(db.audit_log[0].action, "invite.redeemed");
    assert_eq!(db.audit_log[0].entity_id, invite.id);
    assert!(!revoke(&mut db, &invite.id, &keyholder_id));
}
