use base64::Engine;
use owners_ledger::domain::push::{
    delete, get_or_create_vapid_keys, get_or_create_vapid_keys_from, list_active_for_user,
    list_for_user, register, remove_by_endpoint, touch_last_seen,
};
use owners_ledger::ledger::Ledger;

const NOW: i64 = 1_700_000_000;

#[test]
fn vapid_keys_are_generated_once_and_stable() {
    let mut db = Ledger::new();

    let first = get_or_create_vapid_keys(&mut db);
    let second = get_or_create_vapid_keys(&mut db);
    assert_eq!(first.private_key_b64, second.private_key_b64);
    assert_eq!(first.public_key_b64, second.public_key_b64);
    assert!(!first.public_key_b64.is_empty());
}

#[test]
fn registering_the_same_endpoint_twice_updates_instead_of_duplicating() {
    let mut db = Ledger::new();
    let endpoint = "https://push.example/ep1";

    let id1 = register(&mut db, "user", endpoint, "p256dh", "auth", None, NOW);
    let id2 =
        register(&mut db, "user", endpoint, "p256dh-new", "auth-new", Some("Chrome"), NOW + 1);

    assert_eq!(id1, id2);
    let subs = list_for_user(&db, "user");
    assert_eq!(subs.len(), 1);
    assert_eq!(subs[0].p256dh_key, "p256dh-new");
}

#[test]
fn delete_is_scoped_to_the_owning_user() {
    let mut db = Ledger::new();

    let id = register(&mut db, "user", "https://push.example/ep2", "p256dh", "auth", None, NOW);

    assert!(!delete(&mut db, &id, "other"));
    assert!(delete(&mut db, &id, "user"));
    assert_eq!(list_for_user(&db, "user").len(), 0);
}

#[test]
fn remove_by_endpoint_cleans_up_a_dead_subscription() {
    let mut db = Ledger::new();
    register(&mut db, "user", "https://push.example/ep3", "p256dh", "auth", None, NOW);

    remove_by_endpoint(&mut db, "https://push.example/ep3");
    assert_eq!(list_for_user(&db, "user").len(), 0);
}

#[test]
fn keys_are_kept_in_url_safe_base64() {
    let mut db = Ledger::new();
    let keys = get_or_create_vapid_keys_from(&mut db, &[251, 255, 191], &[1, 2]);
    assert_eq!(keys.private_key_b64, "-_-_");
    assert_eq!(keys.public_key_b64, "AQI");
    assert_eq!(get_or_create_vapid_keys_from(&mut db, &[9], &[9]), keys);
}

#[test]
fn generated_keys_have_the_lengths_of_their_curve() {
    let mut db = Ledger::new();
    let keys = get_or_create_vapid_keys(&mut db);
    let engine = base64::engine::general_purpose::URL_SAFE_NO_PAD;
    assert_eq!(engine.decode(keys.private_key_b64).unwrap().len(), 32);
    let public_key = engine.decode(keys.public_key_b64).unwrap();
    assert_eq!(public_key.len(), 65);
    assert_eq!(public_key[0], 4);
}

#[test]
fn a_disabled_subscription_is_not_listed() {
    let mut db = Ledger::new();
    let id = register(&mut db, "user", "ep", "p", "a", None, NOW);
    db.subscriptions[0].disabled_at = Some(NOW);
    assert!(list_for_user(&db, "user").is_empty());
    assert!(list_active_for_user(&db, "user").is_empty());

    // Registering again takes it back into use.
    assert_eq!(register(&mut db, "user", "ep", "p", "a", None, NOW), id);
    assert_eq!(list_active_for_user(&db, "user").len(), 1);

    touch_last_seen(&mut db, &id, NOW + 3);
    assert_eq!(list_for_user(&db, "user")[0].last_seen_at, Some(NOW + 3));
}

#[test]
fn the_public_key_belongs_to_the_private_key() {
    let mut db = Ledger::new();
    let keys = get_or_create_vapid_keys(&mut db);
    let engine = base64::engine::general_purpose::URL_SAFE_NO_PAD;
    let private_key = engine.decode(&keys.private_key_b64).unwrap();
    let pair = jwt_simple::algorithms::ES256KeyPair::from_bytes(&private_key).unwrap();
    let public_key = pair.public_key();
    let point = jwt_simple::algorithms::ECDSAP256PublicKeyLike::public_key(&public_key);
    assert_eq!(engine.decode(&keys.public_key_b64).unwrap(), point.to_bytes_uncompressed());
    assert_eq!(keys.private_key_b64.len(), 43);
    assert_eq!(keys.public_key_b64.len(), 87);
}

#[test]
fn six_bits_make_a_character() {
    for (bytes, text) in [
        (&b""[..], ""),
        (&b"f"[..], "Zg"),
        (&b"fo"[..], "Zm8"),
        (&b"foo"[..], "Zm9v"),
        (&b"foobar"[..], "Zm9vYmFy"),
        (&[0, 16, 131, 16, 81, 135][..], "ABCDEFGH"),
    ] {
        let mut db = Ledger::new();
        assert_eq!(get_or_create_vapid_keys_from(&mut db, bytes, &[]).private_key_b64, text);
    }
}
