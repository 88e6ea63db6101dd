use owners_ledger::domain::two_factor::{
    confirm, create_challenge, disable, force_disable_for_user, is_enabled,
    regenerate_recovery_codes, setup, status, verify_challenge, verify_code,
    ChallengeVerifyError, ConfirmError, DisableError, NewCode, PendingSetup, RegenerateError,
    SetupError, CHALLENGE_MAX_ATTEMPTS, CHALLENGE_TTL_SECS, ISSUER, RECOVERY_CODE_COUNT,
};
use owners_ledger::error::DbError;
use owners_ledger::ledger::Ledger;

const NOW: i64 = 1_700_000_000;
const USER: &str = "user";
const ACCOUNT: &str = "kh@example.test";

fn code_at(secret_base32: &str, time: i64) -> String {
    totp_rs::Builder::new()
        .with_algorithm(totp_rs::Algorithm::SHA1)
        .with_secret(totp_rs::Secret::try_from_base32(secret_base32).unwrap())
        .with_issuer(Some(ISSUER))
        .with_account_name(ACCOUNT)
        .build()
        .unwrap()
        .generate(time as u64)
        .to_string()
}

fn fresh_codes(prefix: &str) -> [NewCode; RECOVERY_CODE_COUNT] {
    std::array::from_fn(|i| NewCode {
        raw: format!("{prefix}-{i}"),
        hash: format!("hash of {prefix}-{i}"),
    })
}

/// Sets two-factor up and confirms it; hands out the secret and the recovery codes.
fn enabled(db: &mut Ledger) -> (PendingSetup, Vec<String>) {
    let pending = setup(db, USER, ACCOUNT, NOW).unwrap();
    let code = code_at(&pending.secret_base32, NOW);
    let codes = confirm(db, USER, ACCOUNT, &code, &fresh_codes("old"), NOW).unwrap();
    (pending, codes)
}

fn meet(db: &mut Ledger, challenge_id: &str, code: &str) -> Result<String, ChallengeVerifyError> {
    let hash = format!("hash of {code}");
    verify_challenge(db, challenge_id, |_: &str| Ok(ACCOUNT.to_string()), code, &hash, NOW)
}

#[test]
fn setup_then_confirm_with_the_right_code_enables_2fa_and_issues_recovery_codes() {
    let mut db = Ledger::new();

    let pending = setup(&mut db, USER, ACCOUNT, NOW).unwrap();
    assert!(!status(&db, USER).unwrap().enabled);
    assert!(status(&db, USER).unwrap().pending_setup);

    let code = code_at(&pending.secret_base32, NOW);
    let codes = confirm(&mut db, USER, ACCOUNT, &code, &fresh_codes("c"), NOW).unwrap();
    assert_eq!(codes.len(), 10);

    let st = status(&db, USER).unwrap();
    assert!(st.enabled);
    assert!(!st.pending_setup);
    assert_eq!(st.recovery_codes_remaining, 10);
}

#[test]
fn confirm_with_the_wrong_code_does_not_enable_2fa() {
    let mut db = Ledger::new();
    setup(&mut db, USER, ACCOUNT, NOW).unwrap();

    let result = confirm(&mut db, USER, ACCOUNT, "000000", &fresh_codes("c"), NOW);
    assert!(matches!(result, Err(ConfirmError::InvalidCode)));
    assert!(!status(&db, USER).unwrap().enabled);
}

#[test]
fn login_challenge_round_trips_with_a_real_totp_code() {
    let mut db = Ledger::new();
    let (pending, _) = enabled(&mut db);

    let challenge_id = create_challenge(&mut db, USER, NOW).unwrap();
    let login_code = code_at(&pending.secret_base32, NOW);
    let resolved = meet(&mut db, &challenge_id, &login_code).unwrap();
    assert_eq!(resolved, USER);

    // A challenge is met once.
    let second = meet(&mut db, &challenge_id, &login_code);
    assert!(matches!(second, Err(ChallengeVerifyError::ExpiredOrExhausted)));
}

#[test]
fn a_recovery_code_completes_a_challenge_exactly_once() {
    let mut db = Ledger::new();
    let (_, recovery_codes) = enabled(&mut db);
    let recovery_code = recovery_codes[0].clone();

    let challenge_id = create_challenge(&mut db, USER, NOW).unwrap();
    let resolved = meet(&mut db, &challenge_id, &recovery_code).unwrap();
    assert_eq!(resolved, USER);

    let challenge_id_2 = create_challenge(&mut db, USER, NOW).unwrap();
    let second = meet(&mut db, &challenge_id_2, &recovery_code);
    assert!(matches!(second, Err(ChallengeVerifyError::InvalidCode)));
    assert_eq!(status(&db, USER).unwrap().recovery_codes_remaining, 9);
}

#[test]
fn force_disable_clears_credential_and_recovery_codes() {
    let mut db = Ledger::new();
    enabled(&mut db);

    force_disable_for_user(&mut db, USER);
    assert!(!status(&db, USER).unwrap().enabled);
    assert_eq!(status(&db, USER).unwrap().recovery_codes_remaining, 0);
}

#[test]
fn disable_requires_a_valid_code() {
    let mut db = Ledger::new();
    enabled(&mut db);

    let result = disable(&mut db, USER, ACCOUNT, "000000", "hash of 000000", NOW);
    assert!(matches!(result, Err(DisableError::InvalidCode)));
    assert!(status(&db, USER).unwrap().enabled);
}

#[test]
fn regenerating_recovery_codes_invalidates_the_old_set() {
    let mut db = Ledger::new();
    let (pending, old_codes) = enabled(&mut db);

    let fresh_code = code_at(&pending.secret_base32, NOW);
    let new_codes = regenerate_recovery_codes(
        &mut db,
        USER,
        ACCOUNT,
        &fresh_code,
        "hash of the code",
        &fresh_codes("new"),
        NOW,
    )
    .unwrap();
    assert_eq!(new_codes.len(), 10);
    assert_ne!(old_codes[0], new_codes[0]);

    let challenge_id = create_challenge(&mut db, USER, NOW).unwrap();
    let result = meet(&mut db, &challenge_id, &old_codes[0]);
    assert!(matches!(result, Err(ChallengeVerifyError::InvalidCode)));
}

#[test]
fn setup_hands_out_what_an_authenticator_reads() {
    let mut db = Ledger::new();
    let pending = setup(&mut db, USER, ACCOUNT, NOW).unwrap();
    assert_eq!(pending.secret_base32.len(), 32);
    assert!(pending.otpauth_uri.starts_with("otpauth://totp/"));
    assert!(pending.otpauth_uri.contains(&pending.secret_base32));
    // A PNG, in base64.
    assert!(pending.qr_png_base64.starts_with("iVBORw0KGgo"));
    assert_ne!(setup(&mut db, USER, ACCOUNT, NOW).unwrap().secret_base32, pending.secret_base32);
    assert_eq!(setup(&mut db, USER, "a:b", NOW), Err(SetupError::Other));
}

#[test]
fn a_code_is_good_for_a_step_either_way() {
    let mut db = Ledger::new();
    let (pending, _) = enabled(&mut db);
    let code = code_at(&pending.secret_base32, NOW);
    let mut tried = |at: i64| verify_code(&mut db, USER, ACCOUNT, &code, "no such hash", at);
    assert_eq!(tried(NOW), Some(true));
    assert_eq!(tried(NOW + 30), Some(true));
    assert_eq!(tried(NOW - 30), Some(true));
    assert_eq!(tried(NOW + 90), Some(false));
    assert_eq!(tried(NOW - 90), Some(false));
}

#[test]
fn a_pending_setup_asks_for_nothing_at_login() {
    let mut db = Ledger::new();
    assert!(!is_enabled(&db, USER));
    assert_eq!(
        confirm(&mut db, USER, ACCOUNT, "000000", &fresh_codes("c"), NOW),
        Err(ConfirmError::NoPendingSetup)
    );
    setup(&mut db, USER, ACCOUNT, NOW).unwrap();
    assert!(!is_enabled(&db, USER));
    assert_eq!(
        disable(&mut db, USER, ACCOUNT, "000000", "h", NOW),
        Err(DisableError::NotEnabled)
    );
    assert_eq!(
        regenerate_recovery_codes(&mut db, USER, ACCOUNT, "1", "h", &fresh_codes("n"), NOW),
        Err(RegenerateError::NotEnabled)
    );
}

#[test]
fn wrong_codes_use_a_challenge_up() {
    let mut db = Ledger::new();
    let (_, recovery_codes) = enabled(&mut db);
    let challenge_id = create_challenge(&mut db, USER, NOW).unwrap();
    for _ in 0..CHALLENGE_MAX_ATTEMPTS {
        assert_eq!(
            meet(&mut db, &challenge_id, "wrong"),
            Err(ChallengeVerifyError::InvalidCode)
        );
    }
    assert_eq!(
        meet(&mut db, &challenge_id, &recovery_codes[0]),
        Err(ChallengeVerifyError::ExpiredOrExhausted)
    );
}

#[test]
fn a_challenge_lapses() {
    let mut db = Ledger::new();
    enabled(&mut db);
    let challenge_id = create_challenge(&mut db, USER, NOW - CHALLENGE_TTL_SECS - 1).unwrap();
    assert_eq!(
        meet(&mut db, &challenge_id, "old-0"),
        Err(ChallengeVerifyError::ExpiredOrExhausted)
    );
    assert_eq!(
        meet(&mut db, "no such challenge", "old-0"),
        Err(ChallengeVerifyError::ExpiredOrExhausted)
    );
    let last = create_challenge(&mut db, USER, NOW - CHALLENGE_TTL_SECS).unwrap();
    assert_eq!(meet(&mut db, &last, "old-0"), Ok(USER.to_string()));
    assert_eq!(create_challenge(&mut db, USER, i64::MAX), Err(DbError::OutOfRange));
}

#[test]
fn an_account_that_cannot_be_looked_up_stops_a_challenge() {
    let mut db = Ledger::new();
    enabled(&mut db);
    let challenge_id = create_challenge(&mut db, USER, NOW).unwrap();
    let result = verify_challenge(
        &mut db,
        &challenge_id,
        |_: &str| Err(DbError::NoRows),
        "old-0",
        "hash of old-0",
        NOW,
    );
    assert_eq!(result, Err(ChallengeVerifyError::Db(DbError::NoRows)));
}

#[test]
fn a_recovery_code_also_disables_and_is_spent_on_the_way() {
    let mut db = Ledger::new();
    let (_, recovery_codes) = enabled(&mut db);
    let hash = format!("hash of {}", recovery_codes[3]);
    disable(&mut db, USER, ACCOUNT, &recovery_codes[3], &hash, NOW).unwrap();
    assert!(!is_enabled(&db, USER));
    assert_eq!(status(&db, USER).unwrap().recovery_codes_remaining, 0);
}

#[test]
fn a_closed_challenge_takes_no_code_and_spends_none() {
    let mut db = Ledger::new();
    let (pending, codes) = enabled(&mut db);
    let challenge_id = create_challenge(&mut db, USER, NOW).unwrap();
    for _ in 0..5 {
        assert_eq!(
            meet(&mut db, &challenge_id, "000000x"),
            Err(ChallengeVerifyError::InvalidCode)
        );
    }
    let right = code_at(&pending.secret_base32, NOW);
    assert_eq!(
        meet(&mut db, &challenge_id, &right),
        Err(ChallengeVerifyError::ExpiredOrExhausted)
    );
    assert!(db.challenges.is_empty());
    let looked_up = |_: &str| -> Result<String, DbError> { unreachable!() };
    let hash = format!("hash of {}", codes[0]);
    assert_eq!(
        verify_challenge(&mut db, &challenge_id, looked_up, &codes[0], &hash, NOW),
        Err(ChallengeVerifyError::ExpiredOrExhausted)
    );
    assert_eq!(status(&db, USER).unwrap().recovery_codes_remaining, 10);
}
