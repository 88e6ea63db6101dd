//! The second factor: a time-based one-time password, or one of the recovery codes handed out
//! beside it. Setting it up takes two steps. The secret that `setup` stores counts for nothing
//! until `confirm` has seen a code made from it.

use vstd::prelude::*;

use crate::arith::{plus, stored};
use crate::error::DbError;
use crate::ids::{are_ids, is_id, new_id, new_ids};
use crate::ledger::{Ledger, LedgerView};
use crate::table::{
    any, any_row, count, find, find_row, insert, lemma_any_same, lemma_filter_contains,
    lemma_filter_meets, lemma_filter_rules_out, lemma_find_any, lemma_find_filter, lemma_find_only,
    lemma_find_push, lemma_find_updated, lemma_updated_none, only, remove, rows, update, updated,
    Row,
};
use crate::text::{own, same};

verus! {

/// Who issues the one-time passwords, as an authenticator shows it.
pub const ISSUER: &'static str = "Owner's Cock Ledger";

/// How many digits a one-time password has.
pub const DIGITS: u8 = 6;

/// How many steps to either side of the current one are accepted.
pub const SKEW: u16 = 1;

/// How many seconds a step lasts.
pub const STEP_SECONDS: u64 = 30;

/// How many recovery codes are handed out at once.
pub const RECOVERY_CODE_COUNT: usize = 10;

/// How long a login challenge lives.
pub const CHALLENGE_TTL_SECS: i64 = 300;

/// How many wrong codes a login challenge outlives.
pub const CHALLENGE_MAX_ATTEMPTS: i64 = 5;

/// A stored second factor.
#[derive(Debug, PartialEq, Eq)]
pub struct Credential {
    pub user_id: String,
    pub secret: String,
    pub confirmed_at: Option<i64>,
    pub created_at: i64,
}

/// What a `Credential` holds.
#[verifier::ext_equal]
pub struct CredentialView {
    pub user_id: Seq<char>,
    pub secret: Seq<char>,
    pub confirmed_at: Option<i64>,
    pub created_at: i64,
}

impl View for Credential {
    type V = CredentialView;

    open spec fn view(&self) -> CredentialView {
        CredentialView {
            user_id: self.user_id@,
            secret: self.secret@,
            confirmed_at: self.confirmed_at,
            created_at: self.created_at,
        }
    }
}

impl DeepView for Credential {
    type V = CredentialView;

    open spec fn deep_view(&self) -> CredentialView {
        self.view()
    }
}

impl Row for Credential {
    fn dup(&self) -> (r: Self) {
        Credential {
            user_id: self.user_id.clone(),
            secret: self.secret.clone(),
            confirmed_at: self.confirmed_at,
            created_at: self.created_at,
        }
    }
}

/// A stored recovery code; only its hash is kept.
#[derive(Debug, PartialEq, Eq)]
pub struct RecoveryCode {
    pub id: String,
    pub user_id: String,
    pub code_hash: String,
    pub created_at: i64,
    pub used_at: Option<i64>,
}

/// What a `RecoveryCode` holds.
#[verifier::ext_equal]
pub struct RecoveryCodeView {
    pub id: Seq<char>,
    pub user_id: Seq<char>,
    pub code_hash: Seq<char>,
    pub created_at: i64,
    pub used_at: Option<i64>,
}

impl View for RecoveryCode {
    type V = RecoveryCodeView;

    open spec fn view(&self) -> RecoveryCodeView {
        RecoveryCodeView {
            id: self.id@,
            user_id: self.user_id@,
            code_hash: self.code_hash@,
            created_at: self.created_at,
            used_at: self.used_at,
        }
    }
}

impl DeepView for RecoveryCode {
    type V = RecoveryCodeView;

    open spec fn deep_view(&self) -> RecoveryCodeView {
        self.view()
    }
}

impl Row for RecoveryCode {
    fn dup(&self) -> (r: Self) {
        RecoveryCode {
            id: self.id.clone(),
            user_id: self.user_id.clone(),
            code_hash: self.code_hash.clone(),
            created_at: self.created_at,
            used_at: self.used_at,
        }
    }
}

/// A stored login challenge.
#[derive(Debug, PartialEq, Eq)]
pub struct Challenge {
    pub id: String,
    pub user_id: String,
    pub created_at: i64,
    pub expires_at: i64,
    pub attempts: i64,
}

/// What a `Challenge` holds.
#[verifier::ext_equal]
pub struct ChallengeView {
    pub id: Seq<char>,
    pub user_id: Seq<char>,
    pub created_at: i64,
    pub expires_at: i64,
    pub attempts: i64,
}

impl View for Challenge {
    type V = ChallengeView;

    open spec fn view(&self) -> ChallengeView {
        ChallengeView {
            id: self.id@,
            user_id: self.user_id@,
            created_at: self.created_at,
            expires_at: self.expires_at,
            attempts: self.attempts,
        }
    }
}

impl DeepView for Challenge {
    type V = ChallengeView;

    open spec fn deep_view(&self) -> ChallengeView {
        self.view()
    }
}

impl Row for Challenge {
    fn dup(&self) -> (r: Self) {
        Challenge {
            id: self.id.clone(),
            user_id: self.user_id.clone(),
            created_at: self.created_at,
            expires_at: self.expires_at,
            attempts: self.attempts,
        }
    }
}

/// What the user captures into an authenticator.
#[derive(Debug, PartialEq, Eq)]
pub struct PendingSetup {
    pub secret_base32: String,
    pub otpauth_uri: String,
    /// A base64 PNG of the QR code.
    pub qr_png_base64: String,
}

/// What a `PendingSetup` holds.
#[verifier::ext_equal]
pub struct PendingSetupView {
    pub secret_base32: Seq<char>,
    pub otpauth_uri: Seq<char>,
    pub qr_png_base64: Seq<char>,
}

impl View for PendingSetup {
    type V = PendingSetupView;

    open spec fn view(&self) -> PendingSetupView {
        PendingSetupView {
            secret_base32: self.secret_base32@,
            otpauth_uri: self.otpauth_uri@,
            qr_png_base64: self.qr_png_base64@,
        }
    }
}

/// A recovery code as it is shown once, and the hash that is kept.
#[derive(Debug, PartialEq, Eq)]
pub struct NewCode {
    pub raw: String,
    pub hash: String,
}

/// What a `NewCode` holds.
#[verifier::ext_equal]
pub struct NewCodeView {
    pub raw: Seq<char>,
    pub hash: Seq<char>,
}

impl View for NewCode {
    type V = NewCodeView;

    open spec fn view(&self) -> NewCodeView {
        NewCodeView {
            raw: self.raw@,
            hash: self.hash@,
        }
    }
}

impl DeepView for NewCode {
    type V = NewCodeView;

    open spec fn deep_view(&self) -> NewCodeView {
        self.view()
    }
}

impl Row for NewCode {
    fn dup(&self) -> (r: Self) {
        NewCode {
            raw: self.raw.clone(),
            hash: self.hash.clone(),
        }
    }
}

/// Where an account stands with its second factor.
#[derive(Debug, PartialEq, Eq)]
pub struct Status {
    pub enabled: bool,
    pub pending_setup: bool,
    pub recovery_codes_remaining: i64,
}

/// What a `Status` holds.
#[verifier::ext_equal]
pub struct StatusView {
    pub enabled: bool,
    pub pending_setup: bool,
    pub recovery_codes_remaining: i64,
}

impl View for Status {
    type V = StatusView;

    open spec fn view(&self) -> StatusView {
        StatusView {
            enabled: self.enabled,
            pending_setup: self.pending_setup,
            recovery_codes_remaining: self.recovery_codes_remaining,
        }
    }
}

/// A fresh secret in base32: `totp_rs`'s `Secret::generate` and `to_base32`. The bytes are random,
/// so what is claimed is that there are as many characters as twenty bytes make, and that an
/// authenticator URL can be made from them under every issuer and account name without a colon
/// (the account name not empty).
#[verifier::external_body]
fn new_secret() -> (r: String)
    ensures
        r@.len() == 32,
        forall|issuer: Seq<char>, account_name: Seq<char>, digits: u8, step: u64|
            !issuer.contains(':') && account_name.len() > 0 && !account_name.contains(':') && 6
                <= digits <= 8 && step > 0 ==> (#[trigger] totp_url(
                r@,
                issuer,
                account_name,
                digits,
                step,
            )) is Some,
{
    totp_rs::Secret::generate().to_base32()
}

/// The authenticator URL of a secret; `None` where the secret or the settings are refused.
pub uninterp spec fn totp_url(
    secret: Seq<char>,
    issuer: Seq<char>,
    account_name: Seq<char>,
    digits: u8,
    step: u64,
) -> Option<Seq<char>>;

/// Makes an authenticator URL: `totp_rs`'s `Totp::to_url`, on what `Builder` builds for SHA-1. The
/// arguments decide the result alone. An account name that is empty or holds a colon is refused.
#[verifier::external_body]
fn authenticator_url(secret: &str, issuer: &str, account_name: &str, digits: u8, step: u64) -> (r:
    Option<String>)
    ensures
        r.deep_view() == totp_url(secret@, issuer@, account_name@, digits, step),
        account_name@.len() == 0 || account_name@.contains(':') ==> r is None,
{
    let builder = totp_rs::Builder::new()
        .with_algorithm(totp_rs::Algorithm::SHA1)
        .with_digits(digits)
        .with_step_duration(step)
        .with_secret(totp_rs::Secret::try_from_base32(secret).ok()?)
        .with_issuer(Some(issuer))
        .with_account_name(account_name);
    builder.build().ok()?.to_url().ok()
}

/// The base64 PNG of the QR code of an authenticator URL; `None` where there is no such URL, or it
/// is too long for a QR code.
pub uninterp spec fn totp_qr(
    secret: Seq<char>,
    issuer: Seq<char>,
    account_name: Seq<char>,
    digits: u8,
    step: u64,
) -> Option<Seq<char>>;

/// Draws an authenticator URL: `totp_rs`'s `Totp::to_qr_base64`, on what `Builder` builds for
/// SHA-1. The arguments decide the result alone.
#[verifier::external_body]
fn authenticator_qr(secret: &str, issuer: &str, account_name: &str, digits: u8, step: u64) -> (r:
    Option<String>)
    ensures
        r.deep_view() == totp_qr(secret@, issuer@, account_name@, digits, step),
{
    let builder = totp_rs::Builder::new()
        .with_algorithm(totp_rs::Algorithm::SHA1)
        .with_digits(digits)
        .with_step_duration(step)
        .with_secret(totp_rs::Secret::try_from_base32(secret).ok()?)
        .with_issuer(Some(issuer))
        .with_account_name(account_name);
    builder.build().ok()?.to_qr_base64().ok()
}

/// Whether a code is a one-time password of a secret at a time; `None` where the secret or the
/// settings are refused.
pub uninterp spec fn totp_match(
    secret: Seq<char>,
    issuer: Seq<char>,
    account_name: Seq<char>,
    digits: u8,
    skew: u16,
    step: u64,
    code: Seq<char>,
    time: u64,
) -> Option<bool>;

/// Checks a one-time password: `totp_rs`'s `Totp::check`, on what `Builder` builds for SHA-1. The
/// arguments decide the result alone. A time or a step so large that a counter would leave the
/// range of 64 bits is left out.
#[verifier::external_body]
fn check_totp(
    secret: &str,
    issuer: &str,
    account_name: &str,
    digits: u8,
    skew: u16,
    step: u64,
    code: &str,
    time: u64,
) -> (r: Option<bool>)
    requires
        time <= 0x7fff_ffff_ffff_ffff,
        step <= 0x7fff_ffff,
    ensures
        r == totp_match(secret@, issuer@, account_name@, digits, skew, step, code@, time),
{
    let builder = totp_rs::Builder::new()
        .with_algorithm(totp_rs::Algorithm::SHA1)
        .with_digits(digits)
        .with_skew(skew)
        .with_step_duration(step)
        .with_secret(totp_rs::Secret::try_from_base32(secret).ok()?)
        .with_issuer(Some(issuer))
        .with_account_name(account_name);
    Some(builder.build().ok()?.check(code, time).is_some())
}

/// The account's credential.
pub open spec fn of_user(user_id: Seq<char>) -> spec_fn(CredentialView) -> bool {
    |c: CredentialView| c.user_id == user_id
}

/// The account's credential, not confirmed.
pub open spec fn pending(user_id: Seq<char>) -> spec_fn(CredentialView) -> bool {
    |c: CredentialView| c.user_id == user_id && c.confirmed_at is None
}

/// The account's credential, confirmed.
pub open spec fn confirmed(user_id: Seq<char>) -> spec_fn(CredentialView) -> bool {
    |c: CredentialView| c.user_id == user_id && c.confirmed_at is Some
}

/// Why a setup was not begun.
#[derive(Clone, Copy, Debug, PartialEq, Eq, Structural)]
pub enum SetupError {
    /// The secret or the account name was refused, or the URL is too long to draw.
    Other,
}

/// Set up afresh.
pub open spec fn replaced(secret: Seq<char>, now: i64) -> spec_fn(CredentialView) -> CredentialView {
    |c: CredentialView| CredentialView { secret, confirmed_at: None, created_at: now, ..c }
}

/// The ledger after a setup: a pending credential is replaced, a confirmed one stands.
pub open spec fn begun(db: LedgerView, user_id: Seq<char>, secret: Seq<char>, now: i64) -> LedgerView {
    LedgerView {
        credentials: if any_row(db.credentials, of_user(user_id)) {
            updated(db.credentials, pending(user_id), replaced(secret, now))
        } else {
            db.credentials.push(
                CredentialView { user_id, secret, confirmed_at: None, created_at: now },
            )
        },
        ..db
    }
}

/// What a setup gives and leaves, given the URL and its drawing.
pub open spec fn set_up(
    db: LedgerView,
    user_id: Seq<char>,
    secret: Seq<char>,
    url: Option<Seq<char>>,
    qr: Option<Seq<char>>,
    now: i64,
) -> Result<(LedgerView, PendingSetupView), SetupError> {
    match (url, qr) {
        (Some(otpauth_uri), Some(qr_png_base64)) => Ok(
            (
                begun(db, user_id, secret, now),
                PendingSetupView { secret_base32: secret, otpauth_uri, qr_png_base64 },
            ),
        ),
        _ => Err(SetupError::Other),
    }
}

/// Begins a setup with a secret, given its authenticator URL and the drawing of it.
pub fn setup_with(
    db: &mut Ledger,
    user_id: &str,
    secret: String,
    url: Option<String>,
    qr: Option<String>,
    now: i64,
) -> (r: Result<PendingSetup, SetupError>)
    ensures
        match set_up(old(db)@, user_id@, secret@, url.deep_view(), qr.deep_view(), now) {
            Ok((after, pending_setup)) => r is Ok && r->Ok_0@ == pending_setup && final(db)@
                == after,
            Err(e) => r == Err::<PendingSetup, SetupError>(e) && final(db)@ == old(db)@,
        },
{
    let otpauth_uri = match url {
        Some(u) => u,
        None => {
            return Err(SetupError::Other);
        },
    };
    let qr_png_base64 = match qr {
        Some(q) => q,
        None => {
            return Err(SetupError::Other);
        },
    };
    let ghost q = of_user(user_id@);
    let test = |c: &Credential| -> (b: bool)
        ensures
            b == q(c@),
        { same(c.user_id.as_str(), user_id) };
    if any(&db.credentials, Ghost(q), test) {
        let ghost p = pending(user_id@);
        let ghost u = replaced(secret@, now);
        let change = |c: &Credential| -> (n: Option<Credential>)
            ensures
                match n {
                    Some(x) => p(c@) && x@ == u(c@),
                    None => !p(c@),
                },
            {
                if same(c.user_id.as_str(), user_id) && c.confirmed_at.is_none() {
                    let mut n = c.dup();
                    n.secret = secret.clone();
                    n.confirmed_at = None;
                    n.created_at = now;

                    Some(n)
                } else {
                    None
                }
            };
        update(&mut db.credentials, Ghost(p), Ghost(u), change);
    } else {
        insert(
            &mut db.credentials,
            Credential {
                user_id: own(user_id),
                secret: secret.clone(),
                confirmed_at: None,
                created_at: now,
            },
        );
    }
    Ok(PendingSetup { secret_base32: secret, otpauth_uri, qr_png_base64 })
}

/// What a setup with this secret gives and leaves.
pub open spec fn set_up_from(
    db: LedgerView,
    user_id: Seq<char>,
    account_name: Seq<char>,
    secret: Seq<char>,
    now: i64,
) -> Result<(LedgerView, PendingSetupView), SetupError> {
    set_up(
        db,
        user_id,
        secret,
        totp_url(secret, ISSUER@, account_name, DIGITS, STEP_SECONDS),
        totp_qr(secret, ISSUER@, account_name, DIGITS, STEP_SECONDS),
        now,
    )
}

/// A secret that an authenticator takes: it has as many characters as twenty bytes make, and it
/// makes an authenticator URL under every account name that is not empty and holds no colon.
pub open spec fn fit_for_setup(secret: Seq<char>, account_name: Seq<char>) -> bool {
    &&& secret.len() == 32
    &&& account_name.len() > 0 && !account_name.contains(':') ==> totp_url(
        secret,
        ISSUER@,
        account_name,
        DIGITS,
        STEP_SECONDS,
    ) is Some
}

/// Begins a setup with a fresh secret. An account name that is empty or holds a colon is refused.
pub fn setup(db: &mut Ledger, user_id: &str, account_name: &str, now: i64) -> (r: Result<
    PendingSetup,
    SetupError,
>)
    ensures
        exists|secret: Seq<char>|
            fit_for_setup(secret, account_name@) && match #[trigger] set_up_from(
                old(db)@,
                user_id@,
                account_name@,
                secret,
                now,
            ) {
                Ok((after, pending_setup)) => r is Ok && r->Ok_0@ == pending_setup && final(db)@
                    == after,
                Err(e) => r == Err::<PendingSetup, SetupError>(e) && final(db)@ == old(db)@,
            },
        account_name@.len() == 0 || account_name@.contains(':') ==> r is Err,
        r is Ok ==> r->Ok_0@.secret_base32.len() == 32,
{
    let secret = new_secret();
    assert(fit_for_setup(secret@, account_name@)) by {
        reveal_strlit("Owner's Cock Ledger");
    }
    let ghost outcome = set_up_from(db@, user_id@, account_name@, secret@, now);
    let url = authenticator_url(secret.as_str(), ISSUER, account_name, DIGITS, STEP_SECONDS);
    let qr = authenticator_qr(secret.as_str(), ISSUER, account_name, DIGITS, STEP_SECONDS);
    assert(outcome is Ok || outcome is Err);
    setup_with(db, user_id, secret, url, qr, now)
}

/// Why a setup was not confirmed.
#[derive(Clone, Copy, Debug, PartialEq, Eq, Structural)]
pub enum ConfirmError {
    /// The second factor is enabled already, or no setup is pending.
    NoPendingSetup,
    /// The code does not match.
    InvalidCode,
    /// The secret or the account name was refused.
    Other,
}

/// Confirmed now.
pub open spec fn confirm_now(now: i64) -> spec_fn(CredentialView) -> CredentialView {
    |c: CredentialView| CredentialView { confirmed_at: Some(now), ..c }
}

/// Recovery codes as they are handed out: not used.
pub open spec fn new_codes(
    user_id: Seq<char>,
    ids: Seq<Seq<char>>,
    codes: Seq<NewCodeView>,
    now: i64,
) -> Seq<RecoveryCodeView> {
    Seq::new(
        codes.len(),
        |i: int|
            RecoveryCodeView {
                id: ids[i],
                user_id,
                code_hash: codes[i].hash,
                created_at: now,
                used_at: None,
            },
    )
}

/// The codes as they are shown.
pub open spec fn raw_codes(codes: Seq<NewCodeView>) -> Seq<Seq<char>> {
    codes.map_values(|c: NewCodeView| c.raw)
}

/// Stores the hashes of recovery codes; the codes.
fn issue(
    table: &mut Vec<RecoveryCode>,
    user_id: &str,
    ids: Vec<String>,
    codes: &[NewCode; RECOVERY_CODE_COUNT],
    now: i64,
) -> (r: Vec<String>)
    requires
        ids@.len() == RECOVERY_CODE_COUNT,
    ensures
        rows(final(table)@) == rows(old(table)@) + new_codes(
            user_id@,
            ids.deep_view(),
            rows(codes@),
            now,
        ),
        r.deep_view() == raw_codes(rows(codes@)),
{
    let mut out: Vec<String> = Vec::new();
    let mut i: usize = 0;
    let ghost was = rows(table@);
    let ghost fresh = new_codes(user_id@, ids.deep_view(), rows(codes@), now);
    while i < RECOVERY_CODE_COUNT
        invariant
            i <= RECOVERY_CODE_COUNT,
            ids@.len() == RECOVERY_CODE_COUNT,
            fresh == new_codes(user_id@, ids.deep_view(), rows(codes@), now),
            rows(table@) == was + fresh.take(i as int),
            out.deep_view() == raw_codes(rows(codes@)).take(i as int),
        decreases RECOVERY_CODE_COUNT - i,
    {
        insert(
            table,
            RecoveryCode {
                id: ids[i].clone(),
                user_id: own(user_id),
                code_hash: codes[i].hash.clone(),
                created_at: now,
                used_at: None,
            },
        );
        let ghost before = out.deep_view();
        out.push(codes[i].raw.clone());
        assert(out.deep_view() =~= before.push(codes@[i as int].raw@));
        assert(fresh.take(i + 1) =~= fresh.take(i as int).push(fresh[i as int]));
        assert(rows(table@) =~= was + fresh.take(i + 1));
        i = i + 1;
        assert(out.deep_view() =~= raw_codes(rows(codes@)).take(i as int));
    }
    assert(fresh.take(i as int) =~= fresh);
    assert(raw_codes(rows(codes@)).take(i as int) =~= raw_codes(rows(codes@)));
    out
}

/// What a confirmation leaves, given whether the code matched: the credential counts, and the
/// recovery codes are handed out.
pub open spec fn confirmed_with(
    db: LedgerView,
    user_id: Seq<char>,
    matched: Option<bool>,
    ids: Seq<Seq<char>>,
    codes: Seq<NewCodeView>,
    now: i64,
) -> Result<LedgerView, ConfirmError> {
    if !any_row(db.credentials, pending(user_id)) {
        Err(ConfirmError::NoPendingSetup)
    } else {
        match matched {
            None => Err(ConfirmError::Other),
            Some(false) => Err(ConfirmError::InvalidCode),
            Some(true) => Ok(
                LedgerView {
                    credentials: updated(db.credentials, of_user(user_id), confirm_now(now)),
                    recovery_codes: db.recovery_codes + new_codes(user_id, ids, codes, now),
                    ..db
                },
            ),
        }
    }
}

/// Confirms a pending setup, given whether the code matched; the recovery codes.
pub fn confirm_with(
    db: &mut Ledger,
    user_id: &str,
    matched: Option<bool>,
    ids: Vec<String>,
    codes: &[NewCode; RECOVERY_CODE_COUNT],
    now: i64,
) -> (r: Result<Vec<String>, ConfirmError>)
    requires
        ids@.len() == RECOVERY_CODE_COUNT,
    ensures
        match confirmed_with(old(db)@, user_id@, matched, ids.deep_view(), rows(codes@), now) {
            Ok(after) => r is Ok && r->Ok_0.deep_view() == raw_codes(rows(codes@)) && final(db)@
                == after,
            Err(e) => r == Err::<Vec<String>, ConfirmError>(e) && final(db)@ == old(db)@,
        },
{
    let ghost q = pending(user_id@);
    let test = |c: &Credential| -> (b: bool)
        ensures
            b == q(c@),
        { same(c.user_id.as_str(), user_id) && c.confirmed_at.is_none() };
    if !any(&db.credentials, Ghost(q), test) {
        return Err(ConfirmError::NoPendingSetup);
    }
    match matched {
        None => {
            return Err(ConfirmError::Other);
        },
        Some(m) => {
            if !m {
                return Err(ConfirmError::InvalidCode);
            }
        },
    }
    let ghost p = of_user(user_id@);
    let ghost u = confirm_now(now);
    let change = |c: &Credential| -> (n: Option<Credential>)
        ensures
            match n {
                Some(x) => p(c@) && x@ == u(c@),
                None => !p(c@),
            },
        {
            if same(c.user_id.as_str(), user_id) {
                let mut n = c.dup();
                n.confirmed_at = Some(now);

                Some(n)
            } else {
                None
            }
        };
    update(&mut db.credentials, Ghost(p), Ghost(u), change);
    Ok(issue(&mut db.recovery_codes, user_id, ids, codes, now))
}

/// Whether a code matches a credential.
pub open spec fn match_of(
    credential: Option<CredentialView>,
    account_name: Seq<char>,
    code: Seq<char>,
    now: i64,
) -> Option<bool> {
    match credential {
        Some(c) => totp_match(
            c.secret,
            ISSUER@,
            account_name,
            DIGITS,
            SKEW,
            STEP_SECONDS,
            code,
            now as u64,
        ),
        None => Some(false),
    }
}

/// Whether a code matches a credential.
fn check_code(credential: Option<&Credential>, account_name: &str, code: &str, now: i64) -> (r:
    Option<bool>)
    requires
        0 <= now,
    ensures
        r == match_of(
            match credential {
                Some(c) => Some(c@),
                None => None,
            },
            account_name@,
            code@,
            now,
        ),
{
    match credential {
        Some(c) => check_totp(
            c.secret.as_str(),
            ISSUER,
            account_name,
            DIGITS,
            SKEW,
            STEP_SECONDS,
            code,
            now as u64,
        ),
        None => Some(false),
    }
}

/// What a confirmation with this code leaves.
pub open spec fn confirmed_by(
    db: LedgerView,
    user_id: Seq<char>,
    account_name: Seq<char>,
    code: Seq<char>,
    ids: Seq<Seq<char>>,
    codes: Seq<NewCodeView>,
    now: i64,
) -> Result<LedgerView, ConfirmError> {
    confirmed_with(
        db,
        user_id,
        match_of(find_row(db.credentials, pending(user_id)), account_name, code, now),
        ids,
        codes,
        now,
    )
}

/// Confirms a pending setup with a code made from its secret; the recovery codes.
pub fn confirm(
    db: &mut Ledger,
    user_id: &str,
    account_name: &str,
    code: &str,
    codes: &[NewCode; RECOVERY_CODE_COUNT],
    now: i64,
) -> (r: Result<Vec<String>, ConfirmError>)
    requires
        0 <= now,
    ensures
        exists|ids: Seq<Seq<char>>|
            are_ids(ids, RECOVERY_CODE_COUNT as nat) && match #[trigger] confirmed_by(
                old(db)@,
                user_id@,
                account_name@,
                code@,
                ids,
                rows(codes@),
                now,
            ) {
                Ok(after) => r is Ok && r->Ok_0.deep_view() == raw_codes(rows(codes@))
                    && final(db)@ == after,
                Err(e) => r == Err::<Vec<String>, ConfirmError>(e) && final(db)@ == old(db)@,
            },
{
    let ids = new_ids(RECOVERY_CODE_COUNT);
    let ghost outcome = confirmed_by(
        db@,
        user_id@,
        account_name@,
        code@,
        ids.deep_view(),
        rows(codes@),
        now,
    );
    assert(outcome is Ok || outcome is Err);
    let ghost q = pending(user_id@);
    let test = |c: &Credential| -> (b: bool)
        ensures
            b == q(c@),
        { same(c.user_id.as_str(), user_id) && c.confirmed_at.is_none() };
    let matched = check_code(find(&db.credentials, Ghost(q), test), account_name, code, now);
    confirm_with(db, user_id, matched, ids, codes, now)
}

/// Whether the account has a confirmed second factor.
pub fn is_enabled(db: &Ledger, user_id: &str) -> (r: bool)
    ensures
        r == any_row(db@.credentials, confirmed(user_id@)),
{
    let ghost p = confirmed(user_id@);
    let test = |c: &Credential| -> (b: bool)
        ensures
            b == p(c@),
        { same(c.user_id.as_str(), user_id) && c.confirmed_at.is_some() };
    any(&db.credentials, Ghost(p), test)
}

/// A recovery code of this account, not used.
pub open spec fn unused(user_id: Seq<char>) -> spec_fn(RecoveryCodeView) -> bool {
    |c: RecoveryCodeView| c.user_id == user_id && c.used_at is None
}

/// Where an account stands, as far as the count of its codes can be stored.
pub open spec fn standing(db: LedgerView, user_id: Seq<char>) -> Result<StatusView, DbError> {
    let found = find_row(db.credentials, of_user(user_id));
    match stored(db.recovery_codes.filter(unused(user_id)).len() as int) {
        Err(e) => Err(e),
        Ok(n) => Ok(
            StatusView {
                enabled: found matches Some(c) && c.confirmed_at is Some,
                pending_setup: found matches Some(c) && c.confirmed_at is None,
                recovery_codes_remaining: n,
            },
        ),
    }
}

/// Where an account stands with its second factor.
pub fn status(db: &Ledger, user_id: &str) -> (r: Result<Status, DbError>)
    ensures
        match standing(db@, user_id@) {
            Ok(s) => r is Ok && r->Ok_0@ == s,
            Err(e) => r == Err::<Status, DbError>(e),
        },
{
    let ghost p = of_user(user_id@);
    let test = |c: &Credential| -> (b: bool)
        ensures
            b == p(c@),
        { same(c.user_id.as_str(), user_id) };
    let (enabled, pending_setup) = match find(&db.credentials, Ghost(p), test) {
        Some(c) => (c.confirmed_at.is_some(), c.confirmed_at.is_none()),
        None => (false, false),
    };
    let ghost q = unused(user_id@);
    let left = |c: &RecoveryCode| -> (b: bool)
        ensures
            b == q(c@),
        { same(c.user_id.as_str(), user_id) && c.used_at.is_none() };
    let n = count(&db.recovery_codes, Ghost(q), left);
    match crate::arith::narrow(n as i128) {
        Ok(recovery_codes_remaining) => Ok(
            Status { enabled, pending_setup, recovery_codes_remaining },
        ),
        Err(e) => Err(e),
    }
}

/// A recovery code of this account with this hash, not used.
pub open spec fn usable(user_id: Seq<char>, code_hash: Seq<char>) -> spec_fn(
    RecoveryCodeView,
) -> bool {
    |c: RecoveryCodeView| c.user_id == user_id && c.code_hash == code_hash && c.used_at is None
}

/// The recovery code has this id.
pub open spec fn code_by_id(id: Seq<char>) -> spec_fn(RecoveryCodeView) -> bool {
    |c: RecoveryCodeView| c.id == id
}

/// Used now.
pub open spec fn used(now: i64) -> spec_fn(RecoveryCodeView) -> RecoveryCodeView {
    |c: RecoveryCodeView| RecoveryCodeView { used_at: Some(now), ..c }
}

/// Whether a code is accepted, and the ledger after it, given whether it matched as a one-time
/// password. Where it did not, a recovery code with its hash is used up. `None` where the secret
/// or the account name was refused.
pub open spec fn accepted(
    db: LedgerView,
    user_id: Seq<char>,
    matched: Option<bool>,
    code_hash: Seq<char>,
    now: i64,
) -> Option<(LedgerView, bool)> {
    match matched {
        None => None,
        Some(true) => Some((db, true)),
        Some(false) => match find_row(db.recovery_codes, usable(user_id, code_hash)) {
            None => Some((db, false)),
            Some(c) => Some(
                (
                    LedgerView {
                        recovery_codes: updated(db.recovery_codes, code_by_id(c.id), used(now)),
                        ..db
                    },
                    true,
                ),
            ),
        },
    }
}

/// Accepts a code, given whether it matched as a one-time password.
pub fn accept_code(
    db: &mut Ledger,
    user_id: &str,
    matched: Option<bool>,
    code_hash: &str,
    now: i64,
) -> (r: Option<bool>)
    ensures
        match accepted(old(db)@, user_id@, matched, code_hash@, now) {
            Some((after, ok)) => r == Some(ok) && final(db)@ == after,
            None => r is None && final(db)@ == old(db)@,
        },
{
    match matched {
        None => {
            return None;
        },
        Some(m) => {
            if m {
                return Some(true);
            }
        },
    }
    let ghost q = usable(user_id@, code_hash@);
    let test = |c: &RecoveryCode| -> (b: bool)
        ensures
            b == q(c@),
        {
            same(c.user_id.as_str(), user_id) && same(c.code_hash.as_str(), code_hash)
                && c.used_at.is_none()
        };
    let id = match find(&db.recovery_codes, Ghost(q), test) {
        Some(c) => c.id.clone(),
        None => {
            return Some(false);
        },
    };
    let ghost p = code_by_id(id@);
    let ghost u = used(now);
    let change = |c: &RecoveryCode| -> (n: Option<RecoveryCode>)
        ensures
            match n {
                Some(x) => p(c@) && x@ == u(c@),
                None => !p(c@),
            },
        {
            if same(c.id.as_str(), id.as_str()) {
                let mut n = c.dup();
                n.used_at = Some(now);

                Some(n)
            } else {
                None
            }
        };
    update(&mut db.recovery_codes, Ghost(p), Ghost(u), change);
    Some(true)
}

/// Whether a code matches the account's confirmed credential; without one it does not.
pub open spec fn live_match(
    db: LedgerView,
    user_id: Seq<char>,
    account_name: Seq<char>,
    code: Seq<char>,
    now: i64,
) -> Option<bool> {
    match_of(find_row(db.credentials, confirmed(user_id)), account_name, code, now)
}

/// Whether a code matches the account's confirmed credential.
fn match_code(db: &Ledger, user_id: &str, account_name: &str, code: &str, now: i64) -> (r: Option<
    bool,
>)
    requires
        0 <= now,
    ensures
        r == live_match(db@, user_id@, account_name@, code@, now),
{
    let ghost p = confirmed(user_id@);
    let test = |c: &Credential| -> (b: bool)
        ensures
            b == p(c@),
        { same(c.user_id.as_str(), user_id) && c.confirmed_at.is_some() };
    check_code(find(&db.credentials, Ghost(p), test), account_name, code, now)
}

/// Checks a code as a one-time password or, by its hash, as a recovery code, which is then used
/// up. `None` where the secret or the account name was refused.
pub fn verify_code(
    db: &mut Ledger,
    user_id: &str,
    account_name: &str,
    code: &str,
    code_hash: &str,
    now: i64,
) -> (r: Option<bool>)
    requires
        0 <= now,
    ensures
        match accepted(
            old(db)@,
            user_id@,
            live_match(old(db)@, user_id@, account_name@, code@, now),
            code_hash@,
            now,
        ) {
            Some((after, ok)) => r == Some(ok) && final(db)@ == after,
            None => r is None && final(db)@ == old(db)@,
        },
{
    let matched = match_code(db, user_id, account_name, code, now);
    accept_code(db, user_id, matched, code_hash, now)
}

/// A recovery code of this account.
pub open spec fn code_of(user_id: Seq<char>) -> spec_fn(RecoveryCodeView) -> bool {
    |c: RecoveryCodeView| c.user_id == user_id
}

/// Without the account's recovery codes.
pub open spec fn without_codes(db: LedgerView, user_id: Seq<char>) -> LedgerView {
    LedgerView {
        recovery_codes: db.recovery_codes.filter(|c: RecoveryCodeView| !code_of(user_id)(c)),
        ..db
    }
}

/// Without the account's second factor.
pub open spec fn cleared(db: LedgerView, user_id: Seq<char>) -> LedgerView {
    without_codes(
        LedgerView {
            credentials: db.credentials.filter(|c: CredentialView| !of_user(user_id)(c)),
            ..db
        },
        user_id,
    )
}

/// Deletes the account's recovery codes.
fn clear_codes(db: &mut Ledger, user_id: &str)
    ensures
        final(db)@ == without_codes(old(db)@, user_id@),
{
    let ghost q = code_of(user_id@);
    let test = |c: &RecoveryCode| -> (b: bool)
        ensures
            b == q(c@),
        { same(c.user_id.as_str(), user_id) };
    remove(&mut db.recovery_codes, Ghost(q), test);
}

/// Clears an account's credential and all of its recovery codes.
pub fn force_disable_for_user(db: &mut Ledger, user_id: &str)
    ensures
        final(db)@ == cleared(old(db)@, user_id@),
{
    let ghost p = of_user(user_id@);
    let test = |c: &Credential| -> (b: bool)
        ensures
            b == p(c@),
        { same(c.user_id.as_str(), user_id) };
    remove(&mut db.credentials, Ghost(p), test);
    clear_codes(db, user_id);
}

/// Why a second factor was not disabled.
#[derive(Clone, Copy, Debug, PartialEq, Eq, Structural)]
pub enum DisableError {
    /// The account has no confirmed second factor.
    NotEnabled,
    /// The code does not match.
    InvalidCode,
    /// The secret or the account name was refused.
    Other,
}

/// What disabling leaves, given whether the code matched as a one-time password.
pub open spec fn disabled(
    db: LedgerView,
    user_id: Seq<char>,
    matched: Option<bool>,
    code_hash: Seq<char>,
    now: i64,
) -> Result<LedgerView, DisableError> {
    if !any_row(db.credentials, confirmed(user_id)) {
        Err(DisableError::NotEnabled)
    } else {
        match accepted(db, user_id, matched, code_hash, now) {
            None => Err(DisableError::Other),
            Some((after, false)) => Err(DisableError::InvalidCode),
            Some((after, true)) => Ok(cleared(after, user_id)),
        }
    }
}

/// Disables a second factor, given whether the code matched as a one-time password.
pub fn disable_with(
    db: &mut Ledger,
    user_id: &str,
    matched: Option<bool>,
    code_hash: &str,
    now: i64,
) -> (r: Result<(), DisableError>)
    ensures
        match disabled(old(db)@, user_id@, matched, code_hash@, now) {
            Ok(after) => r is Ok && final(db)@ == after,
            Err(e) => r == Err::<(), DisableError>(e) && final(db)@ == old(db)@,
        },
{
    if !is_enabled(db, user_id) {
        return Err(DisableError::NotEnabled);
    }
    match accept_code(db, user_id, matched, code_hash, now) {
        None => Err(DisableError::Other),
        Some(ok) => {
            if !ok {
                return Err(DisableError::InvalidCode);
            }
            force_disable_for_user(db, user_id);
            Ok(())
        },
    }
}

/// Disables a second factor with a live code or, by its hash, a recovery code.
pub fn disable(
    db: &mut Ledger,
    user_id: &str,
    account_name: &str,
    code: &str,
    code_hash: &str,
    now: i64,
) -> (r: Result<(), DisableError>)
    requires
        0 <= now,
    ensures
        match disabled(
            old(db)@,
            user_id@,
            live_match(old(db)@, user_id@, account_name@, code@, now),
            code_hash@,
            now,
        ) {
            Ok(after) => r is Ok && final(db)@ == after,
            Err(e) => r == Err::<(), DisableError>(e) && final(db)@ == old(db)@,
        },
{
    let matched = match_code(db, user_id, account_name, code, now);
    disable_with(db, user_id, matched, code_hash, now)
}

/// Why a login challenge was not met.
#[derive(Clone, Copy, Debug, PartialEq, Eq, Structural)]
pub enum ChallengeVerifyError {
    /// The challenge is unknown, has expired, or has used its attempts up.
    ExpiredOrExhausted,
    /// The code does not match.
    InvalidCode,
    /// The account's name could not be looked up.
    Db(DbError),
    /// The secret or the account name was refused.
    Other,
}

/// A challenge as it is created: no attempt made.
pub open spec fn new_challenge(id: Seq<char>, user_id: Seq<char>, expires_at: i64, now: i64) -> ChallengeView {
    ChallengeView { id, user_id, created_at: now, expires_at, attempts: 0 }
}

/// Creates a login challenge for an account whose password was right; its id.
pub fn create_challenge(db: &mut Ledger, user_id: &str, now: i64) -> (r: Result<String, DbError>)
    ensures
        match stored(now + CHALLENGE_TTL_SECS) {
            Ok(expires_at) => r is Ok && is_id(r->Ok_0@) && final(db)@ == (LedgerView {
                challenges: old(db)@.challenges.push(
                    new_challenge(r->Ok_0@, user_id@, expires_at, now),
                ),
                ..old(db)@
            }),
            Err(e) => r == Err::<String, DbError>(e) && final(db)@ == old(db)@,
        },
{
    let expires_at = match plus(now, CHALLENGE_TTL_SECS) {
        Ok(t) => t,
        Err(e) => {
            return Err(e);
        },
    };
    let id = new_id();
    insert(
        &mut db.challenges,
        Challenge {
            id: id.clone(),
            user_id: own(user_id),
            created_at: now,
            expires_at,
            attempts: 0,
        },
    );
    Ok(id)
}

/// The challenge has this id.
pub open spec fn challenge_by_id(id: Seq<char>) -> spec_fn(ChallengeView) -> bool {
    |c: ChallengeView| c.id == id
}

/// The challenge can still be met.
pub open spec fn is_open(c: ChallengeView, now: i64) -> bool {
    c.expires_at >= now && c.attempts < CHALLENGE_MAX_ATTEMPTS
}

/// The challenge with this id, where it can still be met.
pub open spec fn open_challenge(db: LedgerView, challenge_id: Seq<char>, now: i64) -> Option<
    ChallengeView,
> {
    match find_row(db.challenges, challenge_by_id(challenge_id)) {
        Some(c) => if is_open(c, now) {
            Some(c)
        } else {
            None
        },
        None => None,
    }
}

/// Without the challenge.
pub open spec fn withdrawn(db: LedgerView, challenge_id: Seq<char>) -> LedgerView {
    LedgerView {
        challenges: db.challenges.filter(|c: ChallengeView| !challenge_by_id(challenge_id)(c)),
        ..db
    }
}

/// After so many attempts.
pub open spec fn tried(attempts: i64) -> spec_fn(ChallengeView) -> ChallengeView {
    |c: ChallengeView| ChallengeView { attempts, ..c }
}

/// The ledger after a code was tried on a challenge, and the account that may log in, given whether
/// the code matched as a one-time password. A challenge that is met, or can no longer be, is gone;
/// a wrong code counts against it.
pub open spec fn challenged(
    db: LedgerView,
    challenge_id: Seq<char>,
    matched: Option<bool>,
    code_hash: Seq<char>,
    now: i64,
) -> (LedgerView, Result<Seq<char>, ChallengeVerifyError>) {
    match open_challenge(db, challenge_id, now) {
        None => (withdrawn(db, challenge_id), Err(ChallengeVerifyError::ExpiredOrExhausted)),
        Some(c) => match accepted(db, c.user_id, matched, code_hash, now) {
            None => (db, Err(ChallengeVerifyError::Other)),
            Some((after, true)) => (withdrawn(after, challenge_id), Ok(c.user_id)),
            Some((after, false)) => (
                LedgerView {
                    challenges: updated(
                        after.challenges,
                        challenge_by_id(challenge_id),
                        tried((c.attempts + 1) as i64),
                    ),
                    ..after
                },
                Err(ChallengeVerifyError::InvalidCode),
            ),
        },
    }
}

/// Drops a challenge.
fn withdraw(db: &mut Ledger, challenge_id: &str)
    ensures
        final(db)@ == withdrawn(old(db)@, challenge_id@),
{
    let ghost p = challenge_by_id(challenge_id@);
    let test = |c: &Challenge| -> (b: bool)
        ensures
            b == p(c@),
        { same(c.id.as_str(), challenge_id) };
    remove(&mut db.challenges, Ghost(p), test);
}

/// The challenge with this id, where it can still be met.
fn find_open<'a>(db: &'a Ledger, challenge_id: &str, now: i64) -> (r: Option<&'a Challenge>)
    ensures
        match r {
            Some(c) => open_challenge(db@, challenge_id@, now) == Some(c@),
            None => open_challenge(db@, challenge_id@, now) is None,
        },
{
    let ghost p = challenge_by_id(challenge_id@);
    let test = |c: &Challenge| -> (b: bool)
        ensures
            b == p(c@),
        { same(c.id.as_str(), challenge_id) };
    match find(&db.challenges, Ghost(p), test) {
        Some(c) => if c.expires_at >= now && c.attempts < CHALLENGE_MAX_ATTEMPTS {
            Some(c)
        } else {
            None
        },
        None => None,
    }
}

/// Tries a code on a challenge, given whether it matched as a one-time password; the account that
/// may log in.
pub fn verify_challenge_with(
    db: &mut Ledger,
    challenge_id: &str,
    matched: Option<bool>,
    code_hash: &str,
    now: i64,
) -> (r: Result<String, ChallengeVerifyError>)
    ensures
        challenged(old(db)@, challenge_id@, matched, code_hash@, now).0 == final(db)@,
        match challenged(old(db)@, challenge_id@, matched, code_hash@, now).1 {
            Ok(user_id) => r is Ok && r->Ok_0@ == user_id,
            Err(e) => r == Err::<String, ChallengeVerifyError>(e),
        },
{
    let (user_id, attempts) = match find_open(db, challenge_id, now) {
        Some(c) => (c.user_id.clone(), c.attempts + 1),
        None => {
            withdraw(db, challenge_id);
            return Err(ChallengeVerifyError::ExpiredOrExhausted);
        },
    };
    match accept_code(db, user_id.as_str(), matched, code_hash, now) {
        None => Err(ChallengeVerifyError::Other),
        Some(ok) => {
            if ok {
                withdraw(db, challenge_id);
                return Ok(user_id);
            }
            let ghost p = challenge_by_id(challenge_id@);
            let ghost u = tried(attempts);
            let change = |c: &Challenge| -> (n: Option<Challenge>)
                ensures
                    match n {
                        Some(x) => p(c@) && x@ == u(c@),
                        None => !p(c@),
                    },
                {
                    if same(c.id.as_str(), challenge_id) {
                        let mut n = c.dup();
                        n.attempts = attempts;

                        Some(n)
                    } else {
                        None
                    }
                };
            update(&mut db.challenges, Ghost(p), Ghost(u), change);
            Err(ChallengeVerifyError::InvalidCode)
        },
    }
}

/// What looking up an account's name gave.
pub open spec fn looked_up<F: FnOnce(&str) -> Result<String, DbError>>(
    lookup: F,
    user_id: Seq<char>,
    name: Result<String, DbError>,
) -> bool {
    exists|u: &str| u@ == user_id && #[trigger] lookup.ensures((u,), name)
}

/// The text of a name that was looked up.
pub open spec fn text_of(name: Result<String, DbError>) -> Result<Seq<char>, DbError> {
    match name {
        Ok(n) => Ok(n@),
        Err(e) => Err(e),
    }
}

/// The ledger after a code was tried on a challenge, and the account that may log in, given what
/// looking up the account's name gave.
pub open spec fn challenged_by(
    db: LedgerView,
    challenge_id: Seq<char>,
    account_name: Result<Seq<char>, DbError>,
    code: Seq<char>,
    code_hash: Seq<char>,
    now: i64,
) -> (LedgerView, Result<Seq<char>, ChallengeVerifyError>) {
    match (open_challenge(db, challenge_id, now), account_name) {
        (Some(c), Err(e)) => (db, Err(ChallengeVerifyError::Db(e))),
        (Some(c), Ok(name)) => challenged(
            db,
            challenge_id,
            live_match(db, c.user_id, name, code, now),
            code_hash,
            now,
        ),
        (None, _) => challenged(db, challenge_id, None, code_hash, now),
    }
}

/// Tries a live code or, by its hash, a recovery code on a challenge; the account that may log in.
/// The account's name is looked up only where the challenge can still be met.
pub fn verify_challenge<F: FnOnce(&str) -> Result<String, DbError>>(
    db: &mut Ledger,
    challenge_id: &str,
    account_name_lookup: F,
    code: &str,
    code_hash: &str,
    now: i64,
) -> (r: Result<String, ChallengeVerifyError>)
    requires
        0 <= now,
        forall|u: &str| #[trigger] account_name_lookup.requires((u,)),
    ensures
        match open_challenge(old(db)@, challenge_id@, now) {
            None => final(db)@ == withdrawn(old(db)@, challenge_id@) && r == Err::<
                String,
                ChallengeVerifyError,
            >(ChallengeVerifyError::ExpiredOrExhausted),
            Some(c) => exists|name: Result<String, DbError>| #[trigger]
                looked_up(account_name_lookup, c.user_id, name) && final(db)@ == challenged_by(
                    old(db)@,
                    challenge_id@,
                    text_of(name),
                    code@,
                    code_hash@,
                    now,
                ).0 && (match challenged_by(
                    old(db)@,
                    challenge_id@,
                    text_of(name),
                    code@,
                    code_hash@,
                    now,
                ).1 {
                    Ok(user_id) => r is Ok && r->Ok_0@ == user_id,
                    Err(e) => r == Err::<String, ChallengeVerifyError>(e),
                }),
        },
{
    let user_id = match find_open(db, challenge_id, now) {
        Some(c) => c.user_id.clone(),
        None => {
            withdraw(db, challenge_id);
            return Err(ChallengeVerifyError::ExpiredOrExhausted);
        },
    };
    let name = account_name_lookup(user_id.as_str());
    let ghost given = name;
    assert(looked_up(account_name_lookup, user_id@, given));
    assert(text_of(given) is Err ==> challenged_by(
        db@,
        challenge_id@,
        text_of(given),
        code@,
        code_hash@,
        now,
    ).0 == db@);
    match name {
        Err(e) => Err(ChallengeVerifyError::Db(e)),
        Ok(account_name) => {
            let matched = match_code(db, user_id.as_str(), account_name.as_str(), code, now);
            verify_challenge_with(db, challenge_id, matched, code_hash, now)
        },
    }
}

/// Why fresh recovery codes were not handed out.
#[derive(Clone, Copy, Debug, PartialEq, Eq, Structural)]
pub enum RegenerateError {
    /// The account has no confirmed second factor.
    NotEnabled,
    /// The code does not match.
    InvalidCode,
    /// The secret or the account name was refused.
    Other,
}

/// What handing out fresh recovery codes leaves, given whether the code matched as a one-time
/// password: the account's earlier codes are gone.
pub open spec fn regenerated(
    db: LedgerView,
    user_id: Seq<char>,
    matched: Option<bool>,
    code_hash: Seq<char>,
    ids: Seq<Seq<char>>,
    codes: Seq<NewCodeView>,
    now: i64,
) -> Result<LedgerView, RegenerateError> {
    if !any_row(db.credentials, confirmed(user_id)) {
        Err(RegenerateError::NotEnabled)
    } else {
        match accepted(db, user_id, matched, code_hash, now) {
            None => Err(RegenerateError::Other),
            Some((after, false)) => Err(RegenerateError::InvalidCode),
            Some((after, true)) => {
                let bare = without_codes(after, user_id);
                Ok(
                    LedgerView {
                        recovery_codes: bare.recovery_codes + new_codes(user_id, ids, codes, now),
                        ..bare
                    },
                )
            },
        }
    }
}

/// Hands out fresh recovery codes, given whether the code matched as a one-time password.
pub fn regenerate_recovery_codes_with(
    db: &mut Ledger,
    user_id: &str,
    matched: Option<bool>,
    code_hash: &str,
    ids: Vec<String>,
    codes: &[NewCode; RECOVERY_CODE_COUNT],
    now: i64,
) -> (r: Result<Vec<String>, RegenerateError>)
    requires
        ids@.len() == RECOVERY_CODE_COUNT,
    ensures
        match regenerated(
            old(db)@,
            user_id@,
            matched,
            code_hash@,
            ids.deep_view(),
            rows(codes@),
            now,
        ) {
            Ok(after) => r is Ok && r->Ok_0.deep_view() == raw_codes(rows(codes@)) && final(db)@
                == after,
            Err(e) => r == Err::<Vec<String>, RegenerateError>(e) && final(db)@ == old(db)@,
        },
{
    if !is_enabled(db, user_id) {
        return Err(RegenerateError::NotEnabled);
    }
    match accept_code(db, user_id, matched, code_hash, now) {
        None => {
            return Err(RegenerateError::Other);
        },
        Some(ok) => {
            if !ok {
                return Err(RegenerateError::InvalidCode);
            }
        },
    }
    clear_codes(db, user_id);
    Ok(issue(&mut db.recovery_codes, user_id, ids, codes, now))
}

/// What handing out fresh recovery codes against this code leaves.
pub open spec fn regenerated_by(
    db: LedgerView,
    user_id: Seq<char>,
    account_name: Seq<char>,
    code: Seq<char>,
    code_hash: Seq<char>,
    ids: Seq<Seq<char>>,
    codes: Seq<NewCodeView>,
    now: i64,
) -> Result<LedgerView, RegenerateError> {
    regenerated(
        db,
        user_id,
        live_match(db, user_id, account_name, code, now),
        code_hash,
        ids,
        codes,
        now,
    )
}

/// Hands out fresh recovery codes against a live code or, by its hash, a recovery code.
pub fn regenerate_recovery_codes(
    db: &mut Ledger,
    user_id: &str,
    account_name: &str,
    code: &str,
    code_hash: &str,
    codes: &[NewCode; RECOVERY_CODE_COUNT],
    now: i64,
) -> (r: Result<Vec<String>, RegenerateError>)
    requires
        0 <= now,
    ensures
        exists|ids: Seq<Seq<char>>|
            are_ids(ids, RECOVERY_CODE_COUNT as nat) && match #[trigger] regenerated_by(
                old(db)@,
                user_id@,
                account_name@,
                code@,
                code_hash@,
                ids,
                rows(codes@),
                now,
            ) {
                Ok(after) => r is Ok && r->Ok_0.deep_view() == raw_codes(rows(codes@))
                    && final(db)@ == after,
                Err(e) => r == Err::<Vec<String>, RegenerateError>(e) && final(db)@ == old(db)@,
            },
{
    let ids = new_ids(RECOVERY_CODE_COUNT);
    let ghost outcome = regenerated_by(
        db@,
        user_id@,
        account_name@,
        code@,
        code_hash@,
        ids.deep_view(),
        rows(codes@),
        now,
    );
    assert(outcome is Ok || outcome is Err);
    let matched = match_code(db, user_id, account_name, code, now);
    regenerate_recovery_codes_with(db, user_id, matched, code_hash, ids, codes, now)
}

/// A setup on its own does not enable the second factor: an account without a confirmed credential
/// has none after it either.
pub proof fn law_setup_enables_nothing(
    db: LedgerView,
    user_id: Seq<char>,
    secret: Seq<char>,
    now: i64,
)
    requires
        !any_row(db.credentials, confirmed(user_id)),
    ensures
        !any_row(begun(db, user_id, secret, now).credentials, confirmed(user_id)),
{
    let after = begun(db, user_id, secret, now).credentials;
    assert forall|i: int| 0 <= i < after.len() implies !confirmed(user_id)(#[trigger] after[i]) by {
        if i < db.credentials.len() {
            assert(!confirmed(user_id)(db.credentials[i]));
        }
    }
}

/// A setup does not touch a confirmed credential: the second factor that is enabled stays.
pub proof fn law_setup_keeps_what_is_confirmed(
    db: LedgerView,
    user_id: Seq<char>,
    secret: Seq<char>,
    now: i64,
)
    requires
        any_row(db.credentials, confirmed(user_id)),
        !any_row(db.credentials, pending(user_id)),
    ensures
        begun(db, user_id, secret, now) == db,
{
    let i = choose|i: int|
        0 <= i < db.credentials.len() && confirmed(user_id)(#[trigger] db.credentials[i]);
    assert(of_user(user_id)(db.credentials[i]));
    lemma_updated_none(db.credentials, pending(user_id), replaced(secret, now));
}

/// A wrong code confirms nothing; the right one enables the second factor and hands the recovery
/// codes out, all of them unused.
pub proof fn law_only_the_right_code_confirms(
    db: LedgerView,
    user_id: Seq<char>,
    matched: Option<bool>,
    ids: Seq<Seq<char>>,
    codes: Seq<NewCodeView>,
    now: i64,
)
    requires
        any_row(db.credentials, pending(user_id)),
    ensures
        (confirmed_with(db, user_id, matched, ids, codes, now) is Ok) == (matched == Some(true)),
        confirmed_with(db, user_id, matched, ids, codes, now) matches Ok(after) ==> {
            &&& any_row(after.credentials, confirmed(user_id))
            &&& !any_row(after.credentials, pending(user_id))
            &&& after.recovery_codes.len() == db.recovery_codes.len() + codes.len()
            &&& forall|i: int|
                0 <= i < codes.len() ==> unused(user_id)(
                    #[trigger] after.recovery_codes[db.recovery_codes.len() + i],
                )
        },
{
    if let Ok(after) = confirmed_with(db, user_id, matched, ids, codes, now) {
        let k = choose|k: int|
            0 <= k < db.credentials.len() && pending(user_id)(#[trigger] db.credentials[k]);
        assert(confirmed(user_id)(after.credentials[k]));
        assert forall|i: int| 0 <= i < after.credentials.len() implies !pending(user_id)(
            #[trigger] after.credentials[i],
        ) by {}
    }
}

/// A recovery code is accepted once, unless another unused one of the account has the same hash.
pub proof fn law_recovery_code_is_used_once(
    db: LedgerView,
    user_id: Seq<char>,
    code_hash: Seq<char>,
    now: i64,
    later: i64,
)
    requires
        accepted(db, user_id, Some(false), code_hash, now) matches Some((after, true)),
        forall|i: int|
            0 <= i < db.recovery_codes.len() && usable(user_id, code_hash)(
                #[trigger] db.recovery_codes[i],
            ) ==> db.recovery_codes[i].id == find_row(
                db.recovery_codes,
                usable(user_id, code_hash),
            )->0.id,
    ensures
        ({
            let after = (accepted(db, user_id, Some(false), code_hash, now)->0).0;
            accepted(after, user_id, Some(false), code_hash, later) == Some((after, false))
        }),
{
    let q = usable(user_id, code_hash);
    let c = find_row(db.recovery_codes, q)->0;
    let after = updated(db.recovery_codes, code_by_id(c.id), used(now));
    assert forall|i: int| 0 <= i < after.len() implies !q(#[trigger] after[i]) by {
        assert(q(db.recovery_codes[i]) ==> db.recovery_codes[i].id == c.id);
    }
    lemma_find_any(after, q);
}

/// A one-time password uses no recovery code up.
pub proof fn law_one_time_password_spends_nothing(
    db: LedgerView,
    user_id: Seq<char>,
    code_hash: Seq<char>,
    now: i64,
)
    ensures
        accepted(db, user_id, Some(true), code_hash, now) == Some((db, true)),
{
}

/// A cleared account has no second factor and no recovery code, and no other account is touched.
pub proof fn law_clearing_clears(db: LedgerView, user_id: Seq<char>, other: Seq<char>)
    requires
        user_id != other,
    ensures
        ({
            let after = cleared(db, user_id);
            &&& !any_row(after.credentials, of_user(user_id))
            &&& !any_row(after.credentials, confirmed(user_id))
            &&& after.recovery_codes.filter(unused(user_id)).len() == 0
            &&& find_row(after.credentials, of_user(other)) == find_row(
                db.credentials,
                of_user(other),
            )
            &&& find_row(after.recovery_codes, code_of(other)) == find_row(
                db.recovery_codes,
                code_of(other),
            )
        }),
{
    let keep = |c: CredentialView| !of_user(user_id)(c);
    let keep_code = |c: RecoveryCodeView| !code_of(user_id)(c);
    lemma_filter_rules_out(db.credentials, keep, of_user(user_id));
    lemma_filter_rules_out(db.credentials, keep, confirmed(user_id));
    lemma_filter_rules_out(db.recovery_codes, keep_code, unused(user_id));
    crate::table::lemma_filter_empty(db.recovery_codes.filter(keep_code), unused(user_id));
    lemma_find_filter(db.credentials, keep, of_user(other));
    lemma_find_filter(db.recovery_codes, keep_code, code_of(other));
}

/// A challenge that was met, or can no longer be, is gone: it is not met a second time.
pub proof fn law_challenge_is_met_once(
    db: LedgerView,
    challenge_id: Seq<char>,
    first: Option<bool>,
    second: Option<bool>,
    code_hash: Seq<char>,
    again: Seq<char>,
    now: i64,
    later: i64,
)
    requires
        challenged(db, challenge_id, first, code_hash, now).1 is Ok || challenged(
            db,
            challenge_id,
            first,
            code_hash,
            now,
        ).1 == Err::<Seq<char>, ChallengeVerifyError>(ChallengeVerifyError::ExpiredOrExhausted),
    ensures
        challenged(
            challenged(db, challenge_id, first, code_hash, now).0,
            challenge_id,
            second,
            again,
            later,
        ).1 == Err::<Seq<char>, ChallengeVerifyError>(ChallengeVerifyError::ExpiredOrExhausted),
{
    lemma_filter_rules_out(
        db.challenges,
        |c: ChallengeView| !challenge_by_id(challenge_id)(c),
        challenge_by_id(challenge_id),
    );
}

/// A wrong code counts against its challenge, and the last that is allowed exhausts it.
pub proof fn law_wrong_codes_exhaust_a_challenge(
    db: LedgerView,
    challenge_id: Seq<char>,
    matched: Option<bool>,
    code_hash: Seq<char>,
    now: i64,
)
    requires
        challenged(db, challenge_id, matched, code_hash, now).1 == Err::<
            Seq<char>,
            ChallengeVerifyError,
        >(ChallengeVerifyError::InvalidCode),
    ensures
        ({
            let c = find_row(db.challenges, challenge_by_id(challenge_id))->0;
            let after = challenged(db, challenge_id, matched, code_hash, now).0;
            &&& find_row(after.challenges, challenge_by_id(challenge_id)) == Some(
                ChallengeView { attempts: (c.attempts + 1) as i64, ..c },
            )
            &&& c.attempts + 1 >= CHALLENGE_MAX_ATTEMPTS ==> open_challenge(
                after,
                challenge_id,
                now,
            ) is None
        }),
{
    let c = find_row(db.challenges, challenge_by_id(challenge_id))->0;
    lemma_find_any(db.challenges, challenge_by_id(challenge_id));
    lemma_find_updated(
        db.challenges,
        challenge_by_id(challenge_id),
        challenge_by_id(challenge_id),
        tried((c.attempts + 1) as i64),
    );
}

/// A challenge that was created can be met for as long as it lives.
pub proof fn law_created_challenge_is_open(
    db: LedgerView,
    id: Seq<char>,
    user_id: Seq<char>,
    now: i64,
    later: i64,
)
    requires
        !any_row(db.challenges, challenge_by_id(id)),
        stored(now + CHALLENGE_TTL_SECS) is Ok,
    ensures
        ({
            let row = new_challenge(id, user_id, (now + CHALLENGE_TTL_SECS) as i64, now);
            let after = LedgerView { challenges: db.challenges.push(row), ..db };
            open_challenge(after, id, later) == (if later <= now + CHALLENGE_TTL_SECS {
                Some(row)
            } else {
                None
            })
        }),
{
    let row = new_challenge(id, user_id, (now + CHALLENGE_TTL_SECS) as i64, now);
    lemma_find_any(db.challenges, challenge_by_id(id));
    lemma_find_push(db.challenges, row, challenge_by_id(id));
}

/// Fresh recovery codes put an end to the earlier ones: what is accepted from then on as a recovery
/// code is one of the fresh.
pub proof fn law_fresh_codes_replace_the_old(
    db: LedgerView,
    user_id: Seq<char>,
    matched: Option<bool>,
    code_hash: Seq<char>,
    ids: Seq<Seq<char>>,
    codes: Seq<NewCodeView>,
    old_hash: Seq<char>,
    now: i64,
    later: i64,
)
    requires
        regenerated(db, user_id, matched, code_hash, ids, codes, now) is Ok,
        forall|i: int| 0 <= i < codes.len() ==> (#[trigger] codes[i]).hash != old_hash,
    ensures
        ({
            let after = regenerated(db, user_id, matched, code_hash, ids, codes, now)->Ok_0;
            accepted(after, user_id, Some(false), old_hash, later) == Some((after, false))
        }),
{
    let after = regenerated(db, user_id, matched, code_hash, ids, codes, now)->Ok_0;
    let kept = (accepted(db, user_id, matched, code_hash, now)->0).0;
    let keep = |c: RecoveryCodeView| !code_of(user_id)(c);
    let left = kept.recovery_codes.filter(keep);
    let fresh = new_codes(user_id, ids, codes, now);
    lemma_filter_meets(kept.recovery_codes, keep);
    let q = usable(user_id, old_hash);
    assert forall|i: int| 0 <= i < after.recovery_codes.len() implies !q(
        #[trigger] after.recovery_codes[i],
    ) by {
        if i < left.len() {
            assert(after.recovery_codes[i] == left[i]);
            assert(keep(left[i]));
        } else {
            assert(after.recovery_codes[i] == fresh[i - left.len()]);
            assert(codes[i - left.len()].hash != old_hash);
        }
    }
    lemma_find_any(after.recovery_codes, q);
}

/// One try at a challenge: what looking up the account's name gave, the code, its hash, and when.
#[verifier::ext_equal]
pub struct Attempt {
    pub account_name: Result<Seq<char>, DbError>,
    pub code: Seq<char>,
    pub code_hash: Seq<char>,
    pub at: i64,
}

/// What a try at a challenge leaves and answers.
pub open spec fn answered(db: LedgerView, challenge_id: Seq<char>, t: Attempt) -> (
    LedgerView,
    Result<Seq<char>, ChallengeVerifyError>,
) {
    challenged_by(db, challenge_id, t.account_name, t.code, t.code_hash, t.at)
}

/// The ledger after the first `n` of some tries at a challenge.
pub open spec fn after_tries(
    db: LedgerView,
    challenge_id: Seq<char>,
    tries: Seq<Attempt>,
    n: nat,
) -> LedgerView
    decreases n,
{
    if n == 0 {
        db
    } else {
        answered(
            after_tries(db, challenge_id, tries, (n - 1) as nat),
            challenge_id,
            tries[n - 1],
        ).0
    }
}

/// How many of the first `n` tries were answered that the code is wrong.
pub open spec fn wrong_tries(
    db: LedgerView,
    challenge_id: Seq<char>,
    tries: Seq<Attempt>,
    n: nat,
) -> nat
    decreases n,
{
    if n == 0 {
        0
    } else {
        let before = after_tries(db, challenge_id, tries, (n - 1) as nat);
        wrong_tries(db, challenge_id, tries, (n - 1) as nat) + (if answered(
            before,
            challenge_id,
            tries[n - 1],
        ).1 == Err::<Seq<char>, ChallengeVerifyError>(ChallengeVerifyError::InvalidCode) {
            1nat
        } else {
            0nat
        })
    }
}

/// A challenge is closed: it never was, is gone, has expired, or has no attempt left. Whatever code
/// is tried then, the right one too, is answered alike: the challenge is over, no recovery code is
/// used up, and no row of the challenge is left, so that it stays closed.
pub proof fn law_closed_challenge_stays_closed(
    db: LedgerView,
    challenge_id: Seq<char>,
    t: Attempt,
    later: i64,
)
    requires
        open_challenge(db, challenge_id, t.at) is None,
    ensures
        ({
            let (after, answer) = answered(db, challenge_id, t);
            &&& answer == Err::<Seq<char>, ChallengeVerifyError>(
                ChallengeVerifyError::ExpiredOrExhausted,
            )
            &&& after.recovery_codes == db.recovery_codes
            &&& !any_row(after.challenges, challenge_by_id(challenge_id))
            &&& open_challenge(after, challenge_id, later) is None
        }),
{
    lemma_filter_rules_out(
        db.challenges,
        |c: ChallengeView| !challenge_by_id(challenge_id)(c),
        challenge_by_id(challenge_id),
    );
}

/// A try leaves a challenge gone, or with one attempt more where the code was wrong.
proof fn lemma_try_counts(db: LedgerView, challenge_id: Seq<char>, t: Attempt)
    ensures
        ({
            let was = find_row(db.challenges, challenge_by_id(challenge_id));
            let (after, answer) = answered(db, challenge_id, t);
            match find_row(after.challenges, challenge_by_id(challenge_id)) {
                None => true,
                Some(c) => was is Some && c.attempts == was->0.attempts + (if answer == Err::<
                    Seq<char>,
                    ChallengeVerifyError,
                >(ChallengeVerifyError::InvalidCode) {
                    1int
                } else {
                    0int
                }),
            }
        }),
{
    lemma_filter_rules_out(
        db.challenges,
        |c: ChallengeView| !challenge_by_id(challenge_id)(c),
        challenge_by_id(challenge_id),
    );
    if let Some(c) = open_challenge(db, challenge_id, t.at) {
        lemma_find_any(db.challenges, challenge_by_id(challenge_id));
        lemma_find_updated(
            db.challenges,
            challenge_by_id(challenge_id),
            challenge_by_id(challenge_id),
            tried((c.attempts + 1) as i64),
        );
        if let Ok(name) = t.account_name {
            if let Some((after, ok)) = accepted(
                db,
                c.user_id,
                live_match(db, c.user_id, name, t.code, t.at),
                t.code_hash,
                t.at,
            ) {
                assert(after.challenges == db.challenges);
            }
        }
    }
}

proof fn lemma_tries_count(db: LedgerView, challenge_id: Seq<char>, tries: Seq<Attempt>, n: nat)
    requires
        n <= tries.len(),
    ensures
        match find_row(
            after_tries(db, challenge_id, tries, n).challenges,
            challenge_by_id(challenge_id),
        ) {
            None => true,
            Some(c) => find_row(db.challenges, challenge_by_id(challenge_id)) is Some && c.attempts
                == find_row(db.challenges, challenge_by_id(challenge_id))->0.attempts + wrong_tries(
                db,
                challenge_id,
                tries,
                n,
            ),
        },
    decreases n,
{
    if n > 0 {
        lemma_tries_count(db, challenge_id, tries, (n - 1) as nat);
        lemma_try_counts(
            after_tries(db, challenge_id, tries, (n - 1) as nat),
            challenge_id,
            tries[n - 1],
        );
    }
}

/// Wrong codes close a challenge, whatever was tried between them, as soon as they make the attempts
/// up that it outlives: every further code, the right one too, is answered that the challenge is
/// over, uses up no recovery code, and leaves no row of the challenge.
pub proof fn law_wrong_codes_close_a_challenge(
    db: LedgerView,
    challenge_id: Seq<char>,
    tries: Seq<Attempt>,
    further: Attempt,
)
    requires
        find_row(db.challenges, challenge_by_id(challenge_id)) matches Some(c) ==> c.attempts
            + wrong_tries(db, challenge_id, tries, tries.len()) >= CHALLENGE_MAX_ATTEMPTS,
    ensures
        ({
            let before = after_tries(db, challenge_id, tries, tries.len());
            let (after, answer) = answered(before, challenge_id, further);
            &&& answer == Err::<Seq<char>, ChallengeVerifyError>(
                ChallengeVerifyError::ExpiredOrExhausted,
            )
            &&& after.recovery_codes == before.recovery_codes
            &&& !any_row(after.challenges, challenge_by_id(challenge_id))
        }),
{
    lemma_tries_count(db, challenge_id, tries, tries.len());
    law_closed_challenge_stays_closed(
        after_tries(db, challenge_id, tries, tries.len()),
        challenge_id,
        further,
        further.at,
    );
}

/// The attempts of every challenge are counted up from none.
pub open spec fn attempts_counted(db: LedgerView) -> bool {
    forall|i: int| 0 <= i < db.challenges.len() ==> (#[trigger] db.challenges[i]).attempts >= 0
}

/// Creating a challenge and trying a code on one keep attempts counted up from none.
pub proof fn law_attempts_stay_counted(
    db: LedgerView,
    id: Seq<char>,
    user_id: Seq<char>,
    expires_at: i64,
    now: i64,
    challenge_id: Seq<char>,
    t: Attempt,
)
    requires
        attempts_counted(db),
    ensures
        attempts_counted(
            LedgerView {
                challenges: db.challenges.push(new_challenge(id, user_id, expires_at, now)),
                ..db
            },
        ),
        attempts_counted(answered(db, challenge_id, t).0),
{
    let keep = |c: ChallengeView| !challenge_by_id(challenge_id)(c);
    let left = db.challenges.filter(keep);
    assert forall|i: int| 0 <= i < left.len() implies (#[trigger] left[i]).attempts >= 0 by {
        assert(left.contains(left[i]));
        lemma_filter_contains(db.challenges, keep, left[i]);
    }
    if let Some(c) = open_challenge(db, challenge_id, t.at) {
        lemma_find_any(db.challenges, challenge_by_id(challenge_id));
        if let Ok(name) = t.account_name {
            if let Some((after, ok)) = accepted(
                db,
                c.user_id,
                live_match(db, c.user_id, name, t.code, t.at),
                t.code_hash,
                t.at,
            ) {
                assert(after.challenges == db.challenges);
            }
        }
    }
}

/// Five wrong codes close a challenge, whatever was tried between them.
pub proof fn law_five_wrong_codes_close_a_challenge(
    db: LedgerView,
    challenge_id: Seq<char>,
    tries: Seq<Attempt>,
    further: Attempt,
)
    requires
        attempts_counted(db),
        wrong_tries(db, challenge_id, tries, tries.len()) >= 5,
    ensures
        ({
            let before = after_tries(db, challenge_id, tries, tries.len());
            let (after, answer) = answered(before, challenge_id, further);
            &&& answer == Err::<Seq<char>, ChallengeVerifyError>(
                ChallengeVerifyError::ExpiredOrExhausted,
            )
            &&& after.recovery_codes == before.recovery_codes
            &&& !any_row(after.challenges, challenge_by_id(challenge_id))
        }),
{
    lemma_find_any(db.challenges, challenge_by_id(challenge_id));
    law_wrong_codes_close_a_challenge(db, challenge_id, tries, further);
}

/// A challenge that was met is closed to every further code, as one is that has expired or never
/// was.
pub proof fn law_met_or_expired_challenge_is_closed(
    db: LedgerView,
    challenge_id: Seq<char>,
    t: Attempt,
    further: Attempt,
)
    ensures
        answered(db, challenge_id, t).1 is Ok ==> open_challenge(
            answered(db, challenge_id, t).0,
            challenge_id,
            further.at,
        ) is None,
        find_row(db.challenges, challenge_by_id(challenge_id)) matches Some(c) && c.expires_at
            < further.at ==> open_challenge(db, challenge_id, further.at) is None,
        !any_row(db.challenges, challenge_by_id(challenge_id)) ==> open_challenge(
            db,
            challenge_id,
            further.at,
        ) is None,
{
    lemma_find_any(db.challenges, challenge_by_id(challenge_id));
    lemma_filter_rules_out(
        db.challenges,
        |c: ChallengeView| !challenge_by_id(challenge_id)(c),
        challenge_by_id(challenge_id),
    );
    if let Some(c) = open_challenge(db, challenge_id, t.at) {
        if let Ok(name) = t.account_name {
            if let Some((after, ok)) = accepted(
                db,
                c.user_id,
                live_match(db, c.user_id, name, t.code, t.at),
                t.code_hash,
                t.at,
            ) {
                assert(after.challenges == db.challenges);
            }
        }
    }
}

/// A setup starts a credential that waits for confirmation, takes the place of one that waits, and
/// leaves one that counts, and everybody else's, as they are.
pub proof fn law_setup_starts_afresh(
    db: LedgerView,
    user_id: Seq<char>,
    secret: Seq<char>,
    now: i64,
    k: int,
)
    ensures
        ({
            let after = begun(db, user_id, secret, now);
            let fresh = CredentialView { user_id, secret, confirmed_at: None, created_at: now };
            let known = any_row(db.credentials, |c: CredentialView| c.user_id == user_id);
            &&& after == (LedgerView { credentials: after.credentials, ..db })
            &&& !known ==> after.credentials == db.credentials.push(fresh)
            &&& known ==> after.credentials.len() == db.credentials.len()
            &&& known && 0 <= k < db.credentials.len() ==> {
                let c = db.credentials[k];
                after.credentials[k] == (if c.user_id == user_id && c.confirmed_at is None {
                    fresh
                } else {
                    c
                })
            }
        }),
{
    lemma_any_same(
        db.credentials,
        |c: CredentialView| c.user_id == user_id,
        of_user(user_id),
    );
}

/// One-time passwords are those of six digits, from steps of half a minute with one step of slack
/// either way, of the account's secret, under the ledger's own name; an authenticator is told the
/// same. Without a credential that counts, no code is one.
pub proof fn law_one_time_passwords_are_the_standard_ones(
    db: LedgerView,
    user_id: Seq<char>,
    account_name: Seq<char>,
    secret: Seq<char>,
    code: Seq<char>,
    now: i64,
    k: int,
)
    requires
        only(
            db.credentials,
            k,
            |c: CredentialView| c.user_id == user_id && c.confirmed_at is Some,
        ) || (forall|j: int|
            0 <= j < db.credentials.len() ==> (#[trigger] db.credentials[j]).user_id != user_id
                || db.credentials[j].confirmed_at is None),
    ensures
        live_match(db, user_id, account_name, code, now) == (if 0 <= k < db.credentials.len()
            && db.credentials[k].user_id == user_id && db.credentials[k].confirmed_at is Some {
            totp_match(
                db.credentials[k].secret,
                "Owner's Cock Ledger"@,
                account_name,
                6,
                1,
                30,
                code,
                now as u64,
            )
        } else {
            Some(false)
        }),
        set_up_from(db, user_id, account_name, secret, now) == set_up(
            db,
            user_id,
            secret,
            totp_url(secret, "Owner's Cock Ledger"@, account_name, 6, 30),
            totp_qr(secret, "Owner's Cock Ledger"@, account_name, 6, 30),
            now,
        ),
{
    let counts = |c: CredentialView| c.user_id == user_id && c.confirmed_at is Some;
    if 0 <= k < db.credentials.len() && counts(db.credentials[k]) {
        lemma_find_only(db.credentials, k, counts, confirmed(user_id));
    } else {
        lemma_find_any(db.credentials, confirmed(user_id));
    }
}

/// A setup shows what it was given, where an authenticator takes it, and refuses otherwise.
pub proof fn law_setup_shows_the_secret(
    db: LedgerView,
    user_id: Seq<char>,
    secret: Seq<char>,
    url: Option<Seq<char>>,
    qr: Option<Seq<char>>,
    now: i64,
)
    ensures
        match set_up(db, user_id, secret, url, qr, now) {
            Err(e) => e == SetupError::Other && (url is None || qr is None),
            Ok((after, shown)) => {
                &&& url == Some(shown.otpauth_uri) && qr == Some(shown.qr_png_base64)
                &&& shown.secret_base32 == secret
                &&& after == begun(db, user_id, secret, now)
            },
        },
{
}

/// A confirmation needs a setup that waits and the right code. It makes the credential count from
/// now on and hands out the recovery codes, unused, in the order they were made.
pub proof fn law_confirmation_hands_out_the_codes(
    db: LedgerView,
    user_id: Seq<char>,
    matched: Option<bool>,
    ids: Seq<Seq<char>>,
    codes: Seq<NewCodeView>,
    now: i64,
    k: int,
)
    requires
        0 <= k < db.credentials.len(),
    ensures
        ({
            let waits = any_row(
                db.credentials,
                |c: CredentialView| c.user_id == user_id && c.confirmed_at is None,
            );
            match confirmed_with(db, user_id, matched, ids, codes, now) {
                Err(ConfirmError::NoPendingSetup) => !waits,
                Err(ConfirmError::InvalidCode) => waits && matched == Some(false),
                Err(_) => waits && matched is None,
                Ok(after) => {
                    let c = db.credentials[k];
                    let old = db.recovery_codes.len() as int;
                    &&& waits && matched == Some(true)
                    &&& after == (LedgerView {
                        credentials: after.credentials,
                        recovery_codes: after.recovery_codes,
                        ..db
                    })
                    &&& after.credentials.len() == db.credentials.len()
                    &&& after.credentials[k] == (if c.user_id == user_id {
                        CredentialView { confirmed_at: Some(now), ..c }
                    } else {
                        c
                    })
                    &&& after.recovery_codes.len() == old + codes.len()
                    &&& forall|i: int|
                        0 <= i < old ==> #[trigger] after.recovery_codes[i]
                            == db.recovery_codes[i]
                    &&& forall|i: int|
                        0 <= i < codes.len() ==> #[trigger] after.recovery_codes[old + i] == (
                        RecoveryCodeView {
                            id: ids[i],
                            user_id,
                            code_hash: codes[i].hash,
                            created_at: now,
                            used_at: None,
                        })
                },
            }
        }),
        raw_codes(codes).len() == codes.len(),
        forall|i: int| 0 <= i < codes.len() ==> #[trigger] raw_codes(codes)[i] == codes[i].raw,
{
    lemma_any_same(
        db.credentials,
        |c: CredentialView| c.user_id == user_id && c.confirmed_at is None,
        pending(user_id),
    );
}

/// A code is accepted as a one-time password, and spends nothing then, or as one of the account's
/// own unused recovery codes, which it uses up; a code that is neither is refused.
pub proof fn law_a_recovery_code_stands_in(
    db: LedgerView,
    user_id: Seq<char>,
    matched: Option<bool>,
    code_hash: Seq<char>,
    now: i64,
    k: int,
)
    requires
        only(
            db.recovery_codes,
            k,
            |c: RecoveryCodeView|
                c.user_id == user_id && c.code_hash == code_hash && c.used_at is None,
        ) || (forall|j: int|
            0 <= j < db.recovery_codes.len() ==> (#[trigger] db.recovery_codes[j]).user_id
                != user_id || db.recovery_codes[j].code_hash != code_hash
                || db.recovery_codes[j].used_at is Some),
    ensures
        ({
            let there = 0 <= k < db.recovery_codes.len() && db.recovery_codes[k].user_id == user_id
                && db.recovery_codes[k].code_hash == code_hash
                && db.recovery_codes[k].used_at is None;
            match accepted(db, user_id, matched, code_hash, now) {
                None => matched is None,
                Some((after, ok)) => {
                    &&& matched is Some
                    &&& ok == (matched == Some(true) || there)
                    &&& matched == Some(true) || !there ==> after == db
                    &&& matched == Some(false) && there ==> {
                        &&& after == (LedgerView { recovery_codes: after.recovery_codes, ..db })
                        &&& after.recovery_codes.len() == db.recovery_codes.len()
                        &&& after.recovery_codes[k] == (RecoveryCodeView {
                            used_at: Some(now),
                            ..db.recovery_codes[k]
                        })
                        &&& forall|j: int|
                            0 <= j < db.recovery_codes.len() && db.recovery_codes[j].id
                                != db.recovery_codes[k].id ==> #[trigger] after.recovery_codes[j]
                                == db.recovery_codes[j]
                    }
                },
            }
        }),
{
    let good = |c: RecoveryCodeView|
        c.user_id == user_id && c.code_hash == code_hash && c.used_at is None;
    if 0 <= k < db.recovery_codes.len() && good(db.recovery_codes[k]) {
        lemma_find_only(db.recovery_codes, k, good, usable(user_id, code_hash));
    } else {
        lemma_find_any(db.recovery_codes, usable(user_id, code_hash));
    }
}

/// Where an account stands: on where its credential counts, half-way where it waits, and with as many
/// recovery codes as it has unused.
pub proof fn law_standing_tells_what_is_there(db: LedgerView, user_id: Seq<char>, k: int)
    requires
        only(db.credentials, k, |c: CredentialView| c.user_id == user_id),
    ensures
        match standing(db, user_id) {
            Err(_) => true,
            Ok(s) => {
                &&& s.enabled <==> db.credentials[k].confirmed_at is Some
                &&& s.pending_setup <==> db.credentials[k].confirmed_at is None
                &&& s.recovery_codes_remaining == db.recovery_codes.filter(
                    |c: RecoveryCodeView| c.user_id == user_id && c.used_at is None,
                ).len()
            },
        },
        any_row(db.credentials, confirmed(user_id)) <==> db.credentials[k].confirmed_at is Some,
{
    let mine = |c: CredentialView| c.user_id == user_id;
    lemma_find_only(db.credentials, k, mine, of_user(user_id));
    assert(unused(user_id) =~= (|c: RecoveryCodeView|
        c.user_id == user_id && c.used_at is None));
    if any_row(db.credentials, confirmed(user_id)) {
        let j = choose|j: int|
            0 <= j < db.credentials.len() && confirmed(user_id)(#[trigger] db.credentials[j]);
        assert(mine(db.credentials[j]));
    }
    assert(confirmed(user_id)(db.credentials[k]) ==> any_row(
        db.credentials,
        confirmed(user_id),
    ));
}

/// Without a credential an account is neither on nor half-way.
pub proof fn law_nothing_set_up_nothing_on(db: LedgerView, user_id: Seq<char>)
    requires
        forall|j: int|
            0 <= j < db.credentials.len() ==> (#[trigger] db.credentials[j]).user_id != user_id,
    ensures
        standing(db, user_id) matches Ok(s) ==> !s.enabled && !s.pending_setup,
        !any_row(db.credentials, confirmed(user_id)),
{
    lemma_find_any(db.credentials, of_user(user_id));
}

/// Turning the second factor off takes a credential that counts and an accepted code, and then takes
/// the account's credential and recovery codes away, and nobody else's.
pub proof fn law_turning_off_takes_a_code(
    db: LedgerView,
    user_id: Seq<char>,
    matched: Option<bool>,
    code_hash: Seq<char>,
    now: i64,
    c: CredentialView,
)
    ensures
        ({
            let on = any_row(
                db.credentials,
                |c: CredentialView| c.user_id == user_id && c.confirmed_at is Some,
            );
            let tried = accepted(db, user_id, matched, code_hash, now);
            match disabled(db, user_id, matched, code_hash, now) {
                Err(DisableError::NotEnabled) => !on,
                Err(DisableError::InvalidCode) => on && tried is Some && !(tried->0).1,
                Err(_) => on && tried is None,
                Ok(after) => {
                    &&& on && tried is Some && (tried->0).1
                    &&& after.credentials.contains(c) <==> db.credentials.contains(c) && c.user_id
                        != user_id
                    &&& forall|x: RecoveryCodeView| #[trigger]
                        after.recovery_codes.contains(x) <==> (
                        tried->0).0.recovery_codes.contains(x) && x.user_id != user_id
                    &&& after == (LedgerView {
                        credentials: after.credentials,
                        recovery_codes: after.recovery_codes,
                        ..db
                    })
                },
            }
        }),
{
    lemma_any_same(
        db.credentials,
        |c: CredentialView| c.user_id == user_id && c.confirmed_at is Some,
        confirmed(user_id),
    );
    lemma_filter_contains(db.credentials, |c: CredentialView| !of_user(user_id)(c), c);
    let tried = accepted(db, user_id, matched, code_hash, now);
    if tried is Some {
        let kept = |x: RecoveryCodeView| !code_of(user_id)(x);
        let rows = (tried->0).0.recovery_codes;
        assert forall|x: RecoveryCodeView| #[trigger]
            rows.filter(kept).contains(x) <==> rows.contains(x) && x.user_id != user_id by {
            lemma_filter_contains(rows, kept, x);
        }
    }
}

/// A challenge is open for five minutes from when it is made, its last second with it, and for five
/// wrong codes.
pub proof fn law_challenges_last_five_minutes(
    id: Seq<char>,
    user_id: Seq<char>,
    now: i64,
    t: i64,
    c: ChallengeView,
)
    ensures
        match stored(now + CHALLENGE_TTL_SECS) {
            Err(_) => now + 300 > i64::MAX,
            Ok(at) => {
                let c = new_challenge(id, user_id, at, now);
                &&& c.id == id && c.user_id == user_id && c.created_at == now && c.attempts == 0
                &&& c.expires_at == now + 300
                &&& is_open(c, t) <==> t <= now + 300
            },
        },
        is_open(c, t) <==> t <= c.expires_at && c.attempts < 5,
{
}

/// What a try on a challenge comes to: the account may log in where the code is accepted, and the
/// challenge is gone; a wrong code counts one against it; one that is no longer open is gone.
pub proof fn law_a_try_is_counted(
    db: LedgerView,
    challenge_id: Seq<char>,
    matched: Option<bool>,
    code_hash: Seq<char>,
    now: i64,
    k: int,
    x: ChallengeView,
)
    requires
        only(db.challenges, k, |c: ChallengeView| c.id == challenge_id),
    ensures
        ({
            let c = db.challenges[k];
            let open = now <= c.expires_at && c.attempts < 5;
            let tried = accepted(db, c.user_id, matched, code_hash, now);
            let (after, answer) = challenged(db, challenge_id, matched, code_hash, now);
            &&& !open ==> {
                &&& answer == Err::<Seq<char>, ChallengeVerifyError>(
                    ChallengeVerifyError::ExpiredOrExhausted,
                )
                &&& after == (LedgerView { challenges: after.challenges, ..db })
                &&& after.challenges.contains(x) <==> db.challenges.contains(x) && x.id
                    != challenge_id
            }
            &&& open && tried is None ==> after == db && answer == Err::<
                Seq<char>,
                ChallengeVerifyError,
            >(ChallengeVerifyError::Other)
            &&& open && tried is Some && (tried->0).1 ==> {
                &&& answer == Ok::<Seq<char>, ChallengeVerifyError>(c.user_id)
                &&& after.recovery_codes == (tried->0).0.recovery_codes
                &&& after.challenges.contains(x) <==> db.challenges.contains(x) && x.id
                    != challenge_id
            }
            &&& open && tried is Some && !(tried->0).1 ==> {
                &&& answer == Err::<Seq<char>, ChallengeVerifyError>(
                    ChallengeVerifyError::InvalidCode,
                )
                &&& after.challenges.len() == db.challenges.len()
                &&& after.challenges[k].attempts == c.attempts + 1
                &&& after.challenges[k] == (ChallengeView {
                    attempts: after.challenges[k].attempts,
                    ..c
                })
                &&& forall|j: int|
                    0 <= j < db.challenges.len() && j != k ==> #[trigger] after.challenges[j]
                        == db.challenges[j]
            }
        }),
{
    let named = |c: ChallengeView| c.id == challenge_id;
    lemma_find_only(db.challenges, k, named, challenge_by_id(challenge_id));
    assert forall|j: int| 0 <= j < db.challenges.len() && j != k implies (
    #[trigger] db.challenges[j]).id != challenge_id by {
        assert(!named(db.challenges[j]));
    }
    lemma_filter_contains(
        db.challenges,
        |c: ChallengeView| !challenge_by_id(challenge_id)(c),
        x,
    );
}

/// Fresh recovery codes take a credential that counts and an accepted code; then the account has
/// those and no others, unused, and everybody else's stay.
pub proof fn law_fresh_codes_are_all_there_is(
    db: LedgerView,
    user_id: Seq<char>,
    matched: Option<bool>,
    code_hash: Seq<char>,
    ids: Seq<Seq<char>>,
    codes: Seq<NewCodeView>,
    now: i64,
)
    ensures
        ({
            let on = any_row(
                db.credentials,
                |c: CredentialView| c.user_id == user_id && c.confirmed_at is Some,
            );
            let tried = accepted(db, user_id, matched, code_hash, now);
            match regenerated(db, user_id, matched, code_hash, ids, codes, now) {
                Err(RegenerateError::NotEnabled) => !on,
                Err(RegenerateError::InvalidCode) => on && tried is Some && !(tried->0).1,
                Err(_) => on && tried is None,
                Ok(after) => {
                    let kept = after.recovery_codes.len() - codes.len();
                    &&& on && tried is Some && (tried->0).1
                    &&& after == (LedgerView { recovery_codes: after.recovery_codes, ..db })
                    &&& kept >= 0
                    &&& forall|x: RecoveryCodeView| #[trigger]
                        after.recovery_codes.take(kept).contains(x) <==> (
                        tried->0).0.recovery_codes.contains(x) && x.user_id != user_id
                    &&& forall|i: int|
                        0 <= i < codes.len() ==> #[trigger] after.recovery_codes[kept + i] == (
                        RecoveryCodeView {
                            id: ids[i],
                            user_id,
                            code_hash: codes[i].hash,
                            created_at: now,
                            used_at: None,
                        })
                },
            }
        }),
{
    lemma_any_same(
        db.credentials,
        |c: CredentialView| c.user_id == user_id && c.confirmed_at is Some,
        confirmed(user_id),
    );
    let tried = accepted(db, user_id, matched, code_hash, now);
    if tried is Some {
        let p = |x: RecoveryCodeView| !code_of(user_id)(x);
        let rows = (tried->0).0.recovery_codes;
        let fresh = new_codes(user_id, ids, codes, now);
        assert((rows.filter(p) + fresh).take(rows.filter(p).len() as int) =~= rows.filter(p));
        assert forall|x: RecoveryCodeView| #[trigger]
            rows.filter(p).contains(x) <==> rows.contains(x) && x.user_id != user_id by {
            lemma_filter_contains(rows, p, x);
        }
    }
}

/// A confirmation tries the code on the secret that waits, and a challenge, where it is open, on the
/// secret that counts, under the account's name; each by the standard of one-time passwords.
pub proof fn law_codes_are_tried_on_the_right_secret(
    db: LedgerView,
    user_id: Seq<char>,
    account_name: Seq<char>,
    code: Seq<char>,
    code_hash: Seq<char>,
    ids: Seq<Seq<char>>,
    codes: Seq<NewCodeView>,
    challenge_id: Seq<char>,
    now: i64,
    k: int,
    c: int,
)
    requires
        only(
            db.credentials,
            k,
            |c: CredentialView| c.user_id == user_id && c.confirmed_at is None,
        ),
        only(db.challenges, c, |x: ChallengeView| x.id == challenge_id),
    ensures
        confirmed_by(db, user_id, account_name, code, ids, codes, now) == confirmed_with(
            db,
            user_id,
            totp_match(
                db.credentials[k].secret,
                "Owner's Cock Ledger"@,
                account_name,
                6,
                1,
                30,
                code,
                now as u64,
            ),
            ids,
            codes,
            now,
        ),
        regenerated_by(db, user_id, account_name, code, code_hash, ids, codes, now) == regenerated(
            db,
            user_id,
            live_match(db, user_id, account_name, code, now),
            code_hash,
            ids,
            codes,
            now,
        ),
        ({
            let x = db.challenges[c];
            now <= x.expires_at && x.attempts < 5 ==> challenged_by(
                db,
                challenge_id,
                Ok(account_name),
                code,
                code_hash,
                now,
            ) == challenged(
                db,
                challenge_id,
                live_match(db, x.user_id, account_name, code, now),
                code_hash,
                now,
            )
        }),
{
    let waits = |c: CredentialView| c.user_id == user_id && c.confirmed_at is None;
    lemma_find_only(db.credentials, k, waits, pending(user_id));
    lemma_find_only(
        db.challenges,
        c,
        |x: ChallengeView| x.id == challenge_id,
        challenge_by_id(challenge_id),
    );
}

/// Where the account's name cannot be looked up, an open challenge stays as it is and the failure is
/// handed on.
pub proof fn law_a_failed_lookup_changes_nothing(
    db: LedgerView,
    challenge_id: Seq<char>,
    e: DbError,
    code: Seq<char>,
    code_hash: Seq<char>,
    now: i64,
    c: int,
)
    requires
        only(db.challenges, c, |x: ChallengeView| x.id == challenge_id),
        now <= db.challenges[c].expires_at,
        db.challenges[c].attempts < 5,
    ensures
        challenged_by(db, challenge_id, Err(e), code, code_hash, now) == (
            db,
            Err::<Seq<char>, ChallengeVerifyError>(ChallengeVerifyError::Db(e)),
        ),
{
    lemma_find_only(
        db.challenges,
        c,
        |x: ChallengeView| x.id == challenge_id,
        challenge_by_id(challenge_id),
    );
}

} // verus!
