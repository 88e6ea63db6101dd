//! Accounts, and the lockout after failed logins.

use vstd::prelude::*;

use crate::arith::{plus, stored};
use crate::domain::profiles;
use crate::error::{is_unique_violation, DbError};
use crate::ids::{is_id, new_id};
use crate::ledger::{Ledger, LedgerView};
use crate::table::{
    any, any_row, distinct, find, find_row, insert, lemma_any_same, lemma_find_any, lemma_find_only,
    lemma_find_push, lemma_find_updated, only, update, updated, Row,
};
use crate::text::{own, same};

verus! {

/// How many failed logins in a row lock an account.
pub const LOCKOUT_THRESHOLD: i64 = 10;

/// How long an account stays locked: a quarter of an hour.
pub const LOCKOUT_DURATION_SECS: i64 = 900;

/// A stored account.
#[derive(Debug, PartialEq, Eq)]
pub struct User {
    pub id: String,
    pub email: String,
    pub password_hash: String,
    pub role: String,
    pub display_name: String,
    pub created_at: i64,
    pub failed_login_count: i64,
    pub locked_until: Option<i64>,
    pub disabled_at: Option<i64>,
}

/// What an `User` holds.
#[verifier::ext_equal]
pub struct UserView {
    pub id: Seq<char>,
    pub email: Seq<char>,
    pub password_hash: Seq<char>,
    pub role: Seq<char>,
    pub display_name: Seq<char>,
    pub created_at: i64,
    pub failed_login_count: i64,
    pub locked_until: Option<i64>,
    pub disabled_at: Option<i64>,
}

impl View for User {
    type V = UserView;

    open spec fn view(&self) -> UserView {
        UserView {
            id: self.id@,
            email: self.email@,
            password_hash: self.password_hash@,
            role: self.role@,
            display_name: self.display_name@,
            created_at: self.created_at,
            failed_login_count: self.failed_login_count,
            locked_until: self.locked_until,
            disabled_at: self.disabled_at,
        }
    }
}

impl DeepView for User {
    type V = UserView;

    open spec fn deep_view(&self) -> UserView {
        self.view()
    }
}

impl Row for User {
    fn dup(&self) -> (r: Self) {
        User {
            id: self.id.clone(),
            email: self.email.clone(),
            password_hash: self.password_hash.clone(),
            role: self.role.clone(),
            display_name: self.display_name.clone(),
            created_at: self.created_at,
            failed_login_count: self.failed_login_count,
            locked_until: self.locked_until,
            disabled_at: self.disabled_at,
        }
    }
}

/// A live login session.
#[derive(Debug, PartialEq, Eq)]
pub struct LoginSession {
    pub id: String,
    pub user_id: String,
}

/// What a `LoginSession` holds.
#[verifier::ext_equal]
pub struct LoginSessionView {
    pub id: Seq<char>,
    pub user_id: Seq<char>,
}

impl View for LoginSession {
    type V = LoginSessionView;

    open spec fn view(&self) -> LoginSessionView {
        LoginSessionView {
            id: self.id@,
            user_id: self.user_id@,
        }
    }
}

impl DeepView for LoginSession {
    type V = LoginSessionView;

    open spec fn deep_view(&self) -> LoginSessionView {
        self.view()
    }
}

impl Row for LoginSession {
    fn dup(&self) -> (r: Self) {
        LoginSession {
            id: self.id.clone(),
            user_id: self.user_id.clone(),
        }
    }
}

/// What a new account is made from.
#[derive(Debug, PartialEq, Eq)]
pub struct NewAccount<'a> {
    pub email: &'a str,
    pub password_hash: &'a str,
    pub display_name: &'a str,
}

/// What a `NewAccount` holds.
#[verifier::ext_equal]
pub struct NewAccountView {
    pub email: Seq<char>,
    pub password_hash: Seq<char>,
    pub display_name: Seq<char>,
}

impl<'a> View for NewAccount<'a> {
    type V = NewAccountView;

    open spec fn view(&self) -> NewAccountView {
        NewAccountView {
            email: self.email@,
            password_hash: self.password_hash@,
            display_name: self.display_name@,
        }
    }
}

/// What the login flow reads of an account.
#[derive(Debug, PartialEq, Eq)]
pub struct AccountForLogin {
    pub id: String,
    pub password_hash: String,
    pub role: String,
    pub display_name: String,
    pub failed_login_count: i64,
    pub locked_until: Option<i64>,
    pub disabled_at: Option<i64>,
}

/// What an `AccountForLogin` holds.
#[verifier::ext_equal]
pub struct AccountForLoginView {
    pub id: Seq<char>,
    pub password_hash: Seq<char>,
    pub role: Seq<char>,
    pub display_name: Seq<char>,
    pub failed_login_count: i64,
    pub locked_until: Option<i64>,
    pub disabled_at: Option<i64>,
}

impl View for AccountForLogin {
    type V = AccountForLoginView;

    open spec fn view(&self) -> AccountForLoginView {
        AccountForLoginView {
            id: self.id@,
            password_hash: self.password_hash@,
            role: self.role@,
            display_name: self.display_name@,
            failed_login_count: self.failed_login_count,
            locked_until: self.locked_until,
            disabled_at: self.disabled_at,
        }
    }
}

/// Why an account was not created.
#[derive(Clone, Copy, Debug, PartialEq, Eq, Structural)]
pub enum CreateUserError {
    /// Another account has this email.
    EmailInUse,
    /// The ledger failed.
    Db(DbError),
}

/// The account has this email.
pub open spec fn by_email(email: Seq<char>) -> spec_fn(UserView) -> bool {
    |u: UserView| u.email == email
}

/// The account has this id.
pub open spec fn by_id(id: Seq<char>) -> spec_fn(UserView) -> bool {
    |u: UserView| u.id == id
}

/// An account as it is created: no failed logins.
pub open spec fn new_user(id: Seq<char>, new: NewAccountView, role: Seq<char>, now: i64) -> UserView {
    UserView {
        id,
        email: new.email,
        password_hash: new.password_hash,
        role,
        display_name: new.display_name,
        created_at: now,
        failed_login_count: 0,
        locked_until: None,
        disabled_at: None,
    }
}

/// Adds an account, unless its email is taken.
fn insert_user(db: &mut Ledger, user: User) -> (r: Result<(), DbError>)
    ensures
        if any_row(old(db)@.users, by_email(user@.email)) {
            r == Err::<(), DbError>(DbError::Conflict) && final(db)@ == old(db)@
        } else {
            r is Ok && final(db)@ == (LedgerView {
                users: old(db)@.users.push(user@),
                ..old(db)@
            })
        },
{
    let ghost p = by_email(user@.email);
    let test = |u: &User| -> (b: bool)
        ensures
            b == p(u@),
        { same(u.email.as_str(), user.email.as_str()) };
    if any(&db.users, Ghost(p), test) {
        return Err(DbError::Conflict);
    }
    insert(&mut db.users, user);
    Ok(())
}

/// Adds an account in a role under the id `id`.
fn create(db: &mut Ledger, new: &NewAccount, role: &str, id: &str, now: i64) -> (r: Result<
    (),
    CreateUserError,
>)
    ensures
        if any_row(old(db)@.users, by_email(new@.email)) {
            r == Err::<(), CreateUserError>(CreateUserError::EmailInUse) && final(db)@ == old(db)@
        } else {
            r is Ok && final(db)@ == (LedgerView {
                users: old(db)@.users.push(new_user(id@, new@, role@, now)),
                ..old(db)@
            })
        },
{
    match insert_user(
        db,
        User {
            id: own(id),
            email: own(new.email),
            password_hash: own(new.password_hash),
            role: own(role),
            display_name: own(new.display_name),
            created_at: now,
            failed_login_count: 0,
            locked_until: None,
            disabled_at: None,
        },
    ) {
        Ok(()) => Ok(()),
        Err(e) => Err(
            if is_unique_violation(&e) {
                CreateUserError::EmailInUse
            } else {
                CreateUserError::Db(e)
            },
        ),
    }
}

/// The ledger with one more Keyholder account and its empty profile.
pub open spec fn keyholder_created(
    db: LedgerView,
    id: Seq<char>,
    new: NewAccountView,
    now: i64,
) -> Result<LedgerView, CreateUserError> {
    if any_row(db.users, by_email(new.email)) {
        Err(CreateUserError::EmailInUse)
    } else {
        Ok(
            LedgerView {
                users: db.users.push(new_user(id, new, "keyholder"@, now)),
                keyholder_profiles: db.keyholder_profiles.push(profiles::empty_keyholder_row(id)),
                ..db
            },
        )
    }
}

/// Creates a Keyholder account.
pub fn create_keyholder(db: &mut Ledger, new: NewAccount, now: i64) -> (r: Result<
    String,
    CreateUserError,
>)
    ensures
        exists|id: Seq<char>|
            is_id(id) && match #[trigger] keyholder_created(old(db)@, id, new@, now) {
                Ok(after) => r is Ok && r->Ok_0@ == id && final(db)@ == after,
                Err(e) => r == Err::<String, CreateUserError>(e) && final(db)@ == old(db)@,
            },
{
    let id = new_id();
    let ghost outcome = keyholder_created(db@, id@, new@, now);
    match create(db, &new, "keyholder", id.as_str(), now) {
        Ok(()) => {
            insert(&mut db.keyholder_profiles, profiles::new_keyholder_row(id.as_str()));
            assert(outcome is Ok);
            Ok(id)
        },
        Err(e) => {
            assert(outcome is Err);
            Err(e)
        },
    }
}

/// The ledger with one more submissive account and its empty profile.
pub open spec fn submissive_created(
    db: LedgerView,
    id: Seq<char>,
    new: NewAccountView,
    now: i64,
) -> Result<LedgerView, CreateUserError> {
    if any_row(db.users, by_email(new.email)) {
        Err(CreateUserError::EmailInUse)
    } else {
        Ok(
            LedgerView {
                users: db.users.push(new_user(id, new, "submissive"@, now)),
                submissive_profiles: db.submissive_profiles.push(
                    profiles::empty_submissive_row(id),
                ),
                ..db
            },
        )
    }
}

/// Creates a submissive account under the id `id`.
pub fn create_submissive_as(db: &mut Ledger, new: NewAccount, id: &str, now: i64) -> (r: Result<
    (),
    CreateUserError,
>)
    ensures
        match submissive_created(old(db)@, id@, new@, now) {
            Ok(after) => r is Ok && final(db)@ == after,
            Err(e) => r == Err::<(), CreateUserError>(e) && final(db)@ == old(db)@,
        },
{
    match create(db, &new, "submissive", id, now) {
        Ok(()) => {
            insert(&mut db.submissive_profiles, profiles::new_submissive_row(id));
            Ok(())
        },
        Err(e) => Err(e),
    }
}

/// Creates a submissive account.
pub fn create_submissive(db: &mut Ledger, new: NewAccount, now: i64) -> (r: Result<
    String,
    CreateUserError,
>)
    ensures
        exists|id: Seq<char>|
            is_id(id) && match #[trigger] submissive_created(old(db)@, id, new@, now) {
                Ok(after) => r is Ok && r->Ok_0@ == id && final(db)@ == after,
                Err(e) => r == Err::<String, CreateUserError>(e) && final(db)@ == old(db)@,
            },
{
    let id = new_id();
    let ghost outcome = submissive_created(db@, id@, new@, now);
    match create_submissive_as(db, new, id.as_str(), now) {
        Ok(()) => Ok(id),
        Err(e) => {
            assert(outcome is Err);
            Err(e)
        },
    }
}

/// What the login flow reads of an account.
pub open spec fn for_login(u: UserView) -> AccountForLoginView {
    AccountForLoginView {
        id: u.id,
        password_hash: u.password_hash,
        role: u.role,
        display_name: u.display_name,
        failed_login_count: u.failed_login_count,
        locked_until: u.locked_until,
        disabled_at: u.disabled_at,
    }
}

/// The account with this email.
pub fn find_by_email(db: &Ledger, email: &str) -> (r: Option<AccountForLogin>)
    ensures
        match find_row(db@.users, by_email(email@)) {
            Some(u) => r is Some && r->0@ == for_login(u),
            None => r is None,
        },
{
    let ghost p = by_email(email@);
    let test = |u: &User| -> (b: bool)
        ensures
            b == p(u@),
        { same(u.email.as_str(), email) };
    match find(&db.users, Ghost(p), test) {
        Some(u) => Some(
            AccountForLogin {
                id: u.id.clone(),
                password_hash: u.password_hash.clone(),
                role: u.role.clone(),
                display_name: u.display_name.clone(),
                failed_login_count: u.failed_login_count,
                locked_until: u.locked_until,
                disabled_at: u.disabled_at,
            },
        ),
        None => None,
    }
}

/// The account with this id.
pub(crate) fn get<'a>(db: &'a Ledger, id: &str) -> (r: Option<&'a User>)
    ensures
        r.deep_view() == find_row(db@.users, by_id(id@)),
{
    let ghost p = by_id(id@);
    let test = |u: &User| -> (b: bool)
        ensures
            b == p(u@),
        { same(u.id.as_str(), id) };
    find(&db.users, Ghost(p), test)
}

/// Whether the account is locked out now.
pub fn is_locked(account: &AccountForLogin, now: i64) -> (r: bool)
    ensures
        r == (account@.locked_until matches Some(until) && until > now),
{
    match account.locked_until {
        Some(until) => until > now,
        None => false,
    }
}

/// With one more failed login, and locked once there are too many in a row.
pub open spec fn with_failure(count: i64, until: i64) -> spec_fn(UserView) -> UserView {
    |u: UserView|
        UserView {
            failed_login_count: count,
            locked_until: if count >= LOCKOUT_THRESHOLD {
                Some(until)
            } else {
                u.locked_until
            },
            ..u
        }
}

/// The ledger after a failed login.
pub open spec fn login_failed(db: LedgerView, user_id: Seq<char>, now: i64) -> Result<
    LedgerView,
    DbError,
> {
    match stored(now + LOCKOUT_DURATION_SECS) {
        Err(e) => Err(e),
        Ok(until) => match find_row(db.users, by_id(user_id)) {
            None => Ok(db),
            Some(u) => match stored(u.failed_login_count + 1) {
                Err(e) => Err(e),
                Ok(count) => Ok(
                    LedgerView {
                        users: updated(db.users, by_id(user_id), with_failure(count, until)),
                        ..db
                    },
                ),
            },
        },
    }
}

/// Counts a failed login, and locks the account once there are too many in a row.
pub fn record_failed_login(db: &mut Ledger, user_id: &str, now: i64) -> (r: Result<(), DbError>)
    ensures
        match login_failed(old(db)@, user_id@, now) {
            Ok(after) => r is Ok && final(db)@ == after,
            Err(e) => r == Err::<(), DbError>(e) && final(db)@ == old(db)@,
        },
{
    let until = match plus(now, LOCKOUT_DURATION_SECS) {
        Ok(t) => t,
        Err(e) => {
            return Err(e);
        },
    };
    let failed: i64 = match get(db, user_id) {
        Some(u) => u.failed_login_count,
        None => {
            return Ok(());
        },
    };
    let count = match plus(failed, 1) {
        Ok(c) => c,
        Err(e) => {
            return Err(e);
        },
    };
    let ghost p = by_id(user_id@);
    let ghost f = with_failure(count, until);
    let change = |u: &User| -> (n: Option<User>)
        ensures
            match n {
                Some(x) => p(u@) && x@ == f(u@),
                None => !p(u@),
            },
        {
            if same(u.id.as_str(), user_id) {
                let mut n = u.dup();
                n.failed_login_count = count;
                if count >= LOCKOUT_THRESHOLD {
                    n.locked_until = Some(until);
                }

                Some(n)
            } else {
                None
            }
        };
    update(&mut db.users, Ghost(p), Ghost(f), change);
    Ok(())
}

/// Without failed logins.
pub open spec fn cleared() -> spec_fn(UserView) -> UserView {
    |u: UserView| UserView { failed_login_count: 0, locked_until: None, ..u }
}

/// Clears the failed logins of an account.
pub fn record_successful_login(db: &mut Ledger, user_id: &str)
    ensures
        final(db)@ == (LedgerView {
            users: updated(old(db)@.users, by_id(user_id@), cleared()),
            ..old(db)@
        }),
{
    let ghost p = by_id(user_id@);
    let ghost f = cleared();
    let change = |u: &User| -> (n: Option<User>)
        ensures
            match n {
                Some(x) => p(u@) && x@ == f(u@),
                None => !p(u@),
            },
        {
            if same(u.id.as_str(), user_id) {
                let mut n = u.dup();
                n.failed_login_count = 0;
                n.locked_until = None;

                Some(n)
            } else {
                None
            }
        };
    update(&mut db.users, Ghost(p), Ghost(f), change);
}

/// Unlocks an account, as a successful login would.
pub fn unlock(db: &mut Ledger, user_id: &str)
    ensures
        final(db)@ == (LedgerView {
            users: updated(old(db)@.users, by_id(user_id@), cleared()),
            ..old(db)@
        }),
{
    record_successful_login(db, user_id);
}

/// Every failed login counts, and the account is locked for the lockout's duration from the
/// threshold on; below it the lock stays as it was.
pub proof fn law_failures_count_and_lock(db: LedgerView, user_id: Seq<char>, now: i64)
    requires
        login_failed(db, user_id, now) is Ok,
        find_row(db.users, by_id(user_id)) is Some,
    ensures
        ({
            let u = find_row(db.users, by_id(user_id))->0;
            let after = find_row(login_failed(db, user_id, now)->Ok_0.users, by_id(user_id));
            &&& after is Some
            &&& after->0.failed_login_count == u.failed_login_count + 1
            &&& after->0.locked_until == (if u.failed_login_count + 1 >= LOCKOUT_THRESHOLD {
                Some((now + LOCKOUT_DURATION_SECS) as i64)
            } else {
                u.locked_until
            })
        }),
{
    let u = find_row(db.users, by_id(user_id))->0;
    lemma_find_any(db.users, by_id(user_id));
    lemma_find_updated(
        db.users,
        by_id(user_id),
        by_id(user_id),
        with_failure(
            (u.failed_login_count + 1) as i64,
            (now + LOCKOUT_DURATION_SECS) as i64,
        ),
    );
}

/// A failed login of one account changes no other account.
pub proof fn law_failures_are_ones_own(db: LedgerView, user_id: Seq<char>, other: Seq<char>, now: i64)
    requires
        login_failed(db, user_id, now) is Ok,
        user_id != other,
    ensures
        find_row(login_failed(db, user_id, now)->Ok_0.users, by_id(other)) == find_row(
            db.users,
            by_id(other),
        ),
{
    if let Some(u) = find_row(db.users, by_id(user_id)) {
        lemma_find_any(db.users, by_id(other));
        lemma_find_updated(
            db.users,
            by_id(other),
            by_id(user_id),
            with_failure(
                (u.failed_login_count + 1) as i64,
                (now + LOCKOUT_DURATION_SECS) as i64,
            ),
        );
    }
}

/// After a successful login no failure counts and the account is not locked.
pub proof fn law_success_clears(users: Seq<UserView>, user_id: Seq<char>)
    requires
        find_row(users, by_id(user_id)) is Some,
    ensures
        ({
            let after = find_row(updated(users, by_id(user_id), cleared()), by_id(user_id));
            after is Some && after->0.failed_login_count == 0 && after->0.locked_until is None
        }),
{
    lemma_find_any(users, by_id(user_id));
    lemma_find_updated(users, by_id(user_id), by_id(user_id), cleared());
}

/// An account that was created is found by its email, with no failed login and no lock, and its
/// email cannot be taken again.
pub proof fn law_created_account_is_found(
    db: LedgerView,
    id: Seq<char>,
    new: NewAccountView,
    again: Seq<char>,
    second: NewAccountView,
    now: i64,
    later: i64,
)
    requires
        submissive_created(db, id, new, now) is Ok,
        second.email == new.email,
    ensures
        ({
            let after = submissive_created(db, id, new, now)->Ok_0;
            &&& find_row(after.users, by_email(new.email)) == Some(
                new_user(id, new, "submissive"@, now),
            )
            &&& submissive_created(after, again, second, later) == Err::<
                LedgerView,
                CreateUserError,
            >(CreateUserError::EmailInUse)
            &&& keyholder_created(after, again, second, later) == Err::<
                LedgerView,
                CreateUserError,
            >(CreateUserError::EmailInUse)
        }),
{
    let row = new_user(id, new, "submissive"@, now);
    lemma_find_any(db.users, by_email(new.email));
    lemma_find_push(db.users, row, by_email(new.email));
    lemma_find_any(db.users.push(row), by_email(new.email));
}

/// No two accounts share an email.
pub open spec fn emails_distinct(db: LedgerView) -> bool {
    distinct(db.users, |u: UserView| u.email)
}

/// Creating an account keeps emails distinct.
pub proof fn law_emails_stay_distinct(db: LedgerView, id: Seq<char>, new: NewAccountView, now: i64)
    requires
        emails_distinct(db),
    ensures
        keyholder_created(db, id, new, now) matches Ok(after) ==> emails_distinct(after),
        submissive_created(db, id, new, now) matches Ok(after) ==> emails_distinct(after),
{
    if !any_row(db.users, by_email(new.email)) {
        assert forall|i: int| 0 <= i < db.users.len() implies (#[trigger] db.users[i]).email
            != new.email by {
            assert(!by_email(new.email)(db.users[i]));
        }
    }
}

/// A Keyholder's account that was created is found by its email, with no failed login and no lock.
pub proof fn law_created_keyholder_is_found(
    db: LedgerView,
    id: Seq<char>,
    new: NewAccountView,
    now: i64,
)
    requires
        keyholder_created(db, id, new, now) is Ok,
    ensures
        find_row(keyholder_created(db, id, new, now)->Ok_0.users, by_email(new.email)) == Some(
            new_user(id, new, "keyholder"@, now),
        ),
{
    lemma_find_any(db.users, by_email(new.email));
    lemma_find_push(db.users, new_user(id, new, "keyholder"@, now), by_email(new.email));
}

/// Every account comes with its profile, an empty one: a fetch finds it.
pub proof fn law_account_has_a_profile(
    db: LedgerView,
    id: Seq<char>,
    new: NewAccountView,
    now: i64,
)
    requires
        !any_row(db.keyholder_profiles, profiles::keyholder(id)),
        !any_row(db.submissive_profiles, profiles::submissive(id)),
    ensures
        keyholder_created(db, id, new, now) matches Ok(after) ==> find_row(
            after.keyholder_profiles,
            profiles::keyholder(id),
        ) == Some(profiles::empty_keyholder_row(id)),
        submissive_created(db, id, new, now) matches Ok(after) ==> find_row(
            after.submissive_profiles,
            profiles::submissive(id),
        ) == Some(profiles::empty_submissive_row(id)),
{
    let p = profiles::keyholder(id);
    let q = profiles::submissive(id);
    lemma_find_any(db.keyholder_profiles, p);
    lemma_find_any(db.submissive_profiles, q);
    lemma_find_push(db.keyholder_profiles, profiles::empty_keyholder_row(id), p);
    lemma_find_push(db.submissive_profiles, profiles::empty_submissive_row(id), q);
}

/// An account is made under an email that nobody has, with its role, an empty profile of that role,
/// and no failed logins behind it; nothing else of the ledger changes.
pub proof fn law_accounts_start_clean(db: LedgerView, id: Seq<char>, new: NewAccountView, now: i64)
    ensures
        match keyholder_created(db, id, new, now) {
            Err(e) => e == CreateUserError::EmailInUse && any_row(
                db.users,
                |u: UserView| u.email == new.email,
            ),
            Ok(after) => {
                let u = after.users.last();
                let p = after.keyholder_profiles.last();
                &&& !any_row(db.users, |u: UserView| u.email == new.email)
                &&& after == (LedgerView {
                    users: db.users.push(u),
                    keyholder_profiles: db.keyholder_profiles.push(p),
                    ..db
                })
                &&& u.role == "keyholder"@ && starts_clean(u, id, new, now)
                &&& p.user_id == id && p.profile.bio is None && p.profile.contact_info is None
                &&& p.profile.timezone is None && p.profile.hard_limits is None
                &&& p.profile.soft_limits is None && p.profile.okay_limits is None
            },
        },
        match submissive_created(db, id, new, now) {
            Err(e) => e == CreateUserError::EmailInUse && any_row(
                db.users,
                |u: UserView| u.email == new.email,
            ),
            Ok(after) => {
                let u = after.users.last();
                let p = after.submissive_profiles.last();
                &&& !any_row(db.users, |u: UserView| u.email == new.email)
                &&& after == (LedgerView {
                    users: db.users.push(u),
                    submissive_profiles: db.submissive_profiles.push(p),
                    ..db
                })
                &&& u.role == "submissive"@ && starts_clean(u, id, new, now)
                &&& p.user_id == id && p.profile.bio is None && p.profile.safeword is None
                &&& p.profile.hard_limits is None && p.profile.soft_limits is None
                &&& p.profile.okay_limits is None && p.profile.emergency_contact is None
                &&& p.profile.keyholder_notes is None && p.profile.timezone is None
            },
        },
{
    lemma_any_same(db.users, |u: UserView| u.email == new.email, by_email(new.email));
}

/// An account that has only just been made.
pub open spec fn starts_clean(u: UserView, id: Seq<char>, new: NewAccountView, now: i64) -> bool {
    &&& u.id == id && u.email == new.email && u.password_hash == new.password_hash
    &&& u.display_name == new.display_name && u.created_at == now
    &&& u.failed_login_count == 0 && u.locked_until is None && u.disabled_at is None
}

/// A failed login counts one more; from the tenth on it locks the account for a quarter of an hour
/// from now. Nothing else of the account changes, nor any other account.
pub proof fn law_the_tenth_failure_locks(db: LedgerView, user_id: Seq<char>, now: i64, k: int)
    requires
        only(db.users, k, |u: UserView| u.id == user_id),
    ensures
        ({
            let u = db.users[k];
            match login_failed(db, user_id, now) {
                Err(_) => now + 900 > i64::MAX || u.failed_login_count == i64::MAX,
                Ok(after) => {
                    let a = after.users[k];
                    &&& after == (LedgerView { users: db.users.update(k, a), ..db })
                    &&& a.failed_login_count == u.failed_login_count + 1
                    &&& u.failed_login_count < 9 ==> a.locked_until == u.locked_until
                    &&& u.failed_login_count >= 9 ==> a.locked_until is Some && a.locked_until->0
                        == now + 900
                    &&& a == (UserView {
                        failed_login_count: a.failed_login_count,
                        locked_until: a.locked_until,
                        ..u
                    })
                },
            }
        }),
{
    let named = |u: UserView| u.id == user_id;
    lemma_find_only(db.users, k, named, by_id(user_id));
    assert forall|j: int| 0 <= j < db.users.len() && j != k implies (#[trigger] db.users[j]).id
        != user_id by {
        assert(!named(db.users[j]));
    }
}

/// A login that succeeds, and an unlocking, forget the failures of that account alone.
pub proof fn law_forgetting_is_for_one_account(users: Seq<UserView>, user_id: Seq<char>, k: int)
    requires
        0 <= k < users.len(),
    ensures
        ({
            let after = updated(users, by_id(user_id), cleared());
            &&& after.len() == users.len()
            &&& users[k].id == user_id ==> after[k] == (UserView {
                failed_login_count: 0,
                locked_until: None,
                ..users[k]
            })
            &&& users[k].id != user_id ==> after[k] == users[k]
        }),
{
}

/// The login flow sees the account with the email asked for, as it stands.
pub proof fn law_login_sees_the_account(users: Seq<UserView>, email: Seq<char>, k: int)
    requires
        only(users, k, |u: UserView| u.email == email),
    ensures
        find_row(users, by_email(email)) == Some(users[k]),
        ({
            let seen = for_login(users[k]);
            &&& seen.id == users[k].id && seen.password_hash == users[k].password_hash
            &&& seen.role == users[k].role && seen.display_name == users[k].display_name
            &&& seen.failed_login_count == users[k].failed_login_count
            &&& seen.locked_until == users[k].locked_until
            &&& seen.disabled_at == users[k].disabled_at
        }),
{
    lemma_find_only(users, k, |u: UserView| u.email == email, by_email(email));
}

/// An account is locked up to the time it is locked until, and not at that time or after; one that
/// was never locked is not.
pub proof fn law_a_lock_ends_on_time(account: &AccountForLogin, now: i64, r: bool)
    requires
        is_locked.ensures((account, now), r),
    ensures
        account@.locked_until is None ==> !r,
        account@.locked_until is Some ==> (r <==> now < account@.locked_until->0),
{
}

} // verus!
