//! Account recovery by a single-use token. How a token came to be issued does not matter to its
//! redemption.

use vstd::prelude::*;

use crate::arith::{plus, stored};
use crate::domain::users;
use crate::error::DbError;
use crate::ids::{is_id, new_id};
use crate::ledger::{Ledger, LedgerView};
use crate::table::{
    any_row, find, find_row, insert, lemma_filter_contains, lemma_filter_rules_out, lemma_find_any,
    lemma_find_filter, lemma_find_only, lemma_find_push, lemma_find_updated, only, remove, update,
    updated, Row,
};
use crate::text::{own, same};

verus! {

/// How long a reset token lives: a day.
pub const EXPIRES_IN_SECONDS: i64 = 86400;

/// A stored reset token; only its hash is kept.
#[derive(Debug, PartialEq, Eq)]
pub struct ResetToken {
    pub id: String,
    pub user_id: String,
    pub token_hash: String,
    pub requested_via: String,
    pub created_at: i64,
    pub expires_at: i64,
    pub consumed_at: Option<i64>,
}

/// What a `ResetToken` holds.
#[verifier::ext_equal]
pub struct ResetTokenView {
    pub id: Seq<char>,
    pub user_id: Seq<char>,
    pub token_hash: Seq<char>,
    pub requested_via: Seq<char>,
    pub created_at: i64,
    pub expires_at: i64,
    pub consumed_at: Option<i64>,
}

impl View for ResetToken {
    type V = ResetTokenView;

    open spec fn view(&self) -> ResetTokenView {
        ResetTokenView {
            id: self.id@,
            user_id: self.user_id@,
            token_hash: self.token_hash@,
            requested_via: self.requested_via@,
            created_at: self.created_at,
            expires_at: self.expires_at,
            consumed_at: self.consumed_at,
        }
    }
}

impl DeepView for ResetToken {
    type V = ResetTokenView;

    open spec fn deep_view(&self) -> ResetTokenView {
        self.view()
    }
}

impl Row for ResetToken {
    fn dup(&self) -> (r: Self) {
        ResetToken {
            id: self.id.clone(),
            user_id: self.user_id.clone(),
            token_hash: self.token_hash.clone(),
            requested_via: self.requested_via.clone(),
            created_at: self.created_at,
            expires_at: self.expires_at,
            consumed_at: self.consumed_at,
        }
    }
}

/// A reset token as it is shown once.
#[derive(Debug, PartialEq, Eq)]
pub struct IssuedToken {
    pub token: String,
    pub expires_at: i64,
}

/// What an `IssuedToken` holds.
#[verifier::ext_equal]
pub struct IssuedTokenView {
    pub token: Seq<char>,
    pub expires_at: i64,
}

impl View for IssuedToken {
    type V = IssuedTokenView;

    open spec fn view(&self) -> IssuedTokenView {
        IssuedTokenView {
            token: self.token@,
            expires_at: self.expires_at,
        }
    }
}

/// How a reset was asked for.
#[derive(Clone, Copy, Debug, PartialEq, Eq, Structural)]
pub enum RequestedVia {
    /// By an administrator's command.
    AdminCli,
    /// By the account's owner.
    SelfService,
}

impl RequestedVia {
    /// As it is stored.
    pub open spec fn name(self) -> Seq<char> {
        match self {
            RequestedVia::AdminCli => "admin_cli"@,
            RequestedVia::SelfService => "self_service"@,
        }
    }

    /// As it is stored.
    pub fn as_str(&self) -> (r: &'static str)
        ensures
            r@ == self.name(),
    {
        match self {
            RequestedVia::AdminCli => "admin_cli",
            RequestedVia::SelfService => "self_service",
        }
    }
}

/// A reset token as it is issued: not consumed.
pub open spec fn new_row(
    id: Seq<char>,
    user_id: Seq<char>,
    token_hash: Seq<char>,
    via: RequestedVia,
    expires_at: i64,
    now: i64,
) -> ResetTokenView {
    ResetTokenView {
        id,
        user_id,
        token_hash,
        requested_via: via.name(),
        created_at: now,
        expires_at,
        consumed_at: None,
    }
}

/// The ledger after a reset token was issued.
pub open spec fn issued(
    db: LedgerView,
    id: Seq<char>,
    user_id: Seq<char>,
    via: RequestedVia,
    token_hash: Seq<char>,
    now: i64,
) -> Result<LedgerView, DbError> {
    match stored(now + EXPIRES_IN_SECONDS) {
        Err(e) => Err(e),
        Ok(expires_at) => Ok(
            LedgerView {
                reset_tokens: db.reset_tokens.push(
                    new_row(id, user_id, token_hash, via, expires_at, now),
                ),
                ..db
            },
        ),
    }
}

/// Issues a reset token from fresh random text and its hash. The text is handed back and not
/// kept. Whether the account exists is not looked at.
pub fn issue(
    db: &mut Ledger,
    user_id: &str,
    via: RequestedVia,
    token: &str,
    token_hash: &str,
    now: i64,
) -> (r: Result<IssuedToken, DbError>)
    ensures
        exists|id: Seq<char>|
            is_id(id) && match #[trigger] issued(old(db)@, id, user_id@, via, token_hash@, now) {
                Ok(after) => r is Ok && r->Ok_0@.token == token@ && r->Ok_0@.expires_at == now
                    + EXPIRES_IN_SECONDS && final(db)@ == after,
                Err(e) => r == Err::<IssuedToken, DbError>(e) && final(db)@ == old(db)@,
            },
{
    let id = new_id();
    let ghost outcome = issued(db@, id@, user_id@, via, token_hash@, now);
    let expires_at = match plus(now, EXPIRES_IN_SECONDS) {
        Ok(t) => t,
        Err(e) => {
            assert(outcome is Err);
            return Err(e);
        },
    };
    insert(
        &mut db.reset_tokens,
        ResetToken {
            id,
            user_id: own(user_id),
            token_hash: own(token_hash),
            requested_via: own(via.as_str()),
            created_at: now,
            expires_at,
            consumed_at: None,
        },
    );
    assert(outcome is Ok);
    Ok(IssuedToken { token: own(token), expires_at })
}

/// Why a reset token was not redeemed.
#[derive(Clone, Copy, Debug, PartialEq, Eq, Structural)]
pub enum RedeemError {
    /// The token is unknown, expired or consumed.
    InvalidOrExpired,
}

/// The token with this hash, neither consumed nor expired.
pub open spec fn redeemable(token_hash: Seq<char>, now: i64) -> spec_fn(ResetTokenView) -> bool {
    |t: ResetTokenView| t.token_hash == token_hash && t.consumed_at is None && t.expires_at > now
}

/// The token has this id.
pub open spec fn by_id(id: Seq<char>) -> spec_fn(ResetTokenView) -> bool {
    |t: ResetTokenView| t.id == id
}

/// Consumed now.
pub open spec fn consumed(now: i64) -> spec_fn(ResetTokenView) -> ResetTokenView {
    |t: ResetTokenView| ResetTokenView { consumed_at: Some(now), ..t }
}

/// With this password.
pub open spec fn with_password(hash: Seq<char>) -> spec_fn(users::UserView) -> users::UserView {
    |u: users::UserView| users::UserView { password_hash: hash, ..u }
}

/// A live session of this account.
pub open spec fn session_of(user_id: Seq<char>) -> spec_fn(users::LoginSessionView) -> bool {
    |s: users::LoginSessionView| s.user_id == user_id
}

/// The ledger after a redemption, and the account: it has the new password, the token is
/// consumed, and no session of the account lives on.
pub open spec fn redeemed(
    db: LedgerView,
    token_hash: Seq<char>,
    new_password_hash: Seq<char>,
    now: i64,
) -> Result<(LedgerView, Seq<char>), RedeemError> {
    match find_row(db.reset_tokens, redeemable(token_hash, now)) {
        None => Err(RedeemError::InvalidOrExpired),
        Some(t) => Ok(
            (
                LedgerView {
                    users: updated(
                        db.users,
                        users::by_id(t.user_id),
                        with_password(new_password_hash),
                    ),
                    reset_tokens: updated(db.reset_tokens, by_id(t.id), consumed(now)),
                    sessions: db.sessions.filter(
                        |s: users::LoginSessionView| !session_of(t.user_id)(s),
                    ),
                    ..db
                },
                t.user_id,
            ),
        ),
    }
}

/// Redeems a reset token, by its hash, into a new password; the id of the account.
pub fn redeem(db: &mut Ledger, token_hash: &str, new_password_hash: &str, now: i64) -> (r: Result<
    String,
    RedeemError,
>)
    ensures
        match redeemed(old(db)@, token_hash@, new_password_hash@, now) {
            Ok((after, user_id)) => r is Ok && r->Ok_0@ == user_id && final(db)@ == after,
            Err(e) => r == Err::<String, RedeemError>(e) && final(db)@ == old(db)@,
        },
{
    let ghost q = redeemable(token_hash@, now);
    let test = |t: &ResetToken| -> (b: bool)
        ensures
            b == q(t@),
        { same(t.token_hash.as_str(), token_hash) && t.consumed_at.is_none()
            && t.expires_at > now };
    let t = match find(&db.reset_tokens, Ghost(q), test) {
        Some(t) => t.dup(),
        None => {
            return Err(RedeemError::InvalidOrExpired);
        },
    };
    let ghost p = users::by_id(t@.user_id);
    let ghost f = with_password(new_password_hash@);
    let set_password = |u: &users::User| -> (n: Option<users::User>)
        ensures
            match n {
                Some(x) => p(u@) && x@ == f(u@),
                None => !p(u@),
            },
        {
            if same(u.id.as_str(), t.user_id.as_str()) {
                let mut n = u.dup();
                n.password_hash = own(new_password_hash);

                Some(n)
            } else {
                None
            }
        };
    update(&mut db.users, Ghost(p), Ghost(f), set_password);
    let ghost c = by_id(t@.id);
    let ghost g = consumed(now);
    let consume = |row: &ResetToken| -> (n: Option<ResetToken>)
        ensures
            match n {
                Some(x) => c(row@) && x@ == g(row@),
                None => !c(row@),
            },
        {
            if same(row.id.as_str(), t.id.as_str()) {
                let mut n = row.dup();
                n.consumed_at = Some(now);

                Some(n)
            } else {
                None
            }
        };
    update(&mut db.reset_tokens, Ghost(c), Ghost(g), consume);
    let ghost s = session_of(t@.user_id);
    let theirs = |l: &users::LoginSession| -> (b: bool)
        ensures
            b == s(l@),
        { same(l.user_id.as_str(), t.user_id.as_str()) };
    remove(&mut db.sessions, Ghost(s), theirs);
    assert((|l: users::LoginSessionView| !s(l)) =~= (|l: users::LoginSessionView|
        !session_of(t@.user_id)(l)));
    Ok(t.user_id)
}

/// A reset token that was redeemed is used up: it redeems no more, unless another token that can
/// still be redeemed has the same hash.
pub proof fn law_redeemed_once(
    db: LedgerView,
    token_hash: Seq<char>,
    first: Seq<char>,
    second: Seq<char>,
    now: i64,
    later: i64,
)
    requires
        redeemed(db, token_hash, first, now) is Ok,
        forall|i: int|
            0 <= i < db.reset_tokens.len() && redeemable(token_hash, later)(
                #[trigger] db.reset_tokens[i],
            ) ==> db.reset_tokens[i].id == find_row(
                db.reset_tokens,
                redeemable(token_hash, now),
            )->0.id,
    ensures
        redeemed(redeemed(db, token_hash, first, now)->Ok_0.0, token_hash, second, later) == Err::<
            (LedgerView, Seq<char>),
            RedeemError,
        >(RedeemError::InvalidOrExpired),
{
    let t = find_row(db.reset_tokens, redeemable(token_hash, now))->0;
    let after = updated(db.reset_tokens, by_id(t.id), consumed(now));
    assert forall|i: int| 0 <= i < after.len() implies !redeemable(token_hash, later)(
        #[trigger] after[i],
    ) by {
        assert(redeemable(token_hash, later)(db.reset_tokens[i]) ==> db.reset_tokens[i].id == t.id);
    }
    lemma_find_any(after, redeemable(token_hash, later));
}

/// An unknown token, and one that has expired or was consumed, redeems nothing.
pub proof fn law_dead_tokens_redeem_nothing(
    db: LedgerView,
    token_hash: Seq<char>,
    password_hash: Seq<char>,
    now: i64,
)
    requires
        forall|i: int|
            0 <= i < db.reset_tokens.len() && (#[trigger] db.reset_tokens[i]).token_hash
                == token_hash ==> db.reset_tokens[i].consumed_at is Some
                || db.reset_tokens[i].expires_at <= now,
    ensures
        redeemed(db, token_hash, password_hash, now) == Err::<
            (LedgerView, Seq<char>),
            RedeemError,
        >(RedeemError::InvalidOrExpired),
{
    lemma_find_any(db.reset_tokens, redeemable(token_hash, now));
}

/// A redemption ends every session of the account and of no other; the account has the new
/// password, and no other account is touched.
pub proof fn law_redeeming_ends_sessions(
    db: LedgerView,
    token_hash: Seq<char>,
    password_hash: Seq<char>,
    other: Seq<char>,
    now: i64,
)
    requires
        redeemed(db, token_hash, password_hash, now) is Ok,
    ensures
        ({
            let (after, user_id) = redeemed(db, token_hash, password_hash, now)->Ok_0;
            &&& !any_row(after.sessions, session_of(user_id))
            &&& other != user_id ==> find_row(after.sessions, session_of(other)) == find_row(
                db.sessions,
                session_of(other),
            )
            &&& find_row(after.users, users::by_id(user_id)) matches Some(u) ==> u.password_hash
                == password_hash
            &&& other != user_id ==> find_row(after.users, users::by_id(other)) == find_row(
                db.users,
                users::by_id(other),
            )
        }),
{
    let (after, user_id) = redeemed(db, token_hash, password_hash, now)->Ok_0;
    let keep = |s: users::LoginSessionView| !session_of(user_id)(s);
    lemma_filter_rules_out(db.sessions, keep, session_of(user_id));
    if other != user_id {
        lemma_find_filter(db.sessions, keep, session_of(other));
        lemma_find_updated(
            db.users,
            users::by_id(other),
            users::by_id(user_id),
            with_password(password_hash),
        );
        lemma_find_any(db.users, users::by_id(other));
    }
    lemma_find_updated(
        db.users,
        users::by_id(user_id),
        users::by_id(user_id),
        with_password(password_hash),
    );
    lemma_find_any(db.users, users::by_id(user_id));
}

/// A token that was issued can be redeemed until it expires, however it was asked for, and once
/// only: the first redemption gives the account its password, and a second finds nothing to redeem.
/// It has to be the only token with its hash that can be redeemed.
pub proof fn law_issued_token_redeems(
    db: LedgerView,
    id: Seq<char>,
    user_id: Seq<char>,
    via: RequestedVia,
    token_hash: Seq<char>,
    password_hash: Seq<char>,
    second: Seq<char>,
    now: i64,
    at: i64,
    later: i64,
)
    requires
        issued(db, id, user_id, via, token_hash, now) is Ok,
        !any_row(db.reset_tokens, redeemable(token_hash, at)),
        !any_row(db.reset_tokens, redeemable(token_hash, later)),
    ensures
        match redeemed(
            issued(db, id, user_id, via, token_hash, now)->Ok_0,
            token_hash,
            password_hash,
            at,
        ) {
            Ok((after, account)) => {
                &&& at < now + EXPIRES_IN_SECONDS
                &&& account == user_id
                &&& find_row(after.users, users::by_id(user_id)) matches Some(u) ==> u.password_hash
                    == password_hash
                &&& redeemed(after, token_hash, second, later) == Err::<
                    (LedgerView, Seq<char>),
                    RedeemError,
                >(RedeemError::InvalidOrExpired)
            },
            Err(e) => at >= now + EXPIRES_IN_SECONDS,
        },
{
    let row = new_row(
        id,
        user_id,
        token_hash,
        via,
        (now + EXPIRES_IN_SECONDS) as i64,
        now,
    );
    let with_token = issued(db, id, user_id, via, token_hash, now)->Ok_0;
    lemma_find_any(db.reset_tokens, redeemable(token_hash, at));
    lemma_find_push(db.reset_tokens, row, redeemable(token_hash, at));
    if redeemed(with_token, token_hash, password_hash, at) is Ok {
        assert forall|i: int|
            0 <= i < with_token.reset_tokens.len() && redeemable(token_hash, later)(
                #[trigger] with_token.reset_tokens[i],
            ) implies with_token.reset_tokens[i].id == id by {
            if i < db.reset_tokens.len() {
                assert(redeemable(token_hash, later)(db.reset_tokens[i]));
            }
        }
        law_redeemed_once(with_token, token_hash, password_hash, second, at, later);
        law_redeeming_ends_sessions(with_token, token_hash, password_hash, user_id, at);
    }
}

/// A reset token lives for a day from when it is issued, for the account it is issued for.
pub proof fn law_reset_tokens_live_a_day(
    db: LedgerView,
    id: Seq<char>,
    user_id: Seq<char>,
    via: RequestedVia,
    token_hash: Seq<char>,
    now: i64,
)
    ensures
        match issued(db, id, user_id, via, token_hash, now) {
            Err(_) => now + 86400 > i64::MAX,
            Ok(after) => {
                let t = after.reset_tokens.last();
                &&& after == (LedgerView { reset_tokens: db.reset_tokens.push(t), ..db })
                &&& t.id == id && t.user_id == user_id && t.token_hash == token_hash
                &&& t.created_at == now && t.expires_at == now + 86400 && t.consumed_at is None
                &&& via is AdminCli ==> t.requested_via == "admin_cli"@
                &&& via is SelfService ==> t.requested_via == "self_service"@
            },
        },
{
}

/// A live token sets the password of its account, is used up, and ends every session of that account
/// and of no other.
pub proof fn law_a_live_token_sets_the_password(
    db: LedgerView,
    token_hash: Seq<char>,
    hash: Seq<char>,
    now: i64,
    i: int,
    k: int,
    s: users::LoginSessionView,
)
    requires
        only(
            db.reset_tokens,
            i,
            |t: ResetTokenView|
                t.token_hash == token_hash && t.consumed_at is None && t.expires_at > now,
        ),
        0 <= k < db.users.len(),
    ensures
        ({
            let t = db.reset_tokens[i];
            match redeemed(db, token_hash, hash, now) {
                Err(_) => false,
                Ok((after, user_id)) => {
                    &&& user_id == t.user_id
                    &&& after == (LedgerView {
                        users: after.users,
                        reset_tokens: after.reset_tokens,
                        sessions: after.sessions,
                        ..db
                    })
                    &&& after.users.len() == db.users.len()
                    &&& db.users[k].id == t.user_id ==> after.users[k] == (users::UserView {
                        password_hash: hash,
                        ..db.users[k]
                    })
                    &&& db.users[k].id != t.user_id ==> after.users[k] == db.users[k]
                    &&& after.reset_tokens.len() == db.reset_tokens.len()
                    &&& after.reset_tokens[i] == (ResetTokenView { consumed_at: Some(now), ..t })
                    &&& forall|j: int|
                        0 <= j < db.reset_tokens.len() && db.reset_tokens[j].id != t.id
                            ==> #[trigger] after.reset_tokens[j] == db.reset_tokens[j]
                    &&& after.sessions.contains(s) <==> db.sessions.contains(s) && s.user_id
                        != t.user_id
                },
            }
        }),
{
    let live = |t: ResetTokenView|
        t.token_hash == token_hash && t.consumed_at is None && t.expires_at > now;
    lemma_find_only(db.reset_tokens, i, live, redeemable(token_hash, now));
    let u = db.reset_tokens[i].user_id;
    lemma_filter_contains(db.sessions, |s: users::LoginSessionView| !session_of(u)(s), s);
}

/// No other token sets any.
pub proof fn law_no_live_token_no_reset(
    db: LedgerView,
    token_hash: Seq<char>,
    hash: Seq<char>,
    now: i64,
)
    requires
        forall|j: int|
            0 <= j < db.reset_tokens.len() ==> (#[trigger] db.reset_tokens[j]).token_hash
                != token_hash || db.reset_tokens[j].consumed_at is Some
                || db.reset_tokens[j].expires_at <= now,
    ensures
        redeemed(db, token_hash, hash, now) == Err::<(LedgerView, Seq<char>), RedeemError>(
            RedeemError::InvalidOrExpired,
        ),
{
    lemma_find_any(db.reset_tokens, redeemable(token_hash, now));
}

} // verus!
