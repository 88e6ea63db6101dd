//! API tokens for automation: opaque, revocable, and a Keyholder's alone. Only the hash of a token
//! is kept; the token itself is shown once.

use vstd::prelude::*;
use vstd::string::StringExecFnsIsAscii;

use crate::arith::{plus, stored, times};
use crate::domain::users;
use crate::error::DbError;
use crate::ids::{is_id, new_id};
use crate::ledger::{Ledger, LedgerView};
use crate::table::{
    any_row, find, find_row, insert, lemma_any_same, lemma_find_any, lemma_find_only,
    lemma_find_push, lemma_find_updated, lemma_listed, only, order, ordered_from, rows, select,
    updated, Row,
};
use crate::text::{dup_texts, own, same};

verus! {

/// How much of a token listings show, so that a Keyholder can tell tokens apart.
pub const PREFIX_LEN: usize = 8;

/// A stored API token; only its hash is kept.
#[derive(Debug, PartialEq, Eq)]
pub struct ApiToken {
    pub id: String,
    pub keyholder_id: String,
    pub label: String,
    pub token_prefix: String,
    pub token_hash: String,
    pub scopes: String,
    pub created_at: i64,
    pub expires_at: Option<i64>,
    pub last_used_at: Option<i64>,
    pub revoked_at: Option<i64>,
}

/// What an `ApiToken` holds.
#[verifier::ext_equal]
pub struct ApiTokenView {
    pub id: Seq<char>,
    pub keyholder_id: Seq<char>,
    pub label: Seq<char>,
    pub token_prefix: Seq<char>,
    pub token_hash: Seq<char>,
    pub scopes: Seq<char>,
    pub created_at: i64,
    pub expires_at: Option<i64>,
    pub last_used_at: Option<i64>,
    pub revoked_at: Option<i64>,
}

impl View for ApiToken {
    type V = ApiTokenView;

    open spec fn view(&self) -> ApiTokenView {
        ApiTokenView {
            id: self.id@,
            keyholder_id: self.keyholder_id@,
            label: self.label@,
            token_prefix: self.token_prefix@,
            token_hash: self.token_hash@,
            scopes: self.scopes@,
            created_at: self.created_at,
            expires_at: self.expires_at,
            last_used_at: self.last_used_at,
            revoked_at: self.revoked_at,
        }
    }
}

impl DeepView for ApiToken {
    type V = ApiTokenView;

    open spec fn deep_view(&self) -> ApiTokenView {
        self.view()
    }
}

impl Row for ApiToken {
    fn dup(&self) -> (r: Self) {
        ApiToken {
            id: self.id.clone(),
            keyholder_id: self.keyholder_id.clone(),
            label: self.label.clone(),
            token_prefix: self.token_prefix.clone(),
            token_hash: self.token_hash.clone(),
            scopes: self.scopes.clone(),
            created_at: self.created_at,
            expires_at: self.expires_at,
            last_used_at: self.last_used_at,
            revoked_at: self.revoked_at,
        }
    }
}

/// A token as it is shown once.
#[derive(Debug, PartialEq, Eq)]
pub struct CreatedToken {
    pub id: String,
    pub token: String,
    pub prefix: String,
    pub expires_at: Option<i64>,
}

/// What a `CreatedToken` holds.
#[verifier::ext_equal]
pub struct CreatedTokenView {
    pub id: Seq<char>,
    pub token: Seq<char>,
    pub prefix: Seq<char>,
    pub expires_at: Option<i64>,
}

impl View for CreatedToken {
    type V = CreatedTokenView;

    open spec fn view(&self) -> CreatedTokenView {
        CreatedTokenView {
            id: self.id@,
            token: self.token@,
            prefix: self.prefix@,
            expires_at: self.expires_at,
        }
    }
}

/// A token as listings show it.
#[derive(Debug, PartialEq, Eq)]
pub struct TokenSummary {
    pub id: String,
    pub label: String,
    pub token_prefix: String,
    pub scopes: Vec<String>,
    pub created_at: i64,
    pub expires_at: Option<i64>,
    pub last_used_at: Option<i64>,
    pub revoked_at: Option<i64>,
}

/// What a `TokenSummary` holds.
#[verifier::ext_equal]
pub struct TokenSummaryView {
    pub id: Seq<char>,
    pub label: Seq<char>,
    pub token_prefix: Seq<char>,
    pub scopes: Seq<Seq<char>>,
    pub created_at: i64,
    pub expires_at: Option<i64>,
    pub last_used_at: Option<i64>,
    pub revoked_at: Option<i64>,
}

impl View for TokenSummary {
    type V = TokenSummaryView;

    open spec fn view(&self) -> TokenSummaryView {
        TokenSummaryView {
            id: self.id@,
            label: self.label@,
            token_prefix: self.token_prefix@,
            scopes: self.scopes.deep_view(),
            created_at: self.created_at,
            expires_at: self.expires_at,
            last_used_at: self.last_used_at,
            revoked_at: self.revoked_at,
        }
    }
}

impl DeepView for TokenSummary {
    type V = TokenSummaryView;

    open spec fn deep_view(&self) -> TokenSummaryView {
        self.view()
    }
}

impl Row for TokenSummary {
    fn dup(&self) -> (r: Self) {
        TokenSummary {
            id: self.id.clone(),
            label: self.label.clone(),
            token_prefix: self.token_prefix.clone(),
            scopes: dup_texts(&self.scopes),
            created_at: self.created_at,
            expires_at: self.expires_at,
            last_used_at: self.last_used_at,
            revoked_at: self.revoked_at,
        }
    }
}

/// Whom a token speaks for.
#[derive(Debug, PartialEq, Eq)]
pub struct ResolvedToken {
    pub keyholder_id: String,
    pub display_name: String,
    pub scopes: Vec<String>,
}

/// What a `ResolvedToken` holds.
#[verifier::ext_equal]
pub struct ResolvedTokenView {
    pub keyholder_id: Seq<char>,
    pub display_name: Seq<char>,
    pub scopes: Seq<Seq<char>>,
}

impl View for ResolvedToken {
    type V = ResolvedTokenView;

    open spec fn view(&self) -> ResolvedTokenView {
        ResolvedTokenView {
            keyholder_id: self.keyholder_id@,
            display_name: self.display_name@,
            scopes: self.scopes.deep_view(),
        }
    }
}

impl DeepView for ResolvedToken {
    type V = ResolvedTokenView;

    open spec fn deep_view(&self) -> ResolvedTokenView {
        self.view()
    }
}

/// The texts that a JSON array holds; `None` where the text is not an array of strings.
pub uninterp spec fn texts_of(raw: Seq<char>) -> Option<Seq<Seq<char>>>;

/// The JSON array of some texts.
pub uninterp spec fn texts_text(texts: Seq<Seq<char>>) -> Seq<char>;

/// Writes scopes as a JSON array: `serde_json::to_string`, which does not fail on strings. The
/// scopes decide the text alone, and reading it back gives them.
#[verifier::external_body]
fn encode_scopes(scopes: &[String]) -> (r: String)
    ensures
        r@ == texts_text(scopes.deep_view()),
        texts_of(r@) == Some(scopes.deep_view()),
{
    serde_json::to_string(scopes).expect("strings serialize")
}

/// Reads a JSON array of strings: `serde_json::from_str`. The text decides the result alone.
#[verifier::external_body]
fn parse_texts(raw: &str) -> (r: Option<Vec<String>>)
    ensures
        r.deep_view() == texts_of(raw@),
{
    serde_json::from_str(raw).ok()
}

/// The scopes that a stored text stands for: none where it cannot be read.
pub open spec fn scopes_of(raw: Seq<char>) -> Seq<Seq<char>> {
    match texts_of(raw) {
        Some(scopes) => scopes,
        None => Seq::empty(),
    }
}

/// Reads stored scopes.
pub fn decode_scopes(raw: &str) -> (r: Vec<String>)
    ensures
        r.deep_view() == scopes_of(raw@),
{
    match parse_texts(raw) {
        Some(scopes) => scopes,
        None => {
            let none: Vec<String> = Vec::new();
            assert(none.deep_view() =~= Seq::empty());
            none
        },
    }
}

/// When a token expires that lives for so many days.
pub open spec fn expiry(days: Option<i64>, now: i64) -> Result<Option<i64>, DbError> {
    match days {
        None => Ok(None),
        Some(d) => match stored(d * 86400) {
            Err(e) => Err(e),
            Ok(seconds) => match stored(now + seconds) {
                Err(e) => Err(e),
                Ok(at) => Ok(Some(at)),
            },
        },
    }
}

/// When a token expires that lives for so many days.
fn compute_expiry(days: Option<i64>, now: i64) -> (r: Result<Option<i64>, DbError>)
    ensures
        r == expiry(days, now),
{
    match days {
        None => Ok(None),
        Some(d) => match times(d, 86400) {
            Err(e) => Err(e),
            Ok(seconds) => match plus(now, seconds) {
                Err(e) => Err(e),
                Ok(at) => Ok(Some(at)),
            },
        },
    }
}

/// A token as it is created: neither used nor revoked.
pub open spec fn new_row(
    id: Seq<char>,
    keyholder_id: Seq<char>,
    label: Seq<char>,
    scopes: Seq<Seq<char>>,
    token: Seq<char>,
    token_hash: Seq<char>,
    expires_at: Option<i64>,
    now: i64,
) -> ApiTokenView {
    ApiTokenView {
        id,
        keyholder_id,
        label,
        token_prefix: token.take(8),
        token_hash,
        scopes: texts_text(scopes),
        created_at: now,
        expires_at,
        last_used_at: None,
        revoked_at: None,
    }
}

/// A token with a new hash speaks for its Keyholder until it expires, with the scopes that it was
/// given.
pub open spec fn resolves_from_then_on(
    before: LedgerView,
    after: LedgerView,
    keyholder_id: Seq<char>,
    scopes: Seq<Seq<char>>,
    token_hash: Seq<char>,
    expires_at: Option<i64>,
) -> bool {
    !any_row(before.api_tokens, by_hash(token_hash)) ==> match find_row(
        before.users,
        users::by_id(keyholder_id),
    ) {
        None => true,
        Some(u) => forall|t: i64|
            (expires_at matches Some(at) ==> t <= at) ==> (#[trigger] resolved(
                after,
                token_hash,
                t,
            )) is Ok && resolved(after, token_hash, t)->Ok_0.1 == Some(
                ResolvedTokenView { keyholder_id, display_name: u.display_name, scopes },
            ),
    }
}

/// Creates a token from fresh random text and its hash. The text is handed back and not kept.
pub fn create(
    db: &mut Ledger,
    keyholder_id: &str,
    label: &str,
    scopes: &[String],
    expires_in_days: Option<i64>,
    token: &str,
    token_hash: &str,
    now: i64,
) -> (r: Result<CreatedToken, DbError>)
    requires
        token.is_ascii(),
        token@.len() >= PREFIX_LEN,
    ensures
        match expiry(expires_in_days, now) {
            Err(e) => r == Err::<CreatedToken, DbError>(e) && final(db)@ == old(db)@,
            Ok(expires_at) => r is Ok && is_id(r->Ok_0@.id) && r->Ok_0@ == (CreatedTokenView {
                id: r->Ok_0@.id,
                token: token@,
                prefix: token@.take(8),
                expires_at,
            }) && final(db)@ == (LedgerView {
                api_tokens: old(db)@.api_tokens.push(
                    new_row(
                        r->Ok_0@.id,
                        keyholder_id@,
                        label@,
                        scopes.deep_view(),
                        token@,
                        token_hash@,
                        expires_at,
                        now,
                    ),
                ),
                ..old(db)@
            }) && scopes_of(texts_text(scopes.deep_view())) == scopes.deep_view()
                && resolves_from_then_on(
                old(db)@,
                final(db)@,
                keyholder_id@,
                scopes.deep_view(),
                token_hash@,
                expires_at,
            ),
        },
{
    let expires_at = match compute_expiry(expires_in_days, now) {
        Ok(at) => at,
        Err(e) => {
            return Err(e);
        },
    };
    let id = new_id();
    let prefix = own(token.substring_ascii(0, PREFIX_LEN));
    assert(token@.subrange(0, 8) =~= token@.take(8));
    let encoded = encode_scopes(scopes);
    insert(
        &mut db.api_tokens,
        ApiToken {
            id: id.clone(),
            keyholder_id: own(keyholder_id),
            label: own(label),
            token_prefix: prefix.clone(),
            token_hash: own(token_hash),
            scopes: encoded,
            created_at: now,
            expires_at,
            last_used_at: None,
            revoked_at: None,
        },
    );
    proof {
        let row = new_row(
            id@,
            keyholder_id@,
            label@,
            scopes.deep_view(),
            token@,
            token_hash@,
            expires_at,
            now,
        );
        lemma_find_any(old(db)@.api_tokens, by_hash(token_hash@));
        lemma_find_push(old(db)@.api_tokens, row, by_hash(token_hash@));
    }
    Ok(CreatedToken { id, token: own(token), prefix, expires_at })
}

/// A token of this Keyholder.
pub open spec fn of_keyholder(keyholder_id: Seq<char>) -> spec_fn(ApiTokenView) -> bool {
    |t: ApiTokenView| t.keyholder_id == keyholder_id
}

/// Newest first.
pub open spec fn newest_first() -> spec_fn(ApiTokenView, ApiTokenView) -> bool {
    |a: ApiTokenView, b: ApiTokenView| a.created_at >= b.created_at
}

/// As listings show it: without its hash.
pub open spec fn shown() -> spec_fn(ApiTokenView) -> TokenSummaryView {
    |t: ApiTokenView|
        TokenSummaryView {
            id: t.id,
            label: t.label,
            token_prefix: t.token_prefix,
            scopes: scopes_of(t.scopes),
            created_at: t.created_at,
            expires_at: t.expires_at,
            last_used_at: t.last_used_at,
            revoked_at: t.revoked_at,
        }
}

/// A Keyholder's tokens, newest first.
pub fn list_for_keyholder(db: &Ledger, keyholder_id: &str) -> (r: Vec<TokenSummary>)
    ensures
        exists|found: Seq<ApiTokenView>|
            #[trigger] ordered_from(
                found,
                db@.api_tokens.filter(of_keyholder(keyholder_id@)),
                newest_first(),
            ) && rows(r@) == found.map_values(shown()),
{
    let ghost p = of_keyholder(keyholder_id@);
    let ghost le = newest_first();
    let test = |t: &ApiToken| -> (b: bool)
        ensures
            b == p(t@),
        { same(t.keyholder_id.as_str(), keyholder_id) };
    let before = |a: &ApiToken, b: &ApiToken| -> (c: bool)
        ensures
            c == le(a@, b@),
        { a.created_at >= b.created_at };
    let found = order(select(&db.api_tokens, Ghost(p), test), Ghost(le), before);
    let mut out: Vec<TokenSummary> = Vec::new();
    let mut i: usize = 0;
    while i < found.len()
        invariant
            i <= found@.len(),
            out@.len() == i,
            forall|j: int| 0 <= j < i ==> #[trigger] out@[j]@ == shown()(found@[j]@),
        decreases found@.len() - i,
    {
        let t = &found[i];
        out.push(
            TokenSummary {
                id: t.id.clone(),
                label: t.label.clone(),
                token_prefix: t.token_prefix.clone(),
                scopes: decode_scopes(t.scopes.as_str()),
                created_at: t.created_at,
                expires_at: t.expires_at,
                last_used_at: t.last_used_at,
                revoked_at: t.revoked_at,
            },
        );
        i = i + 1;
    }
    assert(rows(out@) =~= rows(found@).map_values(shown()));
    assert(ordered_from(rows(found@), db@.api_tokens.filter(p), le));
    out
}

/// This Keyholder's token with this id.
pub open spec fn owned(id: Seq<char>, keyholder_id: Seq<char>) -> spec_fn(ApiTokenView) -> bool {
    |t: ApiTokenView| t.id == id && t.keyholder_id == keyholder_id
}

/// With this label and these scopes, where they are given.
pub open spec fn with_terms(
    label: Option<Seq<char>>,
    scopes: Option<Seq<Seq<char>>>,
) -> spec_fn(ApiTokenView) -> ApiTokenView {
    |t: ApiTokenView|
        ApiTokenView {
            label: match label {
                Some(l) => l,
                None => t.label,
            },
            scopes: match scopes {
                Some(s) => texts_text(s),
                None => t.scopes,
            },
            ..t
        }
}

/// Renames a token or changes what it may do; `false` where it is not this Keyholder's.
pub fn update(
    db: &mut Ledger,
    token_id: &str,
    keyholder_id: &str,
    label: Option<&str>,
    scopes: Option<&[String]>,
) -> (r: bool)
    ensures
        r == any_row(old(db)@.api_tokens, owned(token_id@, keyholder_id@)),
        final(db)@ == (LedgerView {
            api_tokens: updated(
                old(db)@.api_tokens,
                owned(token_id@, keyholder_id@),
                with_terms(label.deep_view(), scopes.deep_view()),
            ),
            ..old(db)@
        }),
        scopes matches Some(s) ==> scopes_of(texts_text(s.deep_view())) == s.deep_view(),
{
    let encoded = match scopes {
        Some(s) => Some(encode_scopes(s)),
        None => None,
    };
    let ghost p = owned(token_id@, keyholder_id@);
    let ghost u = with_terms(label.deep_view(), scopes.deep_view());
    let change = |t: &ApiToken| -> (n: Option<ApiToken>)
        ensures
            match n {
                Some(x) => p(t@) && x@ == u(t@),
                None => !p(t@),
            },
        {
            if same(t.id.as_str(), token_id) && same(t.keyholder_id.as_str(), keyholder_id) {
                let mut n = t.dup();
                if let Some(l) = label {
                    n.label = own(l);
                }
                if let Some(e) = &encoded {
                    n.scopes = e.clone();
                }

                Some(n)
            } else {
                None
            }
        };
    crate::table::update(&mut db.api_tokens, Ghost(p), Ghost(u), change)
}

/// This Keyholder's token with this id, not revoked.
pub open spec fn revocable(id: Seq<char>, keyholder_id: Seq<char>) -> spec_fn(ApiTokenView) -> bool {
    |t: ApiTokenView| t.id == id && t.keyholder_id == keyholder_id && t.revoked_at is None
}

/// Revoked now.
pub open spec fn revoked(now: i64) -> spec_fn(ApiTokenView) -> ApiTokenView {
    |t: ApiTokenView| ApiTokenView { revoked_at: Some(now), ..t }
}

/// Revokes a token; `false` where this Keyholder has none with this id that is not revoked.
pub fn revoke(db: &mut Ledger, token_id: &str, keyholder_id: &str, now: i64) -> (r: bool)
    ensures
        r == any_row(old(db)@.api_tokens, revocable(token_id@, keyholder_id@)),
        final(db)@ == (LedgerView {
            api_tokens: updated(
                old(db)@.api_tokens,
                revocable(token_id@, keyholder_id@),
                revoked(now),
            ),
            ..old(db)@
        }),
{
    let ghost p = revocable(token_id@, keyholder_id@);
    let ghost u = revoked(now);
    let change = |t: &ApiToken| -> (n: Option<ApiToken>)
        ensures
            match n {
                Some(x) => p(t@) && x@ == u(t@),
                None => !p(t@),
            },
        {
            if same(t.id.as_str(), token_id) && same(t.keyholder_id.as_str(), keyholder_id)
                && t.revoked_at.is_none() {
                let mut n = t.dup();
                n.revoked_at = Some(now);

                Some(n)
            } else {
                None
            }
        };
    crate::table::update(&mut db.api_tokens, Ghost(p), Ghost(u), change)
}

/// The token has this hash.
pub open spec fn by_hash(hash: Seq<char>) -> spec_fn(ApiTokenView) -> bool {
    |t: ApiTokenView| t.token_hash == hash
}

/// The token has this id.
pub open spec fn by_id(id: Seq<char>) -> spec_fn(ApiTokenView) -> bool {
    |t: ApiTokenView| t.id == id
}

/// Used now.
pub open spec fn used(now: i64) -> spec_fn(ApiTokenView) -> ApiTokenView {
    |t: ApiTokenView| ApiTokenView { last_used_at: Some(now), ..t }
}

/// Good for a request now: neither revoked nor expired.
pub open spec fn live(t: ApiTokenView, now: i64) -> bool {
    t.revoked_at is None && (t.expires_at matches Some(at) ==> at >= now)
}

/// The ledger after a token was presented, and whom it speaks for: nobody where it is unknown,
/// revoked or expired.
pub open spec fn resolved(db: LedgerView, token_hash: Seq<char>, now: i64) -> Result<
    (LedgerView, Option<ResolvedTokenView>),
    DbError,
> {
    match find_row(db.api_tokens, by_hash(token_hash)) {
        None => Ok((db, None)),
        Some(t) => if !live(t, now) {
            Ok((db, None))
        } else {
            match find_row(db.users, users::by_id(t.keyholder_id)) {
                None => Err(DbError::NoRows),
                Some(u) => Ok(
                    (
                        LedgerView {
                            api_tokens: updated(db.api_tokens, by_id(t.id), used(now)),
                            ..db
                        },
                        Some(
                            ResolvedTokenView {
                                keyholder_id: t.keyholder_id,
                                display_name: u.display_name,
                                scopes: scopes_of(t.scopes),
                            },
                        ),
                    ),
                ),
            }
        },
    }
}

/// Finds out whom a token speaks for, by its hash.
pub fn resolve(db: &mut Ledger, token_hash: &str, now: i64) -> (r: Result<
    Option<ResolvedToken>,
    DbError,
>)
    ensures
        match resolved(old(db)@, token_hash@, now) {
            Ok((after, token)) => r is Ok && r->Ok_0.deep_view() == token && final(db)@ == after,
            Err(e) => r == Err::<Option<ResolvedToken>, DbError>(e) && final(db)@ == old(db)@,
        },
{
    let ghost q = by_hash(token_hash@);
    let test = |t: &ApiToken| -> (b: bool)
        ensures
            b == q(t@),
        { same(t.token_hash.as_str(), token_hash) };
    let t = match find(&db.api_tokens, Ghost(q), test) {
        Some(t) => t.dup(),
        None => {
            return Ok(None);
        },
    };
    let expired = match t.expires_at {
        Some(at) => at < now,
        None => false,
    };
    if t.revoked_at.is_some() || expired {
        return Ok(None);
    }
    let display_name = match users::get(db, t.keyholder_id.as_str()) {
        Some(u) => u.display_name.clone(),
        None => {
            return Err(DbError::NoRows);
        },
    };
    let ghost p = by_id(t@.id);
    let ghost u = used(now);
    let change = |row: &ApiToken| -> (n: Option<ApiToken>)
        ensures
            match n {
                Some(x) => p(row@) && x@ == u(row@),
                None => !p(row@),
            },
        {
            if same(row.id.as_str(), t.id.as_str()) {
                let mut n = row.dup();
                n.last_used_at = Some(now);

                Some(n)
            } else {
                None
            }
        };
    crate::table::update(&mut db.api_tokens, Ghost(p), Ghost(u), change);
    Ok(
        Some(
            ResolvedToken {
                keyholder_id: t.keyholder_id,
                display_name,
                scopes: decode_scopes(t.scopes.as_str()),
            },
        ),
    )
}

/// A token that was revoked speaks for nobody, whichever Keyholder's it was.
pub proof fn law_revoked_token_is_dead(
    db: LedgerView,
    token_id: Seq<char>,
    keyholder_id: Seq<char>,
    token_hash: Seq<char>,
    now: i64,
    later: i64,
)
    requires
        find_row(db.api_tokens, by_hash(token_hash)) matches Some(t) && t.id == token_id
            && t.keyholder_id == keyholder_id,
    ensures
        ({
            let after = LedgerView {
                api_tokens: updated(
                    db.api_tokens,
                    revocable(token_id, keyholder_id),
                    revoked(now),
                ),
                ..db
            };
            resolved(after, token_hash, later) == Ok::<
                (LedgerView, Option<ResolvedTokenView>),
                DbError,
            >((after, None))
        }),
{
    lemma_find_any(db.api_tokens, by_hash(token_hash));
    lemma_find_updated(
        db.api_tokens,
        by_hash(token_hash),
        revocable(token_id, keyholder_id),
        revoked(now),
    );
}

/// A token past its expiry speaks for nobody, and presenting it leaves no trace.
pub proof fn law_expired_token_is_dead(db: LedgerView, token_hash: Seq<char>, now: i64)
    requires
        find_row(db.api_tokens, by_hash(token_hash)) matches Some(t)
            && t.expires_at matches Some(at)
            && at < now,
    ensures
        resolved(db, token_hash, now) == Ok::<(LedgerView, Option<ResolvedTokenView>), DbError>(
            (db, None),
        ),
{
}

/// Presenting a live token says when it was used, and does not use it up.
pub proof fn law_use_is_noted(db: LedgerView, token_hash: Seq<char>, now: i64)
    requires
        resolved(db, token_hash, now) is Ok,
        resolved(db, token_hash, now)->Ok_0.1 is Some,
    ensures
        ({
            let (after, token) = resolved(db, token_hash, now)->Ok_0;
            &&& find_row(after.api_tokens, by_hash(token_hash))->0.last_used_at == Some(now)
            &&& resolved(after, token_hash, now) is Ok
            &&& resolved(after, token_hash, now)->Ok_0.1 == token
        }),
{
    let t = find_row(db.api_tokens, by_hash(token_hash))->0;
    lemma_find_any(db.api_tokens, by_hash(token_hash));
    lemma_find_updated(db.api_tokens, by_hash(token_hash), by_id(t.id), used(now));
}

/// A token lives for the days asked for, for ever where none are said; it starts unused, shows its
/// first eight characters, and belongs to the Keyholder who made it.
pub proof fn law_tokens_live_for_their_days(
    days: Option<i64>,
    now: i64,
    id: Seq<char>,
    keyholder_id: Seq<char>,
    label: Seq<char>,
    scopes: Seq<Seq<char>>,
    token: Seq<char>,
    token_hash: Seq<char>,
)
    requires
        token.len() >= 8,
    ensures
        match expiry(days, now) {
            Ok(None) => days is None,
            Ok(Some(at)) => days is Some && at == now + days->0 * 86400,
            Err(_) => days is Some && !(i64::MIN <= days->0 * 86400 <= i64::MAX && i64::MIN <= now
                + days->0 * 86400 <= i64::MAX),
        },
        forall|expires_at: Option<i64>|
            {
                let t = #[trigger] new_row(
                    id,
                    keyholder_id,
                    label,
                    scopes,
                    token,
                    token_hash,
                    expires_at,
                    now,
                );
                &&& t.id == id && t.keyholder_id == keyholder_id && t.label == label
                &&& t.token_hash == token_hash && t.created_at == now && t.expires_at == expires_at
                &&& t.last_used_at is None && t.revoked_at is None
                &&& t.token_prefix.len() == 8
                &&& forall|i: int| 0 <= i < 8 ==> #[trigger] t.token_prefix[i] == token[i]
            },
{
}

/// A token speaks for its Keyholder while it is neither revoked nor past its last second, and each
/// such use is noted on it; otherwise it speaks for nobody, and nothing is noted.
pub proof fn law_a_live_token_speaks_for_its_keyholder(
    db: LedgerView,
    token_hash: Seq<char>,
    now: i64,
    i: int,
    k: int,
)
    requires
        only(db.api_tokens, i, |t: ApiTokenView| t.token_hash == token_hash),
        only(db.users, k, |u: users::UserView| u.id == db.api_tokens[i].keyholder_id),
    ensures
        ({
            let t = db.api_tokens[i];
            let good = t.revoked_at is None && (t.expires_at is None || now <= t.expires_at->0);
            match resolved(db, token_hash, now) {
                Err(_) => false,
                Ok((after, who)) => {
                    &&& !good ==> who is None && after == db
                    &&& good ==> {
                        &&& who is Some
                        &&& who->0.keyholder_id == t.keyholder_id
                        &&& who->0.display_name == db.users[k].display_name
                        &&& who->0.scopes == scopes_of(t.scopes)
                        &&& after == (LedgerView { api_tokens: after.api_tokens, ..db })
                        &&& after.api_tokens.len() == db.api_tokens.len()
                        &&& after.api_tokens[i] == (ApiTokenView { last_used_at: Some(now), ..t })
                        &&& forall|j: int|
                            0 <= j < db.api_tokens.len() && db.api_tokens[j].id != t.id
                                ==> #[trigger] after.api_tokens[j] == db.api_tokens[j]
                    }
                },
            }
        }),
{
    lemma_find_only(
        db.api_tokens,
        i,
        |t: ApiTokenView| t.token_hash == token_hash,
        by_hash(token_hash),
    );
    let owner = db.api_tokens[i].keyholder_id;
    lemma_find_only(db.users, k, |u: users::UserView| u.id == owner, users::by_id(owner));
}

/// A Keyholder renames, rescopes and revokes their own tokens: what is given is replaced, a token is
/// revoked once, and nobody's tokens change otherwise.
pub proof fn law_tokens_are_changed_by_their_keyholder(
    tokens: Seq<ApiTokenView>,
    id: Seq<char>,
    keyholder_id: Seq<char>,
    label: Option<Seq<char>>,
    scopes: Option<Seq<Seq<char>>>,
    now: i64,
    k: int,
)
    requires
        0 <= k < tokens.len(),
    ensures
        ({
            let t = tokens[k];
            let own = t.id == id && t.keyholder_id == keyholder_id;
            let edited = updated(tokens, owned(id, keyholder_id), with_terms(label, scopes));
            let dead = updated(tokens, revocable(id, keyholder_id), revoked(now));
            &&& edited.len() == tokens.len() && dead.len() == tokens.len()
            &&& !own ==> edited[k] == t && dead[k] == t
            &&& own ==> {
                &&& any_row(tokens, owned(id, keyholder_id))
                &&& edited[k] == (ApiTokenView {
                    label: if label is Some {
                        label->0
                    } else {
                        t.label
                    },
                    scopes: edited[k].scopes,
                    ..t
                })
                &&& scopes is None ==> edited[k].scopes == t.scopes
                &&& scopes is Some ==> edited[k].scopes == texts_text(scopes->0)
                &&& t.revoked_at is None ==> any_row(tokens, revocable(id, keyholder_id)) && dead[k]
                    == (ApiTokenView { revoked_at: Some(now), ..t })
                &&& t.revoked_at is Some ==> dead[k] == t
            }
        }),
        any_row(tokens, owned(id, keyholder_id)) == any_row(
            tokens,
            |t: ApiTokenView| t.id == id && t.keyholder_id == keyholder_id,
        ),
        any_row(tokens, revocable(id, keyholder_id)) == any_row(
            tokens,
            |t: ApiTokenView|
                t.id == id && t.keyholder_id == keyholder_id && t.revoked_at is None,
        ),
{
    lemma_any_same(
        tokens,
        |t: ApiTokenView| t.id == id && t.keyholder_id == keyholder_id,
        owned(id, keyholder_id),
    );
    lemma_any_same(
        tokens,
        |t: ApiTokenView| t.id == id && t.keyholder_id == keyholder_id && t.revoked_at is None,
        revocable(id, keyholder_id),
    );
    assert(owned(id, keyholder_id)(tokens[k]) ==> any_row(tokens, owned(id, keyholder_id)));
    assert(revocable(id, keyholder_id)(tokens[k]) ==> any_row(
        tokens,
        revocable(id, keyholder_id),
    ));
}

/// A Keyholder's tokens are listed whole, the latest first, and shown as they stand, without their
/// hashes.
pub proof fn law_tokens_are_listed_whole(
    found: Seq<ApiTokenView>,
    tokens: Seq<ApiTokenView>,
    keyholder_id: Seq<char>,
)
    requires
        ordered_from(found, tokens.filter(of_keyholder(keyholder_id)), newest_first()),
    ensures
        forall|t: ApiTokenView| #[trigger]
            found.contains(t) <==> tokens.contains(t) && t.keyholder_id == keyholder_id,
        forall|i: int, j: int|
            0 <= i < j < found.len() ==> (#[trigger] found[i]).created_at >= (
            #[trigger] found[j]).created_at,
        found.map_values(shown()).len() == found.len(),
        forall|i: int|
            0 <= i < found.len() ==> {
                let s = #[trigger] found.map_values(shown())[i];
                &&& s.id == found[i].id && s.label == found[i].label
                &&& s.token_prefix == found[i].token_prefix
                &&& s.scopes == scopes_of(found[i].scopes)
                &&& s.created_at == found[i].created_at && s.expires_at == found[i].expires_at
                &&& s.last_used_at == found[i].last_used_at
                &&& s.revoked_at == found[i].revoked_at
            },
{
    lemma_listed(found, tokens, of_keyholder(keyholder_id), newest_first());
}

} // verus!
