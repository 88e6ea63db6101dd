//! Invites: a Keyholder issues one, a submissive redeems it into an account and an active link.
//! No submissive account comes to exist in any other way.

use vstd::prelude::*;

use crate::arith::{plus, stored, times};
use crate::domain::{audit, links, users};
use crate::error::DbError;
use crate::ids::{is_id, new_id};
use crate::ledger::{Ledger, LedgerView};
use crate::table::{
    any_row, find, find_row, insert, lemma_any_same, lemma_filter_contains, lemma_find_any,
    lemma_find_only, lemma_listed, only, order, ordered_from, remove, rows, select, update, updated,
    Row,
};
use crate::text::{dup_opt, own, same};

verus! {

/// How long an invite lives where nothing says otherwise: two days.
pub const DEFAULT_EXPIRES_IN_HOURS: i64 = 48;

/// A stored invite; only the hash of its token is kept.
#[derive(Debug, PartialEq, Eq)]
pub struct Invite {
    pub id: String,
    pub token_hash: String,
    pub created_by_keyholder_id: String,
    pub expires_at: i64,
    pub used_at: Option<i64>,
    pub used_by_user_id: Option<String>,
}

/// What an `Invite` holds.
#[verifier::ext_equal]
pub struct InviteView {
    pub id: Seq<char>,
    pub token_hash: Seq<char>,
    pub created_by_keyholder_id: Seq<char>,
    pub expires_at: i64,
    pub used_at: Option<i64>,
    pub used_by_user_id: Option<Seq<char>>,
}

impl View for Invite {
    type V = InviteView;

    open spec fn view(&self) -> InviteView {
        InviteView {
            id: self.id@,
            token_hash: self.token_hash@,
            created_by_keyholder_id: self.created_by_keyholder_id@,
            expires_at: self.expires_at,
            used_at: self.used_at,
            used_by_user_id: self.used_by_user_id.deep_view(),
        }
    }
}

impl DeepView for Invite {
    type V = InviteView;

    open spec fn deep_view(&self) -> InviteView {
        self.view()
    }
}

impl Row for Invite {
    fn dup(&self) -> (r: Self) {
        Invite {
            id: self.id.clone(),
            token_hash: self.token_hash.clone(),
            created_by_keyholder_id: self.created_by_keyholder_id.clone(),
            expires_at: self.expires_at,
            used_at: self.used_at,
            used_by_user_id: dup_opt(&self.used_by_user_id),
        }
    }
}

/// An invite as it is shown once.
#[derive(Debug, PartialEq, Eq)]
pub struct CreatedInvite {
    pub id: String,
    pub token: String,
    pub expires_at: i64,
}

/// What a `CreatedInvite` holds.
#[verifier::ext_equal]
pub struct CreatedInviteView {
    pub id: Seq<char>,
    pub token: Seq<char>,
    pub expires_at: i64,
}

impl View for CreatedInvite {
    type V = CreatedInviteView;

    open spec fn view(&self) -> CreatedInviteView {
        CreatedInviteView {
            id: self.id@,
            token: self.token@,
            expires_at: self.expires_at,
        }
    }
}

/// An invite as listings show it.
#[derive(Debug, PartialEq, Eq)]
pub struct InviteSummary {
    pub id: String,
    pub expires_at: i64,
    pub used_at: Option<i64>,
    pub used_by_user_id: Option<String>,
}

/// What an `InviteSummary` holds.
#[verifier::ext_equal]
pub struct InviteSummaryView {
    pub id: Seq<char>,
    pub expires_at: i64,
    pub used_at: Option<i64>,
    pub used_by_user_id: Option<Seq<char>>,
}

impl View for InviteSummary {
    type V = InviteSummaryView;

    open spec fn view(&self) -> InviteSummaryView {
        InviteSummaryView {
            id: self.id@,
            expires_at: self.expires_at,
            used_at: self.used_at,
            used_by_user_id: self.used_by_user_id.deep_view(),
        }
    }
}

impl DeepView for InviteSummary {
    type V = InviteSummaryView;

    open spec fn deep_view(&self) -> InviteSummaryView {
        self.view()
    }
}

impl Row for InviteSummary {
    fn dup(&self) -> (r: Self) {
        InviteSummary {
            id: self.id.clone(),
            expires_at: self.expires_at,
            used_at: self.used_at,
            used_by_user_id: dup_opt(&self.used_by_user_id),
        }
    }
}

/// What redeeming an invite created.
#[derive(Debug, PartialEq, Eq)]
pub struct RedeemedAccount {
    pub user_id: String,
    pub link_id: String,
}

/// What a `RedeemedAccount` holds.
#[verifier::ext_equal]
pub struct RedeemedAccountView {
    pub user_id: Seq<char>,
    pub link_id: Seq<char>,
}

impl View for RedeemedAccount {
    type V = RedeemedAccountView;

    open spec fn view(&self) -> RedeemedAccountView {
        RedeemedAccountView {
            user_id: self.user_id@,
            link_id: self.link_id@,
        }
    }
}

/// What an invite is redeemed with.
#[derive(Debug, PartialEq, Eq)]
pub struct Redeem<'a> {
    /// The hash of the token that the caller holds.
    pub token_hash: &'a str,
    pub email: &'a str,
    pub password_hash: &'a str,
    pub display_name: &'a str,
}

/// What a `Redeem` holds.
#[verifier::ext_equal]
pub struct RedeemView {
    pub token_hash: Seq<char>,
    pub email: Seq<char>,
    pub password_hash: Seq<char>,
    pub display_name: Seq<char>,
}

impl<'a> View for Redeem<'a> {
    type V = RedeemView;

    open spec fn view(&self) -> RedeemView {
        RedeemView {
            token_hash: self.token_hash@,
            email: self.email@,
            password_hash: self.password_hash@,
            display_name: self.display_name@,
        }
    }
}

/// When an invite expires that lives for so many hours.
pub open spec fn expiry(hours: Option<i64>, now: i64) -> Result<i64, DbError> {
    match stored(
        (match hours {
            Some(h) => h,
            None => DEFAULT_EXPIRES_IN_HOURS,
        }) * 3600,
    ) {
        Err(e) => Err(e),
        Ok(seconds) => stored(now + seconds),
    }
}

/// An invite as it is issued: not used.
pub open spec fn new_row(
    id: Seq<char>,
    token_hash: Seq<char>,
    keyholder_id: Seq<char>,
    expires_at: i64,
) -> InviteView {
    InviteView {
        id,
        token_hash,
        created_by_keyholder_id: keyholder_id,
        expires_at,
        used_at: None,
        used_by_user_id: None,
    }
}

/// Issues an invite from fresh random text and its hash. The text is handed back and not kept.
pub fn create(
    db: &mut Ledger,
    keyholder_id: &str,
    expires_in_hours: Option<i64>,
    token: &str,
    token_hash: &str,
    now: i64,
) -> (r: Result<CreatedInvite, DbError>)
    ensures
        match expiry(expires_in_hours, now) {
            Err(e) => r == Err::<CreatedInvite, DbError>(e) && final(db)@ == old(db)@,
            Ok(expires_at) => r is Ok && is_id(r->Ok_0@.id) && r->Ok_0@.token == token@
                && r->Ok_0@.expires_at
                == expires_at && final(db)@ == (LedgerView {
                invites: old(db)@.invites.push(
                    new_row(r->Ok_0@.id, token_hash@, keyholder_id@, expires_at),
                ),
                ..old(db)@
            }),
        },
{
    let hours: i64 = match expires_in_hours {
        Some(h) => h,
        None => DEFAULT_EXPIRES_IN_HOURS,
    };
    let seconds = match times(hours, 3600) {
        Ok(s) => s,
        Err(e) => {
            return Err(e);
        },
    };
    let expires_at = match plus(now, seconds) {
        Ok(t) => t,
        Err(e) => {
            return Err(e);
        },
    };
    let id = new_id();
    insert(
        &mut db.invites,
        Invite {
            id: id.clone(),
            token_hash: own(token_hash),
            created_by_keyholder_id: own(keyholder_id),
            expires_at,
            used_at: None,
            used_by_user_id: None,
        },
    );
    Ok(CreatedInvite { id, token: own(token), expires_at })
}

/// An invite of this Keyholder.
pub open spec fn of_keyholder(keyholder_id: Seq<char>) -> spec_fn(InviteView) -> bool {
    |i: InviteView| i.created_by_keyholder_id == keyholder_id
}

/// The latest expiry first.
pub open spec fn latest_first() -> spec_fn(InviteView, InviteView) -> bool {
    |a: InviteView, b: InviteView| a.expires_at >= b.expires_at
}

/// As listings show it: without the hash of its token.
pub open spec fn shown() -> spec_fn(InviteView) -> InviteSummaryView {
    |i: InviteView|
        InviteSummaryView {
            id: i.id,
            expires_at: i.expires_at,
            used_at: i.used_at,
            used_by_user_id: i.used_by_user_id,
        }
}

/// A Keyholder's invites, the latest expiry first.
pub fn list_for_keyholder(db: &Ledger, keyholder_id: &str) -> (r: Vec<InviteSummary>)
    ensures
        exists|found: Seq<InviteView>|
            #[trigger] ordered_from(
                found,
                db@.invites.filter(of_keyholder(keyholder_id@)),
                latest_first(),
            ) && rows(r@) == found.map_values(shown()),
{
    let ghost p = of_keyholder(keyholder_id@);
    let ghost le = latest_first();
    let test = |i: &Invite| -> (b: bool)
        ensures
            b == p(i@),
        { same(i.created_by_keyholder_id.as_str(), keyholder_id) };
    let before = |a: &Invite, b: &Invite| -> (c: bool)
        ensures
            c == le(a@, b@),
        { a.expires_at >= b.expires_at };
    let found = order(select(&db.invites, Ghost(p), test), Ghost(le), before);
    let mut out: Vec<InviteSummary> = Vec::new();
    let mut i: usize = 0;
    while i < found.len()
        invariant
            i <= found@.len(),
            out@.len() == i,
            forall|j: int| 0 <= j < i ==> #[trigger] out@[j]@ == shown()(found@[j]@),
        decreases found@.len() - i,
    {
        let v = &found[i];
        out.push(
            InviteSummary {
                id: v.id.clone(),
                expires_at: v.expires_at,
                used_at: v.used_at,
                used_by_user_id: dup_opt(&v.used_by_user_id),
            },
        );
        i = i + 1;
    }
    assert(rows(out@) =~= rows(found@).map_values(shown()));
    assert(ordered_from(rows(found@), db@.invites.filter(p), le));
    out
}

/// This Keyholder's invite with this id, not used.
pub open spec fn unused(id: Seq<char>, keyholder_id: Seq<char>) -> spec_fn(InviteView) -> bool {
    |i: InviteView|
        i.id == id && i.created_by_keyholder_id == keyholder_id && i.used_at is None
}

/// Takes an unused invite back; `false` where this Keyholder has none with this id.
pub fn revoke(db: &mut Ledger, invite_id: &str, keyholder_id: &str) -> (r: bool)
    ensures
        r == any_row(old(db)@.invites, unused(invite_id@, keyholder_id@)),
        final(db)@ == (LedgerView {
            invites: old(db)@.invites.filter(
                |i: InviteView| !unused(invite_id@, keyholder_id@)(i),
            ),
            ..old(db)@
        }),
{
    let ghost p = unused(invite_id@, keyholder_id@);
    let test = |i: &Invite| -> (b: bool)
        ensures
            b == p(i@),
        {
            same(i.id.as_str(), invite_id) && same(i.created_by_keyholder_id.as_str(), keyholder_id)
                && i.used_at.is_none()
        };
    remove(&mut db.invites, Ghost(p), test)
}

/// Why an invite was not redeemed.
#[derive(Clone, Copy, Debug, PartialEq, Eq, Structural)]
pub enum RedeemError {
    /// The token is unknown, expired or used.
    InvalidOrExpired,
    /// Another account has this email.
    EmailInUse,
    /// The ledger failed.
    Db(DbError),
}

/// The invite with this token, neither used nor expired.
pub open spec fn redeemable(token_hash: Seq<char>, now: i64) -> spec_fn(InviteView) -> bool {
    |i: InviteView| i.token_hash == token_hash && i.used_at is None && i.expires_at > now
}

/// The invite has this id.
pub open spec fn by_id(id: Seq<char>) -> spec_fn(InviteView) -> bool {
    |i: InviteView| i.id == id
}

/// Used now by an account.
pub open spec fn used_by(user_id: Seq<char>, now: i64) -> spec_fn(InviteView) -> InviteView {
    |i: InviteView| InviteView { used_at: Some(now), used_by_user_id: Some(user_id), ..i }
}

/// The ids that a redemption needs.
#[derive(Debug, PartialEq, Eq)]
pub struct RedeemIds {
    pub user: String,
    pub link: String,
    pub policy: String,
    pub log_line: String,
}

/// What `RedeemIds` hold.
#[verifier::ext_equal]
pub struct RedeemIdsView {
    pub user: Seq<char>,
    pub link: Seq<char>,
    pub policy: Seq<char>,
    pub log_line: Seq<char>,
}

impl RedeemIdsView {
    /// All of them are row identifiers.
    pub open spec fn are_ids(self) -> bool {
        &&& is_id(self.user)
        &&& is_id(self.link)
        &&& is_id(self.policy)
        &&& is_id(self.log_line)
    }
}

impl View for RedeemIds {
    type V = RedeemIdsView;

    open spec fn view(&self) -> RedeemIdsView {
        RedeemIdsView {
            user: self.user@,
            link: self.link@,
            policy: self.policy@,
            log_line: self.log_line@,
        }
    }
}

/// The line that a redemption leaves in the log.
pub open spec fn redeemed_entry(
    user_id: Seq<char>,
    link_id: Seq<char>,
    invite_id: Seq<char>,
) -> audit::EntryView {
    audit::EntryView {
        actor: audit::ActorView::User(user_id),
        link_id: Some(link_id),
        action: "invite.redeemed"@,
        entity_type: "invites"@,
        entity_id: invite_id,
        detail: None,
    }
}

/// The ledger after a redemption: the account, the link and its policy are there, the invite is
/// used, and the log says so. All of it happens or none of it.
pub open spec fn redeemed(db: LedgerView, with: RedeemView, ids: RedeemIdsView, now: i64) -> Result<
    LedgerView,
    RedeemError,
> {
    match find_row(db.invites, redeemable(with.token_hash, now)) {
        None => Err(RedeemError::InvalidOrExpired),
        Some(i) => match users::submissive_created(
            db,
            ids.user,
            users::NewAccountView {
                email: with.email,
                password_hash: with.password_hash,
                display_name: with.display_name,
            },
            now,
        ) {
            Err(users::CreateUserError::EmailInUse) => Err(RedeemError::EmailInUse),
            Err(users::CreateUserError::Db(e)) => Err(RedeemError::Db(e)),
            Ok(joined) => {
                let linked = links::linked(
                    joined,
                    ids.link,
                    ids.policy,
                    i.created_by_keyholder_id,
                    ids.user,
                    now,
                );
                Ok(
                    audit::logged(
                        LedgerView {
                            invites: updated(linked.invites, by_id(i.id), used_by(ids.user, now)),
                            ..linked
                        },
                        ids.log_line,
                        redeemed_entry(ids.user, ids.link, i.id),
                        now,
                    ),
                )
            },
        },
    }
}

/// Redeems an invite under the ids given.
pub fn redeem_as(db: &mut Ledger, redeem: Redeem, ids: RedeemIds, now: i64) -> (r: Result<
    RedeemedAccount,
    RedeemError,
>)
    ensures
        match redeemed(old(db)@, redeem@, ids@, now) {
            Ok(after) => r is Ok && r->Ok_0@ == (RedeemedAccountView {
                user_id: ids@.user,
                link_id: ids@.link,
            }) && final(db)@ == after,
            Err(e) => r == Err::<RedeemedAccount, RedeemError>(e) && final(db)@ == old(db)@,
        },
{
    let token_hash = redeem.token_hash;
    let ghost q = redeemable(token_hash@, now);
    let test = |i: &Invite| -> (b: bool)
        ensures
            b == q(i@),
        { same(i.token_hash.as_str(), token_hash) && i.used_at.is_none() && i.expires_at > now };
    let invite = match find(&db.invites, Ghost(q), test) {
        Some(i) => i.dup(),
        None => {
            return Err(RedeemError::InvalidOrExpired);
        },
    };
    match users::create_submissive_as(
        db,
        users::NewAccount {
            email: redeem.email,
            password_hash: redeem.password_hash,
            display_name: redeem.display_name,
        },
        ids.user.as_str(),
        now,
    ) {
        Ok(()) => {},
        Err(users::CreateUserError::EmailInUse) => {
            return Err(RedeemError::EmailInUse);
        },
        Err(users::CreateUserError::Db(e)) => {
            return Err(RedeemError::Db(e));
        },
    }
    links::link(
        db,
        ids.link.clone(),
        ids.policy,
        invite.created_by_keyholder_id.as_str(),
        ids.user.as_str(),
        now,
    );
    let ghost p = by_id(invite@.id);
    let ghost u = used_by(ids.user@, now);
    let change = |i: &Invite| -> (n: Option<Invite>)
        ensures
            match n {
                Some(x) => p(i@) && x@ == u(i@),
                None => !p(i@),
            },
        {
            if same(i.id.as_str(), invite.id.as_str()) {
                let mut n = i.dup();
                n.used_at = Some(now);
                n.used_by_user_id = Some(ids.user.clone());

                Some(n)
            } else {
                None
            }
        };
    update(&mut db.invites, Ghost(p), Ghost(u), change);
    let entry = audit::Entry {
        actor: audit::Actor::User(ids.user.as_str()),
        link_id: Some(ids.link.as_str()),
        action: "invite.redeemed",
        entity_type: "invites",
        entity_id: invite.id.as_str(),
        detail: None,
    };
    let _ = audit::record_as(db, ids.log_line, entry, now);
    Ok(RedeemedAccount { user_id: ids.user, link_id: ids.link })
}

/// Redeems an invite into an account and a link.
pub fn redeem(db: &mut Ledger, with: Redeem, now: i64) -> (r: Result<RedeemedAccount, RedeemError>)
    ensures
        exists|ids: RedeemIdsView|
            ids.are_ids() && match #[trigger] redeemed(old(db)@, with@, ids, now) {
                Ok(after) => r is Ok && r->Ok_0@ == (RedeemedAccountView {
                    user_id: ids.user,
                    link_id: ids.link,
                }) && final(db)@ == after,
                Err(e) => r == Err::<RedeemedAccount, RedeemError>(e) && final(db)@ == old(db)@,
            },
{
    let ids = RedeemIds { user: new_id(), link: new_id(), policy: new_id(), log_line: new_id() };
    redeem_as(db, with, ids, now)
}

/// A redeemed invite is used up: its token redeems no more, unless another invite that can still be
/// redeemed has the same hash.
pub proof fn law_redeemed_once(
    db: LedgerView,
    with: RedeemView,
    ids: RedeemIdsView,
    again: RedeemView,
    fresh: RedeemIdsView,
    now: i64,
    later: i64,
)
    requires
        redeemed(db, with, ids, now) is Ok,
        again.token_hash == with.token_hash,
        forall|j: int|
            0 <= j < db.invites.len() && redeemable(with.token_hash, later)(
                #[trigger] db.invites[j],
            ) ==> db.invites[j].id == find_row(
                db.invites,
                redeemable(with.token_hash, now),
            )->0.id,
    ensures
        redeemed(redeemed(db, with, ids, now)->Ok_0, again, fresh, later) == Err::<
            LedgerView,
            RedeemError,
        >(RedeemError::InvalidOrExpired),
{
    let i = find_row(db.invites, redeemable(with.token_hash, now))->0;
    let after = updated(db.invites, by_id(i.id), used_by(ids.user, now));
    assert forall|j: int| 0 <= j < after.len() implies !redeemable(with.token_hash, later)(
        #[trigger] after[j],
    ) by {
        assert(redeemable(with.token_hash, later)(db.invites[j]) ==> db.invites[j].id == i.id);
    }
    lemma_find_any(after, redeemable(with.token_hash, later));
}

/// A redemption makes one account, a submissive's, and one link, to the Keyholder who issued the
/// invite; the link is active and has its default policy.
pub proof fn law_redeeming_links_to_the_issuer(
    db: LedgerView,
    with: RedeemView,
    ids: RedeemIdsView,
    now: i64,
)
    requires
        redeemed(db, with, ids, now) is Ok,
    ensures
        ({
            let after = redeemed(db, with, ids, now)->Ok_0;
            let invite = find_row(db.invites, redeemable(with.token_hash, now))->0;
            &&& after.users.len() == db.users.len() + 1
            &&& after.users.last().role == "submissive"@
            &&& after.users.last().email == with.email
            &&& after.links == db.links.push(
                links::new_link(ids.link, invite.created_by_keyholder_id, ids.user, now),
            )
            &&& after.policies == db.policies.push(links::default_policy(ids.policy, ids.link, now))
        }),
{
}

/// A redemption leaves no submissive with two active links, as its account is a new one.
pub proof fn law_joining_links_once(
    db: LedgerView,
    with: RedeemView,
    ids: RedeemIdsView,
    now: i64,
)
    requires
        links::one_active_each(db.links),
        !any_row(db.links, links::active_for_submissive(ids.user)),
    ensures
        redeemed(db, with, ids, now) matches Ok(after) ==> links::one_active_each(after.links),
{
    if let Ok(after) = redeemed(db, with, ids, now) {
        let invite = find_row(db.invites, redeemable(with.token_hash, now))->0;
        links::law_one_active_link_each(
            db,
            ids.link,
            ids.policy,
            invite.created_by_keyholder_id,
            ids.user,
            now,
        );
    }
}

/// An invite that was revoked cannot be redeemed, unless another that can be has the same hash.
pub proof fn law_revoked_invite_is_gone(
    db: LedgerView,
    invite: InviteView,
    with: RedeemView,
    ids: RedeemIdsView,
    now: i64,
)
    requires
        forall|j: int|
            0 <= j < db.invites.len() && redeemable(with.token_hash, now)(
                #[trigger] db.invites[j],
            ) ==> unused(invite.id, invite.created_by_keyholder_id)(db.invites[j]),
    ensures
        redeemed(
            LedgerView {
                invites: db.invites.filter(
                    |i: InviteView| !unused(invite.id, invite.created_by_keyholder_id)(i),
                ),
                ..db
            },
            with,
            ids,
            now,
        ) == Err::<LedgerView, RedeemError>(RedeemError::InvalidOrExpired),
{
    let keep = |i: InviteView| !unused(invite.id, invite.created_by_keyholder_id)(i);
    let q = redeemable(with.token_hash, now);
    let left = db.invites.filter(keep);
    assert forall|j: int| 0 <= j < left.len() implies !q(#[trigger] left[j]) by {
        assert(left.contains(left[j]));
        lemma_filter_contains(db.invites, keep, left[j]);
        let a = choose|a: int| 0 <= a < db.invites.len() && db.invites[a] == left[j];
        assert(q(db.invites[a]) ==> unused(invite.id, invite.created_by_keyholder_id)(
            db.invites[a],
        ));
    }
    lemma_find_any(left, q);
}

/// An invite lives for the hours asked for, two days where none are said, and starts unused.
pub proof fn law_invites_live_for_their_hours(
    hours: Option<i64>,
    now: i64,
    id: Seq<char>,
    token_hash: Seq<char>,
    keyholder_id: Seq<char>,
)
    ensures
        ({
            let h: int = if hours is Some {
                hours->0 as int
            } else {
                48
            };
            match expiry(hours, now) {
                Ok(at) => at == now + h * 3600 && {
                    let i = new_row(id, token_hash, keyholder_id, at);
                    &&& i.id == id && i.token_hash == token_hash && i.expires_at == now + h * 3600
                    &&& i.created_by_keyholder_id == keyholder_id
                    &&& i.used_at is None && i.used_by_user_id is None
                },
                Err(_) => !(i64::MIN <= h * 3600 <= i64::MAX && i64::MIN <= now + h * 3600
                    <= i64::MAX),
            }
        }),
{
}

/// A live invite, redeemed, makes a submissive account linked to the Keyholder who invited, is used
/// up by it, and the log says so.
pub proof fn law_a_live_invite_joins(
    db: LedgerView,
    with: RedeemView,
    ids: RedeemIdsView,
    now: i64,
    k: int,
)
    requires
        only(
            db.invites,
            k,
            |i: InviteView|
                i.token_hash == with.token_hash && i.used_at is None && i.expires_at > now,
        ),
    ensures
        ({
            let i = db.invites[k];
            match redeemed(db, with, ids, now) {
                Err(e) => e == RedeemError::EmailInUse && any_row(
                    db.users,
                    |u: users::UserView| u.email == with.email,
                ),
                Ok(after) => {
                    let u = after.users.last();
                    let l = after.links.last();
                    let line = after.audit_log.last();
                    &&& !any_row(db.users, |u: users::UserView| u.email == with.email)
                    &&& after.users == db.users.push(u)
                    &&& u.id == ids.user && u.email == with.email && u.role == "submissive"@
                    &&& u.password_hash == with.password_hash && u.display_name
                        == with.display_name
                    &&& after.links == db.links.push(l)
                    &&& l.id == ids.link && l.keyholder_id == i.created_by_keyholder_id
                    &&& l.submissive_id == ids.user && l.status == "active"@ && l.started_at == now
                    &&& after.invites.len() == db.invites.len()
                    &&& after.invites[k] == (InviteView {
                        used_at: Some(now),
                        used_by_user_id: Some(ids.user),
                        ..i
                    })
                    &&& forall|j: int|
                        0 <= j < db.invites.len() && db.invites[j].id != i.id
                            ==> #[trigger] after.invites[j] == db.invites[j]
                    &&& after.audit_log == db.audit_log.push(line)
                    &&& line.action == "invite.redeemed"@ && line.entity_type == "invites"@
                    &&& line.entity_id == i.id && line.actor_user_id == Some(ids.user)
                    &&& line.link_id == Some(ids.link) && line.occurred_at == now
                },
            }
        }),
{
    let live = |i: InviteView|
        i.token_hash == with.token_hash && i.used_at is None && i.expires_at > now;
    lemma_find_only(db.invites, k, live, redeemable(with.token_hash, now));
    lemma_any_same(
        db.users,
        |u: users::UserView| u.email == with.email,
        users::by_email(with.email),
    );
}

/// No other invite joins anybody.
pub proof fn law_no_live_invite_no_account(
    db: LedgerView,
    with: RedeemView,
    ids: RedeemIdsView,
    now: i64,
)
    requires
        forall|j: int|
            0 <= j < db.invites.len() ==> (#[trigger] db.invites[j]).token_hash != with.token_hash
                || db.invites[j].used_at is Some || db.invites[j].expires_at <= now,
    ensures
        redeemed(db, with, ids, now) == Err::<LedgerView, RedeemError>(
            RedeemError::InvalidOrExpired,
        ),
{
    lemma_find_any(db.invites, redeemable(with.token_hash, now));
}

/// A revocation takes away the Keyholder's own unused invite with that id, and no other.
pub proof fn law_revoking_takes_ones_own(
    invites: Seq<InviteView>,
    id: Seq<char>,
    keyholder_id: Seq<char>,
    x: InviteView,
)
    ensures
        invites.filter(|i: InviteView| !unused(id, keyholder_id)(i)).contains(x)
            <==> invites.contains(x) && !(x.id == id && x.created_by_keyholder_id == keyholder_id
            && x.used_at is None),
        any_row(invites, unused(id, keyholder_id)) == any_row(
            invites,
            |i: InviteView|
                i.id == id && i.created_by_keyholder_id == keyholder_id && i.used_at is None,
        ),
{
    lemma_filter_contains(invites, |i: InviteView| !unused(id, keyholder_id)(i), x);
    lemma_any_same(
        invites,
        |i: InviteView|
            i.id == id && i.created_by_keyholder_id == keyholder_id && i.used_at is None,
        unused(id, keyholder_id),
    );
}

/// A Keyholder's invites are listed whole, the latest expiry first, and shown as they stand.
pub proof fn law_invites_are_listed_whole(
    found: Seq<InviteView>,
    invites: Seq<InviteView>,
    keyholder_id: Seq<char>,
)
    requires
        ordered_from(found, invites.filter(of_keyholder(keyholder_id)), latest_first()),
    ensures
        forall|i: InviteView| #[trigger]
            found.contains(i) <==> invites.contains(i) && i.created_by_keyholder_id
                == keyholder_id,
        forall|i: int, j: int|
            0 <= i < j < found.len() ==> (#[trigger] found[i]).expires_at >= (
            #[trigger] found[j]).expires_at,
        found.map_values(shown()).len() == found.len(),
        forall|i: int|
            0 <= i < found.len() ==> {
                let s = #[trigger] found.map_values(shown())[i];
                &&& s.id == found[i].id && s.expires_at == found[i].expires_at
                &&& s.used_at == found[i].used_at
                &&& s.used_by_user_id == found[i].used_by_user_id
            },
{
    lemma_listed(found, invites, of_keyholder(keyholder_id), latest_first());
}

} // verus!
