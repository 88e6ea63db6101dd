//! Links between Keyholders and submissives. A link always comes with a verification policy, so
//! there is never a window without one.

use vstd::prelude::*;

use crate::domain::verification::policy;
use crate::error::DbError;
use crate::ids::{is_id, new_id};
use crate::ledger::{Ledger, LedgerView};
use crate::table::{
    any_row, find, find_row, insert, lemma_any_same, lemma_filter_contains, lemma_find_any,
    lemma_find_push, rows, select, update, updated, Row,
};
use crate::text::{own, same};

verus! {

/// How long a code lives under the default policy.
pub const DEFAULT_CODE_TTL_SECS: i64 = 900;

/// How long an expired code can still be redeemed under the default policy.
pub const DEFAULT_GRACE_PERIOD_SECS: i64 = 600;

/// A stored link between a Keyholder and a submissive.
#[derive(Debug, PartialEq, Eq)]
pub struct Link {
    pub id: String,
    pub keyholder_id: String,
    pub submissive_id: String,
    pub status: String,
    pub started_at: i64,
    pub ended_at: Option<i64>,
    pub points_enabled: bool,
    pub points_balance: i64,
    pub oversight_paused_at: Option<i64>,
}

/// What a `Link` holds.
#[verifier::ext_equal]
pub struct LinkView {
    pub id: Seq<char>,
    pub keyholder_id: Seq<char>,
    pub submissive_id: Seq<char>,
    pub status: Seq<char>,
    pub started_at: i64,
    pub ended_at: Option<i64>,
    pub points_enabled: bool,
    pub points_balance: i64,
    pub oversight_paused_at: Option<i64>,
}

impl View for Link {
    type V = LinkView;

    open spec fn view(&self) -> LinkView {
        LinkView {
            id: self.id@,
            keyholder_id: self.keyholder_id@,
            submissive_id: self.submissive_id@,
            status: self.status@,
            started_at: self.started_at,
            ended_at: self.ended_at,
            points_enabled: self.points_enabled,
            points_balance: self.points_balance,
            oversight_paused_at: self.oversight_paused_at,
        }
    }
}

impl DeepView for Link {
    type V = LinkView;

    open spec fn deep_view(&self) -> LinkView {
        self.view()
    }
}

impl Row for Link {
    fn dup(&self) -> (r: Self) {
        Link {
            id: self.id.clone(),
            keyholder_id: self.keyholder_id.clone(),
            submissive_id: self.submissive_id.clone(),
            status: self.status.clone(),
            started_at: self.started_at,
            ended_at: self.ended_at,
            points_enabled: self.points_enabled,
            points_balance: self.points_balance,
            oversight_paused_at: self.oversight_paused_at,
        }
    }
}

/// The link has this id.
pub open spec fn by_id(id: Seq<char>) -> spec_fn(LinkView) -> bool {
    |l: LinkView| l.id == id
}

/// The link with this id.
pub(crate) fn get<'a>(db: &'a Ledger, id: &str) -> (r: Option<&'a Link>)
    ensures
        r.deep_view() == find_row(db@.links, by_id(id@)),
{
    let ghost p = by_id(id@);
    let test = |l: &Link| -> (b: bool)
        ensures
            b == p(l@),
        { same(l.id.as_str(), id) };
    find(&db.links, Ghost(p), test)
}

/// Who stands on either side of a link: the Keyholder, then the submissive.
pub fn parties(db: &Ledger, link_id: &str) -> (r: Option<(String, String)>)
    ensures
        r.deep_view() == (match find_row(db@.links, by_id(link_id@)) {
            Some(l) => Some((l.keyholder_id, l.submissive_id)),
            None => None,
        }),
{
    match get(db, link_id) {
        Some(l) => Some((l.keyholder_id.clone(), l.submissive_id.clone())),
        None => None,
    }
}

/// This submissive's active link.
pub open spec fn active_for_submissive(submissive_id: Seq<char>) -> spec_fn(LinkView) -> bool {
    |l: LinkView| l.submissive_id == submissive_id && l.status == "active"@
}

/// The id of a submissive's own active link.
pub fn active_link_for_submissive(db: &Ledger, submissive_id: &str) -> (r: Option<String>)
    ensures
        r.deep_view() == (match find_row(db@.links, active_for_submissive(submissive_id@)) {
            Some(l) => Some(l.id),
            None => None,
        }),
{
    let ghost p = active_for_submissive(submissive_id@);
    let test = |l: &Link| -> (b: bool)
        ensures
            b == p(l@),
        { same(l.submissive_id.as_str(), submissive_id) && same(l.status.as_str(), "active") };
    match find(&db.links, Ghost(p), test) {
        Some(l) => Some(l.id.clone()),
        None => None,
    }
}

/// An active link of this Keyholder.
pub open spec fn active_for_keyholder(keyholder_id: Seq<char>) -> spec_fn(LinkView) -> bool {
    |l: LinkView| l.keyholder_id == keyholder_id && l.status == "active"@
}

/// The ids of the links that meet a predicate.
pub open spec fn ids_where(links: Seq<LinkView>, p: spec_fn(LinkView) -> bool) -> Seq<Seq<char>> {
    links.filter(p).map_values(|l: LinkView| l.id)
}

/// The ids of a list of links.
fn ids_of(found: &Vec<Link>) -> (r: Vec<String>)
    ensures
        r.deep_view() == rows(found@).map_values(|l: LinkView| l.id),
{
    let mut out: Vec<String> = Vec::new();
    let mut i: usize = 0;
    while i < found.len()
        invariant
            i <= found@.len(),
            out@.len() == i,
            forall|j: int| 0 <= j < i ==> #[trigger] out@[j]@ == found@[j]@.id,
        decreases found@.len() - i,
    {
        out.push(found[i].id.clone());
        i = i + 1;
    }
    assert(out.deep_view() =~= rows(found@).map_values(|l: LinkView| l.id));
    out
}

/// A link of this Keyholder.
pub open spec fn of_keyholder(keyholder_id: Seq<char>) -> spec_fn(LinkView) -> bool {
    |l: LinkView| l.keyholder_id == keyholder_id
}

/// A link of this submissive.
pub open spec fn of_submissive(submissive_id: Seq<char>) -> spec_fn(LinkView) -> bool {
    |l: LinkView| l.submissive_id == submissive_id
}

/// The ids of all of a Keyholder's links.
pub(crate) fn ids_of_keyholder(db: &Ledger, keyholder_id: &str) -> (r: Vec<String>)
    ensures
        r.deep_view() == ids_where(db@.links, of_keyholder(keyholder_id@)),
{
    let ghost p = of_keyholder(keyholder_id@);
    let test = |l: &Link| -> (b: bool)
        ensures
            b == p(l@),
        { same(l.keyholder_id.as_str(), keyholder_id) };
    ids_of(&select(&db.links, Ghost(p), test))
}

/// The ids of all of a submissive's links.
pub(crate) fn ids_of_submissive(db: &Ledger, submissive_id: &str) -> (r: Vec<String>)
    ensures
        r.deep_view() == ids_where(db@.links, of_submissive(submissive_id@)),
{
    let ghost p = of_submissive(submissive_id@);
    let test = |l: &Link| -> (b: bool)
        ensures
            b == p(l@),
        { same(l.submissive_id.as_str(), submissive_id) };
    ids_of(&select(&db.links, Ghost(p), test))
}

/// A link that is overseen: active, and not paused.
pub open spec fn overseen() -> spec_fn(LinkView) -> bool {
    |l: LinkView| l.status == "active"@ && l.oversight_paused_at is None
}

/// The ids of all the links that are overseen.
pub(crate) fn overseen_ids(db: &Ledger) -> (r: Vec<String>)
    ensures
        r.deep_view() == ids_where(db@.links, overseen()),
{
    let ghost p = overseen();
    let test = |l: &Link| -> (b: bool)
        ensures
            b == p(l@),
        { same(l.status.as_str(), "active") && l.oversight_paused_at.is_none() };
    ids_of(&select(&db.links, Ghost(p), test))
}

/// The ids of all of a Keyholder's active links.
pub fn active_link_ids_for_keyholder(db: &Ledger, keyholder_id: &str) -> (r: Vec<String>)
    ensures
        r.deep_view() == ids_where(db@.links, active_for_keyholder(keyholder_id@)),
{
    let ghost p = active_for_keyholder(keyholder_id@);
    let test = |l: &Link| -> (b: bool)
        ensures
            b == p(l@),
        { same(l.keyholder_id.as_str(), keyholder_id) && same(l.status.as_str(), "active") };
    ids_of(&select(&db.links, Ghost(p), test))
}

/// This Keyholder's link to this submissive, unless it has ended.
pub open spec fn running(keyholder_id: Seq<char>, submissive_id: Seq<char>) -> spec_fn(
    LinkView,
) -> bool {
    |l: LinkView|
        l.keyholder_id == keyholder_id && l.submissive_id == submissive_id && (l.status
            == "active"@ || l.status == "paused"@)
}

/// The id of a Keyholder's own link to a submissive: active or paused, never ended.
pub fn active_or_paused_link_for_keyholder(
    db: &Ledger,
    keyholder_id: &str,
    submissive_id: &str,
) -> (r: Option<String>)
    ensures
        r.deep_view() == (match find_row(db@.links, running(keyholder_id@, submissive_id@)) {
            Some(l) => Some(l.id),
            None => None,
        }),
{
    let ghost p = running(keyholder_id@, submissive_id@);
    let test = |l: &Link| -> (b: bool)
        ensures
            b == p(l@),
        {
            same(l.keyholder_id.as_str(), keyholder_id)
                && same(l.submissive_id.as_str(), submissive_id)
                && (same(l.status.as_str(), "active") || same(l.status.as_str(), "paused"))
        };
    match find(&db.links, Ghost(p), test) {
        Some(l) => Some(l.id.clone()),
        None => None,
    }
}

/// A link as it starts: active, without points.
pub open spec fn new_link(
    id: Seq<char>,
    keyholder_id: Seq<char>,
    submissive_id: Seq<char>,
    now: i64,
) -> LinkView {
    LinkView {
        id,
        keyholder_id,
        submissive_id,
        status: "active"@,
        started_at: now,
        ended_at: None,
        points_enabled: false,
        points_balance: 0,
        oversight_paused_at: None,
    }
}

/// The policy that a link starts with: codes on demand only.
pub open spec fn default_policy(policy_id: Seq<char>, link_id: Seq<char>, now: i64) -> policy::PolicyRowView {
    policy::PolicyRowView {
        id: policy_id,
        created_at: now,
        policy: policy::PolicyView {
            link_id,
            frequency_kind: "on_demand_only"@,
            frequency_value: "{}"@,
            code_ttl_seconds: DEFAULT_CODE_TTL_SECS,
            grace_period_seconds: DEFAULT_GRACE_PERIOD_SECS,
            updated_at: now,
        },
    }
}

/// The ledger with one more link and its policy.
pub open spec fn linked(
    db: LedgerView,
    link_id: Seq<char>,
    policy_id: Seq<char>,
    keyholder_id: Seq<char>,
    submissive_id: Seq<char>,
    now: i64,
) -> LedgerView {
    LedgerView {
        links: db.links.push(new_link(link_id, keyholder_id, submissive_id, now)),
        policies: db.policies.push(default_policy(policy_id, link_id, now)),
        ..db
    }
}

/// Adds a link and its policy under the ids given.
pub(crate) fn link(
    db: &mut Ledger,
    link_id: String,
    policy_id: String,
    keyholder_id: &str,
    submissive_id: &str,
    now: i64,
)
    ensures
        final(db)@ == linked(old(db)@, link_id@, policy_id@, keyholder_id@, submissive_id@, now),
{
    insert(
        &mut db.links,
        Link {
            id: link_id.clone(),
            keyholder_id: own(keyholder_id),
            submissive_id: own(submissive_id),
            status: own("active"),
            started_at: now,
            ended_at: None,
            points_enabled: false,
            points_balance: 0,
            oversight_paused_at: None,
        },
    );
    insert(
        &mut db.policies,
        policy::PolicyRow {
            id: policy_id,
            created_at: now,
            policy: policy::Policy {
                link_id,
                frequency_kind: own("on_demand_only"),
                frequency_value: own("{}"),
                code_ttl_seconds: DEFAULT_CODE_TTL_SECS,
                grace_period_seconds: DEFAULT_GRACE_PERIOD_SECS,
                updated_at: now,
            },
        },
    );
}

/// The ledger after a link is made: refused where the submissive has an active one already.
pub open spec fn created(
    db: LedgerView,
    link_id: Seq<char>,
    policy_id: Seq<char>,
    keyholder_id: Seq<char>,
    submissive_id: Seq<char>,
    now: i64,
) -> Result<LedgerView, DbError> {
    if any_row(db.links, active_for_submissive(submissive_id)) {
        Err(DbError::Conflict)
    } else {
        Ok(linked(db, link_id, policy_id, keyholder_id, submissive_id, now))
    }
}

/// Creates a link and its policy under the ids given.
pub fn create_as(
    db: &mut Ledger,
    link_id: String,
    policy_id: String,
    keyholder_id: &str,
    submissive_id: &str,
    now: i64,
) -> (r: Result<(), DbError>)
    ensures
        match created(old(db)@, link_id@, policy_id@, keyholder_id@, submissive_id@, now) {
            Ok(after) => r is Ok && final(db)@ == after,
            Err(e) => r == Err::<(), DbError>(e) && *final(db) == *old(db),
        },
{
    proof {
        lemma_find_any(db@.links, active_for_submissive(submissive_id@));
    }
    if active_link_for_submissive(db, submissive_id).is_some() {
        return Err(DbError::Conflict);
    }
    link(db, link_id, policy_id, keyholder_id, submissive_id, now);
    Ok(())
}

/// Creates an active link between a Keyholder and a submissive, and its default policy. A
/// submissive has one active link at a time: a second is refused.
pub fn create(db: &mut Ledger, keyholder_id: &str, submissive_id: &str, now: i64) -> (r: Result<
    String,
    DbError,
>)
    ensures
        exists|link_id: Seq<char>, policy_id: Seq<char>|
            is_id(link_id) && is_id(policy_id) && match #[trigger] created(
                old(db)@,
                link_id,
                policy_id,
                keyholder_id@,
                submissive_id@,
                now,
            ) {
                Ok(after) => r is Ok && r->Ok_0@ == link_id && final(db)@ == after,
                Err(e) => r == Err::<String, DbError>(e) && *final(db) == *old(db),
            },
{
    let link_id = new_id();
    let policy_id = new_id();
    let ghost outcome = created(db@, link_id@, policy_id@, keyholder_id@, submissive_id@, now);
    assert(outcome is Ok || outcome is Err);
    match create_as(db, link_id.clone(), policy_id, keyholder_id, submissive_id, now) {
        Ok(()) => Ok(link_id),
        Err(e) => Err(e),
    }
}

/// The link with this id, unless it has ended.
pub open spec fn running_by_id(id: Seq<char>) -> spec_fn(LinkView) -> bool {
    |l: LinkView| l.id == id && (l.status == "active"@ || l.status == "paused"@)
}

/// Ended at this time.
pub open spec fn ended(now: i64) -> spec_fn(LinkView) -> LinkView {
    |l: LinkView| LinkView { status: "ended"@, ended_at: Some(now), ..l }
}

/// Ends a link that is active or paused; `false` where there is none to end.
pub fn force_end(db: &mut Ledger, link_id: &str, now: i64) -> (r: bool)
    ensures
        final(db)@ == (LedgerView {
            links: updated(old(db)@.links, running_by_id(link_id@), ended(now)),
            ..old(db)@
        }),
        r == any_row(old(db)@.links, running_by_id(link_id@)),
{
    let ghost p = running_by_id(link_id@);
    let ghost u = ended(now);
    let change = |l: &Link| -> (n: Option<Link>)
        ensures
            match n {
                Some(x) => p(l@) && x@ == u(l@),
                None => !p(l@),
            },
        {
            if same(l.id.as_str(), link_id) && (same(l.status.as_str(), "active")
                || same(l.status.as_str(), "paused")) {
                let mut n = l.dup();
                n.status = own("ended");
                n.ended_at = Some(now);

                Some(n)
            } else {
                None
            }
        };
    update(&mut db.links, Ghost(p), Ghost(u), change)
}

/// A link comes with its default policy: nothing lies between the two.
pub proof fn law_link_has_a_policy(
    db: LedgerView,
    link_id: Seq<char>,
    policy_id: Seq<char>,
    keyholder_id: Seq<char>,
    submissive_id: Seq<char>,
    now: i64,
)
    requires
        !any_row(db.links, by_id(link_id)),
        !any_row(db.policies, policy::for_link(link_id)),
    ensures
        ({
            let after = linked(db, link_id, policy_id, keyholder_id, submissive_id, now);
            &&& find_row(after.links, by_id(link_id)) == Some(
                new_link(link_id, keyholder_id, submissive_id, now),
            )
            &&& find_row(after.policies, policy::for_link(link_id)) == Some(
                default_policy(policy_id, link_id, now),
            )
        }),
{
    lemma_find_any(db.links, by_id(link_id));
    lemma_find_any(db.policies, policy::for_link(link_id));
    lemma_find_push(
        db.links,
        new_link(link_id, keyholder_id, submissive_id, now),
        by_id(link_id),
    );
    lemma_find_push(
        db.policies,
        default_policy(policy_id, link_id, now),
        policy::for_link(link_id),
    );
}

/// Every link has a policy.
pub open spec fn all_have_policies(db: LedgerView) -> bool {
    forall|i: int|
        0 <= i < db.links.len() ==> any_row(
            db.policies,
            policy::for_link((#[trigger] db.links[i]).id),
        )
}

/// Creating a link leaves every link with a policy.
pub proof fn law_links_keep_policies(
    db: LedgerView,
    link_id: Seq<char>,
    policy_id: Seq<char>,
    keyholder_id: Seq<char>,
    submissive_id: Seq<char>,
    now: i64,
)
    requires
        all_have_policies(db),
    ensures
        all_have_policies(linked(db, link_id, policy_id, keyholder_id, submissive_id, now)),
{
    let after = linked(db, link_id, policy_id, keyholder_id, submissive_id, now);
    assert forall|i: int| 0 <= i < after.links.len() implies any_row(
        after.policies,
        policy::for_link((#[trigger] after.links[i]).id),
    ) by {
        let p = policy::for_link(after.links[i].id);
        if i < db.links.len() {
            assert(after.links[i] == db.links[i]);
            let j = choose|j: int| 0 <= j < db.policies.len() && p(#[trigger] db.policies[j]);
            assert(after.policies[j] == db.policies[j]);
        } else {
            assert(p(after.policies[db.policies.len() as int]));
        }
    }
}

/// A link that was ended is ended for good: ending it again changes nothing and says so.
pub proof fn law_ended_once(links: Seq<LinkView>, link_id: Seq<char>, first: i64, second: i64)
    ensures
        ({
            let once = updated(links, running_by_id(link_id), ended(first));
            &&& !any_row(once, running_by_id(link_id))
            &&& updated(once, running_by_id(link_id), ended(second)) == once
        }),
{
    reveal_strlit("ended");
    reveal_strlit("active");
    reveal_strlit("paused");
    assert("ended"@ != "active"@) by {
        assert("ended"@.len() != "active"@.len());
    }
    assert("ended"@ != "paused"@) by {
        assert("ended"@.len() != "paused"@.len());
    }
    let once = updated(links, running_by_id(link_id), ended(first));
    assert forall|i: int| 0 <= i < once.len() implies !running_by_id(link_id)(#[trigger] once[i]) by {}
    crate::table::lemma_updated_none(once, running_by_id(link_id), ended(second));
}

/// No submissive has two active links.
pub open spec fn one_active_each(links: Seq<LinkView>) -> bool {
    forall|i: int, j: int|
        0 <= i < j < links.len() && (#[trigger] links[i]).submissive_id == (
        #[trigger] links[j]).submissive_id ==> !(links[i].status == "active"@ && links[j].status
            == "active"@)
}

/// A submissive has one active link at a time: a link that is made, or ended, leaves it so.
pub proof fn law_one_active_link_each(
    db: LedgerView,
    link_id: Seq<char>,
    policy_id: Seq<char>,
    keyholder_id: Seq<char>,
    submissive_id: Seq<char>,
    now: i64,
)
    requires
        one_active_each(db.links),
    ensures
        created(db, link_id, policy_id, keyholder_id, submissive_id, now) matches Ok(after)
            ==> one_active_each(after.links),
        one_active_each(updated(db.links, running_by_id(link_id), ended(now))),
{
    reveal_strlit("ended");
    reveal_strlit("active");
    assert("ended"@.len() != "active"@.len());
    if let Ok(after) = created(db, link_id, policy_id, keyholder_id, submissive_id, now) {
        assert forall|i: int, j: int|
            0 <= i < j < after.links.len() && (#[trigger] after.links[i]).submissive_id == (
            #[trigger] after.links[j]).submissive_id implies !(after.links[i].status == "active"@
            && after.links[j].status == "active"@) by {
            assert(after.links[i] == db.links[i]);
            if j < db.links.len() {
                assert(after.links[j] == db.links[j]);
            } else {
                assert(!active_for_submissive(submissive_id)(db.links[i]));
            }
        }
    }
    let over = updated(db.links, running_by_id(link_id), ended(now));
    assert forall|i: int, j: int|
        0 <= i < j < over.len() && (#[trigger] over[i]).submissive_id == (
        #[trigger] over[j]).submissive_id implies !(over[i].status == "active"@ && over[j].status
        == "active"@) by {
        assert(db.links[i].submissive_id == db.links[j].submissive_id);
    }
}

/// The ids of the links that meet a predicate are those that a link has that meets it.
pub proof fn lemma_ids_where(links: Seq<LinkView>, p: spec_fn(LinkView) -> bool, id: Seq<char>)
    ensures
        ids_where(links, p).contains(id) == any_row(links, |l: LinkView| p(l) && l.id == id),
{
    let f = links.filter(p);
    let ids = ids_where(links, p);
    let q = |l: LinkView| p(l) && l.id == id;
    if ids.contains(id) {
        let k = choose|k: int| 0 <= k < ids.len() && ids[k] == id;
        assert(f.contains(f[k]));
        lemma_filter_contains(links, p, f[k]);
        let m = choose|m: int| 0 <= m < links.len() && links[m] == f[k];
        assert(q(links[m]));
    }
    if any_row(links, q) {
        let m = choose|m: int| 0 <= m < links.len() && q(#[trigger] links[m]);
        lemma_filter_contains(links, p, links[m]);
        let k = choose|k: int| 0 <= k < f.len() && f[k] == links[m];
        assert(ids[k] == id);
    }
}

/// A link starts active, now, between the two whom it is made for, with points off and none of them,
/// and with a policy of codes on demand, good for a quarter of an hour and ten minutes' grace. It is
/// refused exactly where the submissive has an active one.
pub proof fn law_links_start_plain(
    db: LedgerView,
    link_id: Seq<char>,
    policy_id: Seq<char>,
    keyholder_id: Seq<char>,
    submissive_id: Seq<char>,
    now: i64,
)
    ensures
        match created(db, link_id, policy_id, keyholder_id, submissive_id, now) {
            Ok(after) => {
                let l = after.links.last();
                let p = after.policies.last();
                &&& !any_row(
                    db.links,
                    |l: LinkView| l.submissive_id == submissive_id && l.status == "active"@,
                )
                &&& after == (LedgerView {
                    links: db.links.push(l),
                    policies: db.policies.push(p),
                    ..db
                })
                &&& l.id == link_id && l.keyholder_id == keyholder_id && l.submissive_id
                    == submissive_id
                &&& l.status == "active"@ && l.started_at == now && l.ended_at is None
                &&& !l.points_enabled && l.points_balance == 0 && l.oversight_paused_at is None
                &&& p.id == policy_id && p.policy.link_id == link_id && p.created_at == now
                &&& p.policy.frequency_kind == "on_demand_only"@ && p.policy.frequency_value
                    == "{}"@
                &&& p.policy.code_ttl_seconds == 900 && p.policy.grace_period_seconds == 600
                &&& p.policy.updated_at == now
            },
            Err(e) => e == DbError::Conflict && any_row(
                db.links,
                |l: LinkView| l.submissive_id == submissive_id && l.status == "active"@,
            ),
        },
{
    lemma_any_same(
        db.links,
        |l: LinkView| l.submissive_id == submissive_id && l.status == "active"@,
        active_for_submissive(submissive_id),
    );
}

/// Forcing a link to end ends it now, whether it is active or paused, and leaves its balance; one
/// that has ended, and any other, stays as it is.
pub proof fn law_forced_ends(links: Seq<LinkView>, link_id: Seq<char>, now: i64, i: int)
    requires
        0 <= i < links.len(),
    ensures
        ({
            let l = links[i];
            let after = updated(links, running_by_id(link_id), ended(now));
            let runs = l.id == link_id && (l.status == "active"@ || l.status == "paused"@);
            &&& after.len() == links.len()
            &&& runs ==> after[i] == (LinkView { status: "ended"@, ended_at: Some(now), ..l })
            &&& !runs ==> after[i] == l
        }),
        any_row(links, running_by_id(link_id)) == any_row(
            links,
            |l: LinkView| l.id == link_id && (l.status == "active"@ || l.status == "paused"@),
        ),
{
    lemma_any_same(
        links,
        |l: LinkView| l.id == link_id && (l.status == "active"@ || l.status == "paused"@),
        running_by_id(link_id),
    );
}

/// Whose link is whose: what each of the lookups takes a link for.
pub proof fn law_lookups_take_the_right_links(l: LinkView, keyholder_id: Seq<char>, submissive_id: Seq<char>)
    ensures
        active_for_submissive(submissive_id)(l) <==> l.submissive_id == submissive_id && l.status
            == "active"@,
        active_for_keyholder(keyholder_id)(l) <==> l.keyholder_id == keyholder_id && l.status
            == "active"@,
        running(keyholder_id, submissive_id)(l) <==> l.keyholder_id == keyholder_id
            && l.submissive_id == submissive_id && (l.status == "active"@ || l.status
            == "paused"@),
        overseen()(l) <==> l.status == "active"@ && l.oversight_paused_at is None,
{
}

} // verus!
