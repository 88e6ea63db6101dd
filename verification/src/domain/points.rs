//! Points: opt-in per link, an append-only ledger of transactions with a cached balance that is
//! kept in step with it.

use vstd::prelude::*;

use crate::arith::{minus, plus, stored};
use crate::domain::links;
use crate::domain::rewards_punishments::{assignments, templates};
use crate::error::DbError;
use crate::ids::{is_id, new_id};
use crate::ledger::{Ledger, LedgerView};
use crate::table::{
    find, find_row, insert, lemma_find_any, lemma_find_only, lemma_find_updated, lemma_listed, only,
    order, ordered_from, rows, select, update, updated, Row,
};
use crate::text::{
    at_least, dup_opt, lemma_at_least_order, listed, own, own_opt, same, text_at_least,
};

verus! {

/// One line of a points ledger.
#[derive(Debug, PartialEq, Eq)]
pub struct Transaction {
    pub id: String,
    pub link_id: String,
    pub delta: i64,
    pub reason: String,
    pub related_entity_type: Option<String>,
    pub related_entity_id: Option<String>,
    pub notes: Option<String>,
    pub created_at: i64,
}

/// What a `Transaction` holds.
#[verifier::ext_equal]
pub struct TransactionView {
    pub id: Seq<char>,
    pub link_id: Seq<char>,
    pub delta: i64,
    pub reason: Seq<char>,
    pub related_entity_type: Option<Seq<char>>,
    pub related_entity_id: Option<Seq<char>>,
    pub notes: Option<Seq<char>>,
    pub created_at: i64,
}

impl View for Transaction {
    type V = TransactionView;

    open spec fn view(&self) -> TransactionView {
        TransactionView {
            id: self.id@,
            link_id: self.link_id@,
            delta: self.delta,
            reason: self.reason@,
            related_entity_type: self.related_entity_type.deep_view(),
            related_entity_id: self.related_entity_id.deep_view(),
            notes: self.notes.deep_view(),
            created_at: self.created_at,
        }
    }
}

impl DeepView for Transaction {
    type V = TransactionView;

    open spec fn deep_view(&self) -> TransactionView {
        self.view()
    }
}

impl Row for Transaction {
    fn dup(&self) -> (r: Self) {
        Transaction {
            id: self.id.clone(),
            link_id: self.link_id.clone(),
            delta: self.delta,
            reason: self.reason.clone(),
            related_entity_type: dup_opt(&self.related_entity_type),
            related_entity_id: dup_opt(&self.related_entity_id),
            notes: dup_opt(&self.notes),
            created_at: self.created_at,
        }
    }
}

/// A request to spend points on a reward.
#[derive(Debug, PartialEq, Eq)]
pub struct RedemptionRequest {
    pub id: String,
    pub link_id: String,
    pub template_id: String,
    pub points_cost: i64,
    pub status: String,
    pub requested_at: i64,
    pub decided_at: Option<i64>,
    pub decided_by_user_id: Option<String>,
    pub resulting_assignment_id: Option<String>,
}

/// What a `RedemptionRequest` holds.
#[verifier::ext_equal]
pub struct RedemptionRequestView {
    pub id: Seq<char>,
    pub link_id: Seq<char>,
    pub template_id: Seq<char>,
    pub points_cost: i64,
    pub status: Seq<char>,
    pub requested_at: i64,
    pub decided_at: Option<i64>,
    pub decided_by_user_id: Option<Seq<char>>,
    pub resulting_assignment_id: Option<Seq<char>>,
}

impl View for RedemptionRequest {
    type V = RedemptionRequestView;

    open spec fn view(&self) -> RedemptionRequestView {
        RedemptionRequestView {
            id: self.id@,
            link_id: self.link_id@,
            template_id: self.template_id@,
            points_cost: self.points_cost,
            status: self.status@,
            requested_at: self.requested_at,
            decided_at: self.decided_at,
            decided_by_user_id: self.decided_by_user_id.deep_view(),
            resulting_assignment_id: self.resulting_assignment_id.deep_view(),
        }
    }
}

impl DeepView for RedemptionRequest {
    type V = RedemptionRequestView;

    open spec fn deep_view(&self) -> RedemptionRequestView {
        self.view()
    }
}

impl Row for RedemptionRequest {
    fn dup(&self) -> (r: Self) {
        RedemptionRequest {
            id: self.id.clone(),
            link_id: self.link_id.clone(),
            template_id: self.template_id.clone(),
            points_cost: self.points_cost,
            status: self.status.clone(),
            requested_at: self.requested_at,
            decided_at: self.decided_at,
            decided_by_user_id: dup_opt(&self.decided_by_user_id),
            resulting_assignment_id: dup_opt(&self.resulting_assignment_id),
        }
    }
}

/// A link's balance.
pub fn balance(db: &Ledger, link_id: &str) -> (r: Result<i64, DbError>)
    ensures
        r == (match find_row(db@.links, links::by_id(link_id@)) {
            Some(l) => Ok::<i64, DbError>(l.points_balance),
            None => Err(DbError::NoRows),
        }),
{
    match links::get(db, link_id) {
        Some(l) => Ok(l.points_balance),
        None => Err(DbError::NoRows),
    }
}

/// Whether a link has points turned on.
pub open spec fn enabled(db: LedgerView, link_id: Seq<char>) -> Result<bool, DbError> {
    match find_row(db.links, links::by_id(link_id)) {
        Some(l) => Ok(l.points_enabled),
        None => Err(DbError::NoRows),
    }
}

/// Whether a link has points turned on.
pub fn points_enabled(db: &Ledger, link_id: &str) -> (r: Result<bool, DbError>)
    ensures
        r == enabled(db@, link_id@),
{
    match links::get(db, link_id) {
        Some(l) => Ok(l.points_enabled),
        None => Err(DbError::NoRows),
    }
}

/// With this balance.
pub open spec fn with_balance(balance: i64) -> spec_fn(links::LinkView) -> links::LinkView {
    |l: links::LinkView| links::LinkView { points_balance: balance, ..l }
}

/// The ledger after one transaction: the line is there, and the link's balance has moved by its
/// delta. Fails only where the balance would leave its range.
pub open spec fn awarded(db: LedgerView, t: TransactionView) -> Result<LedgerView, DbError> {
    match find_row(db.links, links::by_id(t.link_id)) {
        None => Ok(LedgerView { transactions: db.transactions.push(t), ..db }),
        Some(l) => match stored(l.points_balance + t.delta) {
            Err(e) => Err(e),
            Ok(balance) => Ok(
                LedgerView {
                    transactions: db.transactions.push(t),
                    links: updated(db.links, links::by_id(t.link_id), with_balance(balance)),
                    ..db
                },
            ),
        },
    }
}

/// Every change of points goes through here: one line, one balance update.
fn award(db: &mut Ledger, t: Transaction) -> (r: Result<(), DbError>)
    ensures
        match awarded(old(db)@, t@) {
            Ok(after) => r is Ok && final(db)@ == after,
            Err(e) => r == Err::<(), DbError>(e) && final(db)@ == old(db)@,
        },
{
    let standing: Option<i64> = match links::get(db, t.link_id.as_str()) {
        Some(l) => Some(l.points_balance),
        None => None,
    };
    if let Some(standing) = standing {
        let balance = match plus(standing, t.delta) {
            Ok(b) => b,
            Err(e) => {
                return Err(e);
            },
        };
        let ghost p = links::by_id(t.link_id@);
        let ghost u = with_balance(balance);
        let change = |l: &links::Link| -> (n: Option<links::Link>)
            ensures
                match n {
                    Some(x) => p(l@) && x@ == u(l@),
                    None => !p(l@),
                },
            {
                if same(l.id.as_str(), t.link_id.as_str()) {
                    let mut n = l.dup();
                    n.points_balance = balance;

                    Some(n)
                } else {
                    None
                }
            };
        update(&mut db.links, Ghost(p), Ghost(u), change);
    }
    insert(&mut db.transactions, t);
    Ok(())
}

/// The line that a task source writes.
pub open spec fn earned(
    id: Seq<char>,
    link_id: Seq<char>,
    delta: i64,
    reason: Seq<char>,
    related_entity_type: Option<Seq<char>>,
    related_entity_id: Option<Seq<char>>,
    notes: Option<Seq<char>>,
    now: i64,
) -> TransactionView {
    TransactionView {
        id,
        link_id,
        delta,
        reason,
        related_entity_type,
        related_entity_id,
        notes,
        created_at: now,
    }
}

/// The ledger after a task source pays out: nothing happens where points are off.
pub open spec fn awarded_if_enabled(db: LedgerView, t: TransactionView) -> Result<
    LedgerView,
    DbError,
> {
    match enabled(db, t.link_id) {
        Err(e) => Err(e),
        Ok(on) => if on {
            awarded(db, t)
        } else {
            Ok(db)
        },
    }
}

/// Pays out where points are on, under the id `id`.
pub fn award_if_enabled_as(
    db: &mut Ledger,
    id: String,
    link_id: &str,
    delta: i64,
    reason: &str,
    related_entity_type: Option<&str>,
    related_entity_id: Option<&str>,
    now: i64,
) -> (r: Result<(), DbError>)
    ensures
        match awarded_if_enabled(
            old(db)@,
            earned(
                id@,
                link_id@,
                delta,
                reason@,
                related_entity_type.deep_view(),
                related_entity_id.deep_view(),
                None,
                now,
            ),
        ) {
            Ok(after) => r is Ok && final(db)@ == after,
            Err(e) => r == Err::<(), DbError>(e) && final(db)@ == old(db)@,
        },
{
    match points_enabled(db, link_id) {
        Err(e) => Err(e),
        Ok(on) => {
            if !on {
                return Ok(());
            }
            award(
                db,
                Transaction {
                    id,
                    link_id: own(link_id),
                    delta,
                    reason: own(reason),
                    related_entity_type: own_opt(related_entity_type),
                    related_entity_id: own_opt(related_entity_id),
                    notes: None,
                    created_at: now,
                },
            )
        },
    }
}

/// Pays out where points are on.
pub fn award_if_enabled(
    db: &mut Ledger,
    link_id: &str,
    delta: i64,
    reason: &str,
    related_entity_type: Option<&str>,
    related_entity_id: Option<&str>,
    now: i64,
) -> (r: Result<(), DbError>)
    ensures
        exists|id: Seq<char>|
            is_id(id) && match awarded_if_enabled(
                old(db)@,
                #[trigger] earned(
                    id,
                    link_id@,
                    delta,
                    reason@,
                    related_entity_type.deep_view(),
                    related_entity_id.deep_view(),
                    None,
                    now,
                ),
            ) {
                Ok(after) => r is Ok && final(db)@ == after,
                Err(e) => r == Err::<(), DbError>(e) && final(db)@ == old(db)@,
            },
{
    let id = new_id();
    award_if_enabled_as(
        db,
        id,
        link_id,
        delta,
        reason,
        related_entity_type,
        related_entity_id,
        now,
    )
}

/// Why an adjustment was not made.
#[derive(Clone, Copy, Debug, PartialEq, Eq, Structural)]
pub enum AdjustError {
    /// Points are off for this link.
    NotEnabled,
    /// The ledger failed.
    Db(DbError),
}

/// The ledger after a Keyholder's own adjustment.
pub open spec fn adjusted(db: LedgerView, t: TransactionView) -> Result<LedgerView, AdjustError> {
    match enabled(db, t.link_id) {
        Err(e) => Err(AdjustError::Db(e)),
        Ok(on) => if !on {
            Err(AdjustError::NotEnabled)
        } else {
            match awarded(db, t) {
                Ok(after) => Ok(after),
                Err(e) => Err(AdjustError::Db(e)),
            }
        },
    }
}

/// A Keyholder's own adjustment.
pub fn manual_adjustment(
    db: &mut Ledger,
    link_id: &str,
    delta: i64,
    notes: Option<&str>,
    now: i64,
) -> (r: Result<(), AdjustError>)
    ensures
        exists|id: Seq<char>|
            is_id(id) && match adjusted(
                old(db)@,
                #[trigger] earned(
                    id,
                    link_id@,
                    delta,
                    "manual_adjustment"@,
                    None,
                    None,
                    notes.deep_view(),
                    now,
                ),
            ) {
                Ok(after) => r is Ok && final(db)@ == after,
                Err(e) => r == Err::<(), AdjustError>(e) && final(db)@ == old(db)@,
            },
{
    let id = new_id();
    let ghost t = earned(
        id@,
        link_id@,
        delta,
        "manual_adjustment"@,
        None,
        None,
        notes.deep_view(),
        now,
    );
    match points_enabled(db, link_id) {
        Err(e) => Err(AdjustError::Db(e)),
        Ok(on) => {
            if !on {
                return Err(AdjustError::NotEnabled);
            }
            match award(
                db,
                Transaction {
                    id,
                    link_id: own(link_id),
                    delta,
                    reason: own("manual_adjustment"),
                    related_entity_type: None,
                    related_entity_id: None,
                    notes: own_opt(notes),
                    created_at: now,
                },
            ) {
                Ok(()) => Ok(()),
                Err(e) => Err(AdjustError::Db(e)),
            }
        },
    }
}

/// A line of this link's ledger.
pub open spec fn of_link(link_id: Seq<char>) -> spec_fn(TransactionView) -> bool {
    |t: TransactionView| t.link_id == link_id
}

/// Newest first, and by descending id among those of one second.
pub open spec fn newest_first() -> spec_fn(TransactionView, TransactionView) -> bool {
    |a: TransactionView, b: TransactionView|
        a.created_at > b.created_at || (a.created_at == b.created_at && at_least(a.id, b.id))
}

/// A link's ledger, newest first.
pub fn list_transactions(db: &Ledger, link_id: &str) -> (r: Vec<Transaction>)
    ensures
        ordered_from(rows(r@), db@.transactions.filter(of_link(link_id@)), newest_first()),
{
    let ghost p = of_link(link_id@);
    let ghost le = newest_first();
    let test = |t: &Transaction| -> (b: bool)
        ensures
            b == p(t@),
        { same(t.link_id.as_str(), link_id) };
    let before = |a: &Transaction, b: &Transaction| -> (c: bool)
        ensures
            c == le(a@, b@),
        {
            a.created_at > b.created_at || (a.created_at == b.created_at && text_at_least(
                a.id.as_str(),
                b.id.as_str(),
            ))
        };
    proof {
        lemma_at_least_order();
    }
    order(select(&db.transactions, Ghost(p), test), Ghost(le), before)
}

/// The request has this id.
pub open spec fn request_by_id(id: Seq<char>) -> spec_fn(RedemptionRequestView) -> bool {
    |q: RedemptionRequestView| q.id == id
}

/// The request with this id.
pub fn get_request(db: &Ledger, id: &str) -> (r: Option<RedemptionRequest>)
    ensures
        r.deep_view() == find_row(db@.redemptions, request_by_id(id@)),
{
    let ghost p = request_by_id(id@);
    let test = |q: &RedemptionRequest| -> (b: bool)
        ensures
            b == p(q@),
        { same(q.id.as_str(), id) };
    match find(&db.redemptions, Ghost(p), test) {
        Some(q) => Some(q.dup()),
        None => None,
    }
}

/// A request on one of these links, and pending where only those are asked for.
pub open spec fn on_links(link_ids: Seq<Seq<char>>, pending_only: bool) -> spec_fn(
    RedemptionRequestView,
) -> bool {
    |q: RedemptionRequestView|
        link_ids.contains(q.link_id) && (!pending_only || q.status == "pending"@)
}

/// Newest first.
pub open spec fn newest_request_first() -> spec_fn(
    RedemptionRequestView,
    RedemptionRequestView,
) -> bool {
    |a: RedemptionRequestView, b: RedemptionRequestView| a.requested_at >= b.requested_at
}

/// The requests on a set of links, newest first.
pub fn list_requests_for_links(db: &Ledger, link_ids: &[String], pending_only: bool) -> (r: Vec<
    RedemptionRequest,
>)
    ensures
        ordered_from(
            rows(r@),
            db@.redemptions.filter(on_links(link_ids.deep_view(), pending_only)),
            newest_request_first(),
        ),
{
    let ghost p = on_links(link_ids.deep_view(), pending_only);
    let ghost le = newest_request_first();
    let test = |q: &RedemptionRequest| -> (b: bool)
        ensures
            b == p(q@),
        { listed(link_ids, q.link_id.as_str()) && (!pending_only
            || same(q.status.as_str(), "pending")) };
    let before = |a: &RedemptionRequest, b: &RedemptionRequest| -> (c: bool)
        ensures
            c == le(a@, b@),
        { a.requested_at >= b.requested_at };
    order(select(&db.redemptions, Ghost(p), test), Ghost(le), before)
}

/// Why a redemption was not requested.
#[derive(Clone, Copy, Debug, PartialEq, Eq, Structural)]
pub enum RequestRedemptionError {
    /// Points are off for this link.
    NotEnabled,
    /// There is no such template, or it is not an active reward with a price.
    NotRedeemable,
    /// The balance does not cover the price.
    InsufficientBalance,
    /// The ledger failed.
    Db(DbError),
}

/// The price of a redemption that may be requested: an active reward that has one, which the
/// balance covers.
pub open spec fn price(db: LedgerView, link_id: Seq<char>, template_id: Seq<char>) -> Result<
    i64,
    RequestRedemptionError,
> {
    match find_row(db.links, links::by_id(link_id)) {
        None => Err(RequestRedemptionError::Db(DbError::NoRows)),
        Some(l) => if !l.points_enabled {
            Err(RequestRedemptionError::NotEnabled)
        } else {
            match find_row(db.templates, templates::by_id(template_id)) {
                None => Err(RequestRedemptionError::NotRedeemable),
                Some(t) => match t.points_cost {
                    None => Err(RequestRedemptionError::NotRedeemable),
                    Some(cost) => if t.kind != "reward"@ || !t.active {
                        Err(RequestRedemptionError::NotRedeemable)
                    } else if l.points_balance < cost {
                        Err(RequestRedemptionError::InsufficientBalance)
                    } else {
                        Ok(cost)
                    },
                },
            }
        },
    }
}

/// A request as it is made: pending.
pub open spec fn new_request(
    id: Seq<char>,
    link_id: Seq<char>,
    template_id: Seq<char>,
    points_cost: i64,
    now: i64,
) -> RedemptionRequestView {
    RedemptionRequestView {
        id,
        link_id,
        template_id,
        points_cost,
        status: "pending"@,
        requested_at: now,
        decided_at: None,
        decided_by_user_id: None,
        resulting_assignment_id: None,
    }
}

/// Requests a reward for points. Nothing is deducted until the Keyholder approves.
pub fn request_redemption(db: &mut Ledger, link_id: &str, template_id: &str, now: i64) -> (r: Result<
    String,
    RequestRedemptionError,
>)
    ensures
        match price(old(db)@, link_id@, template_id@) {
            Err(e) => r == Err::<String, RequestRedemptionError>(e) && final(db)@ == old(db)@,
            Ok(cost) => r is Ok && is_id(r->Ok_0@) && final(db)@ == (LedgerView {
                redemptions: old(db)@.redemptions.push(
                    new_request(r->Ok_0@, link_id@, template_id@, cost, now),
                ),
                ..old(db)@
            }),
        },
{
    match points_enabled(db, link_id) {
        Err(e) => {
            return Err(RequestRedemptionError::Db(e));
        },
        Ok(on) => {
            if !on {
                return Err(RequestRedemptionError::NotEnabled);
            }
        },
    }
    let template = match templates::get(db, template_id) {
        Some(t) => t,
        None => {
            return Err(RequestRedemptionError::NotRedeemable);
        },
    };
    let points_cost = match template.points_cost {
        Some(c) => c,
        None => {
            return Err(RequestRedemptionError::NotRedeemable);
        },
    };
    if !same(template.kind.as_str(), "reward") || !template.active {
        return Err(RequestRedemptionError::NotRedeemable);
    }
    match balance(db, link_id) {
        Err(e) => {
            return Err(RequestRedemptionError::Db(e));
        },
        Ok(b) => {
            if b < points_cost {
                return Err(RequestRedemptionError::InsufficientBalance);
            }
        },
    }
    let id = new_id();
    insert(
        &mut db.redemptions,
        RedemptionRequest {
            id: id.clone(),
            link_id: own(link_id),
            template_id: own(template_id),
            points_cost,
            status: own("pending"),
            requested_at: now,
            decided_at: None,
            decided_by_user_id: None,
            resulting_assignment_id: None,
        },
    );
    Ok(id)
}

/// Why a request was not decided.
#[derive(Clone, Copy, Debug, PartialEq, Eq, Structural)]
pub enum DecideRedemptionError {
    /// It is not on one of this Keyholder's links.
    NotFound,
    /// It has been decided.
    AlreadyDecided,
    /// The ledger failed.
    Db(DbError),
}

/// The request with this id on one of these links.
pub open spec fn request_on_links(id: Seq<char>, link_ids: Seq<Seq<char>>) -> spec_fn(
    RedemptionRequestView,
) -> bool {
    |q: RedemptionRequestView| q.id == id && link_ids.contains(q.link_id)
}

/// The request that a Keyholder decides.
pub open spec fn pending_request(
    db: LedgerView,
    request_id: Seq<char>,
    keyholder_id: Seq<char>,
) -> Result<RedemptionRequestView, DecideRedemptionError> {
    match find_row(
        db.redemptions,
        request_on_links(
            request_id,
            links::ids_where(db.links, links::of_keyholder(keyholder_id)),
        ),
    ) {
        None => Err(DecideRedemptionError::NotFound),
        Some(q) => if q.status != "pending"@ {
            Err(DecideRedemptionError::AlreadyDecided)
        } else {
            Ok(q)
        },
    }
}

/// Looks up the request that a Keyholder decides.
fn find_pending_request(db: &Ledger, request_id: &str, keyholder_id: &str) -> (r: Result<
    RedemptionRequest,
    DecideRedemptionError,
>)
    ensures
        match pending_request(db@, request_id@, keyholder_id@) {
            Ok(q) => r is Ok && r->Ok_0@ == q,
            Err(e) => r == Err::<RedemptionRequest, DecideRedemptionError>(e),
        },
{
    let theirs = links::ids_of_keyholder(db, keyholder_id);
    let ghost p = request_on_links(request_id@, theirs.deep_view());
    let test = |q: &RedemptionRequest| -> (b: bool)
        ensures
            b == p(q@),
        { same(q.id.as_str(), request_id) && listed(theirs.as_slice(), q.link_id.as_str()) };
    match find(&db.redemptions, Ghost(p), test) {
        None => Err(DecideRedemptionError::NotFound),
        Some(q) => if !same(q.status.as_str(), "pending") {
            Err(DecideRedemptionError::AlreadyDecided)
        } else {
            Ok(q.dup())
        },
    }
}

/// Decided one way or the other.
pub open spec fn decided(
    status: Seq<char>,
    by: Seq<char>,
    assignment_id: Option<Seq<char>>,
    now: i64,
) -> spec_fn(RedemptionRequestView) -> RedemptionRequestView {
    |q: RedemptionRequestView|
        RedemptionRequestView {
            status,
            decided_at: Some(now),
            decided_by_user_id: Some(by),
            resulting_assignment_id: match assignment_id {
                Some(a) => Some(a),
                None => q.resulting_assignment_id,
            },
            ..q
        }
}

/// Writes a decision on a request.
fn decide(
    db: &mut Ledger,
    request_id: &str,
    status: &str,
    by: &str,
    assignment_id: Option<&str>,
    now: i64,
)
    ensures
        final(db)@ == (LedgerView {
            redemptions: updated(
                old(db)@.redemptions,
                request_by_id(request_id@),
                decided(status@, by@, assignment_id.deep_view(), now),
            ),
            ..old(db)@
        }),
{
    let ghost p = request_by_id(request_id@);
    let ghost u = decided(status@, by@, assignment_id.deep_view(), now);
    let change = |q: &RedemptionRequest| -> (n: Option<RedemptionRequest>)
        ensures
            match n {
                Some(x) => p(q@) && x@ == u(q@),
                None => !p(q@),
            },
        {
            if same(q.id.as_str(), request_id) {
                let mut n = q.dup();
                n.status = own(status);
                n.decided_at = Some(now);
                n.decided_by_user_id = Some(own(by));
                if let Some(a) = assignment_id {
                    n.resulting_assignment_id = Some(own(a));
                }

                Some(n)
            } else {
                None
            }
        };
    update(&mut db.redemptions, Ghost(p), Ghost(u), change);
}

/// The request for the assignment that a redemption hands out.
pub open spec fn redemption_request(
    template_id: Seq<char>,
    keyholder_id: Seq<char>,
) -> assignments::NewAssignmentView {
    assignments::NewAssignmentView {
        template_id: Some(template_id),
        require_active_template: false,
        assigned_by_user_id: Some(keyholder_id),
        assigned_via: "session"@,
        notes: Some("Redeemed with points"@),
        ..assignments::NewAssignmentView::blank()
    }
}

/// The ledger after a decision, and the assignment that an approval handed out. An approval hands
/// out the reward and deducts its price in one step; a denial touches no points.
pub open spec fn redemption_decided(
    db: LedgerView,
    request_id: Seq<char>,
    keyholder_id: Seq<char>,
    approve: bool,
    ids: assignments::ChainIdsView,
    now: i64,
) -> Result<(LedgerView, Option<assignments::AssignmentView>), DecideRedemptionError> {
    match pending_request(db, request_id, keyholder_id) {
        Err(e) => Err(e),
        Ok(q) => if !approve {
            Ok(
                (
                    LedgerView {
                        redemptions: updated(
                            db.redemptions,
                            request_by_id(request_id),
                            decided("denied"@, keyholder_id, None, now),
                        ),
                        ..db
                    },
                    None,
                ),
            )
        } else {
            match find_row(db.links, links::by_id(q.link_id)) {
                None => Err(DecideRedemptionError::Db(DbError::NoRows)),
                Some(l) => match assignments::created(
                    db,
                    l.submissive_id,
                    q.link_id,
                    redemption_request(q.template_id, keyholder_id),
                    ids.assignment,
                    ids.adjustment,
                    now,
                ) {
                    Err(e) => Err(DecideRedemptionError::Db(assignments::chain_error(e))),
                    Ok((handed, a)) => match stored(-q.points_cost) {
                        Err(e) => Err(DecideRedemptionError::Db(e)),
                        Ok(delta) => match awarded(
                            handed,
                            earned(
                                ids.transaction,
                                q.link_id,
                                delta,
                                "redemption"@,
                                Some("reward_redemption_requests"@),
                                Some(request_id),
                                None,
                                now,
                            ),
                        ) {
                            Err(e) => Err(DecideRedemptionError::Db(e)),
                            Ok(paid) => Ok(
                                (
                                    LedgerView {
                                        redemptions: updated(
                                            paid.redemptions,
                                            request_by_id(request_id),
                                            decided("approved"@, keyholder_id, Some(a.id), now),
                                        ),
                                        ..paid
                                    },
                                    Some(a),
                                ),
                            ),
                        },
                    },
                },
            }
        },
    }
}

/// Decides a request under the ids given.
pub fn decide_redemption_as(
    db: &mut Ledger,
    request_id: &str,
    keyholder_id: &str,
    approve: bool,
    ids: assignments::ChainIds,
    now: i64,
) -> (r: Result<Option<assignments::Assignment>, DecideRedemptionError>)
    ensures
        match redemption_decided(old(db)@, request_id@, keyholder_id@, approve, ids@, now) {
            Ok((after, a)) => r is Ok && r->Ok_0.deep_view() == a && final(db)@ == after,
            Err(e) => r == Err::<Option<assignments::Assignment>, DecideRedemptionError>(e)
                && final(db)@ == old(db)@,
        },
{
    let request = match find_pending_request(db, request_id, keyholder_id) {
        Ok(q) => q,
        Err(e) => {
            return Err(e);
        },
    };
    if !approve {
        decide(db, request_id, "denied", keyholder_id, None, now);
        return Ok(None);
    }
    let mut tx = db.transaction();
    let submissive_id = match links::parties(&tx, request.link_id.as_str()) {
        Some((_, s)) => s,
        None => {
            return Err(DecideRedemptionError::Db(DbError::NoRows));
        },
    };
    let mut new = assignments::NewAssignment::default();
    new.template_id = Some(request.template_id.as_str());
    new.require_active_template = false;
    new.assigned_by_user_id = Some(keyholder_id);
    new.assigned_via = "session";
    new.notes = Some("Redeemed with points");
    let a = match assignments::create_as(
        &mut tx,
        submissive_id.as_str(),
        request.link_id.as_str(),
        new,
        ids.assignment,
        ids.adjustment,
        now,
    ) {
        Ok(a) => a,
        Err(e) => {
            return Err(DecideRedemptionError::Db(assignments::to_chain_error(e)));
        },
    };
    let delta = match minus(0, request.points_cost) {
        Ok(d) => d,
        Err(e) => {
            return Err(DecideRedemptionError::Db(e));
        },
    };
    match award(
        &mut tx,
        Transaction {
            id: ids.transaction,
            link_id: request.link_id,
            delta,
            reason: own("redemption"),
            related_entity_type: Some(own("reward_redemption_requests")),
            related_entity_id: Some(own(request_id)),
            notes: None,
            created_at: now,
        },
    ) {
        Ok(()) => {},
        Err(e) => {
            return Err(DecideRedemptionError::Db(e));
        },
    }
    decide(&mut tx, request_id, "approved", keyholder_id, Some(a.id.as_str()), now);
    *db = tx;
    Ok(Some(a))
}

/// Decides a request: an approval hands out the reward and deducts its price, a denial closes
/// the request.
pub fn decide_redemption(
    db: &mut Ledger,
    request_id: &str,
    keyholder_id: &str,
    approve: bool,
    now: i64,
) -> (r: Result<Option<assignments::Assignment>, DecideRedemptionError>)
    ensures
        exists|ids: assignments::ChainIdsView|
            ids.are_ids() && match #[trigger] redemption_decided(
                old(db)@,
                request_id@,
                keyholder_id@,
                approve,
                ids,
                now,
            ) {
                Ok((after, a)) => r is Ok && r->Ok_0.deep_view() == a && final(db)@ == after,
                Err(e) => r == Err::<Option<assignments::Assignment>, DecideRedemptionError>(e)
                    && final(db)@ == old(db)@,
            },
{
    let ids = assignments::new_chain_ids();
    decide_redemption_as(db, request_id, keyholder_id, approve, ids, now)
}

/// A request is decided once.
pub proof fn law_decided_once(
    db: LedgerView,
    request_id: Seq<char>,
    keyholder_id: Seq<char>,
    approve: bool,
    again: bool,
    ids: assignments::ChainIdsView,
    fresh: assignments::ChainIdsView,
    now: i64,
    later: i64,
)
    requires
        redemption_decided(db, request_id, keyholder_id, approve, ids, now) is Ok,
    ensures
        redemption_decided(
            redemption_decided(db, request_id, keyholder_id, approve, ids, now)->Ok_0.0,
            request_id,
            keyholder_id,
            again,
            fresh,
            later,
        ) == Err::<(LedgerView, Option<assignments::AssignmentView>), DecideRedemptionError>(
            DecideRedemptionError::AlreadyDecided,
        ),
{
    reveal_strlit("pending");
    reveal_strlit("approved");
    reveal_strlit("denied");
    assert("pending"@.len() == 7 && "approved"@.len() == 8 && "denied"@.len() == 6);
    let (after, a) = redemption_decided(db, request_id, keyholder_id, approve, ids, now)->Ok_0;
    let before_links = links::ids_where(db.links, links::of_keyholder(keyholder_id));
    let after_links = links::ids_where(after.links, links::of_keyholder(keyholder_id));
    let q = pending_request(db, request_id, keyholder_id)->Ok_0;
    if approve {
        let l = find_row(db.links, links::by_id(q.link_id))->0;
        let t = earned(
            ids.transaction,
            q.link_id,
            (-q.points_cost) as i64,
            "redemption"@,
            Some("reward_redemption_requests"@),
            Some(request_id),
            None,
            now,
        );
        lemma_ids_keep(
            db.links,
            links::by_id(q.link_id),
            with_balance((l.points_balance + t.delta) as i64),
            keyholder_id,
        );
    }
    assert(after_links == before_links);
    let p = request_on_links(request_id, before_links);
    let u = if approve {
        decided("approved"@, keyholder_id, Some((a->0).id), now)
    } else {
        decided("denied"@, keyholder_id, None, now)
    };
    lemma_find_any(db.redemptions, p);
    lemma_find_updated(db.redemptions, p, request_by_id(request_id), u);
}

/// Changing balances changes nobody's links.
proof fn lemma_ids_keep(
    s: Seq<links::LinkView>,
    p: spec_fn(links::LinkView) -> bool,
    u: spec_fn(links::LinkView) -> links::LinkView,
    keyholder_id: Seq<char>,
)
    requires
        forall|l: links::LinkView| #[trigger]
            p(l) ==> u(l).id == l.id && u(l).keyholder_id == l.keyholder_id,
    ensures
        links::ids_where(updated(s, p, u), links::of_keyholder(keyholder_id)) == links::ids_where(
            s,
            links::of_keyholder(keyholder_id),
        ),
    decreases s.len(),
{
    reveal(Seq::filter);
    let of = links::of_keyholder(keyholder_id);
    let id = |l: links::LinkView| l.id;
    if s.len() > 0 {
        let t = s.drop_last();
        lemma_ids_keep(t, p, u, keyholder_id);
        assert(updated(s, p, u).drop_last() =~= updated(t, p, u));
        let x = s.last();
        let y = updated(s, p, u).last();
        assert(of(x) == of(y));
        if of(x) {
            assert(s.filter(of).map_values(id) =~= t.filter(of).map_values(id).push(x.id));
            assert(updated(s, p, u).filter(of).map_values(id) =~= updated(t, p, u).filter(
                of,
            ).map_values(id).push(y.id));
        }
    } else {
        assert(updated(s, p, u) =~= s);
    }
}

/// A request that may be made is covered: points are on, the reward is active and has a price, and
/// the balance is at least that.
pub proof fn law_requests_are_covered(db: LedgerView, link_id: Seq<char>, template_id: Seq<char>)
    ensures
        price(db, link_id, template_id) matches Ok(cost) ==> {
            let l = find_row(db.links, links::by_id(link_id));
            let t = find_row(db.templates, templates::by_id(template_id));
            &&& l is Some && l->0.points_enabled && l->0.points_balance >= cost
            &&& t is Some && t->0.active && t->0.kind == "reward"@ && t->0.points_cost == Some(cost)
        },
{
}

/// Points move by the delta, on a link that has them on, and nothing else of the ledger moves: the
/// balance of that link is the old one and the delta, and one line says why. Off, a task source pays
/// nothing and a Keyholder's adjustment is refused. A sum that no balance holds moves nothing.
pub proof fn law_points_move_by_the_delta(
    db: LedgerView,
    id: Seq<char>,
    link_id: Seq<char>,
    delta: i64,
    reason: Seq<char>,
    related_entity_type: Option<Seq<char>>,
    related_entity_id: Option<Seq<char>>,
    notes: Option<Seq<char>>,
    now: i64,
    n: int,
)
    requires
        only(db.links, n, |l: links::LinkView| l.id == link_id),
    ensures
        ({
            let t = earned(
                id,
                link_id,
                delta,
                reason,
                related_entity_type,
                related_entity_id,
                notes,
                now,
            );
            let l = db.links[n];
            let fits = i64::MIN <= l.points_balance + delta <= i64::MAX;
            match awarded_if_enabled(db, t) {
                Err(_) => l.points_enabled && !fits,
                Ok(after) => {
                    let line = after.transactions.last();
                    &&& !l.points_enabled ==> after == db
                    &&& l.points_enabled ==> {
                        &&& fits
                        &&& after == (LedgerView {
                            transactions: db.transactions.push(line),
                            links: after.links,
                            ..db
                        })
                        &&& line.id == id && line.link_id == link_id && line.delta == delta
                        &&& line.reason == reason && line.notes == notes && line.created_at == now
                        &&& line.related_entity_type == related_entity_type
                        &&& line.related_entity_id == related_entity_id
                        &&& after.links.len() == db.links.len()
                        &&& after.links[n].points_balance == l.points_balance + delta
                        &&& after.links[n] == (links::LinkView {
                            points_balance: after.links[n].points_balance,
                            ..l
                        })
                        &&& forall|j: int|
                            0 <= j < db.links.len() && j != n ==> #[trigger] after.links[j]
                                == db.links[j]
                    }
                },
            }
        }),
        ({
            let t = earned(
                id,
                link_id,
                delta,
                reason,
                related_entity_type,
                related_entity_id,
                notes,
                now,
            );
            let l = db.links[n];
            match adjusted(db, t) {
                Err(AdjustError::NotEnabled) => !l.points_enabled,
                Err(AdjustError::Db(_)) => l.points_enabled && !(i64::MIN <= l.points_balance
                    + delta <= i64::MAX),
                Ok(after) => l.points_enabled && awarded_if_enabled(db, t) == Ok::<
                    LedgerView,
                    DbError,
                >(after),
            }
        }),
{
    let named = |l: links::LinkView| l.id == link_id;
    lemma_find_only(db.links, n, named, links::by_id(link_id));
    assert forall|j: int| 0 <= j < db.links.len() && j != n implies (#[trigger] db.links[j]).id
        != link_id by {
        assert(!named(db.links[j]));
    }
}

/// A reward may be asked for at its price, where it is active, has one, and the balance covers it;
/// what stands in the way otherwise is said.
pub proof fn law_rewards_are_asked_for_at_their_price(
    db: LedgerView,
    link_id: Seq<char>,
    template_id: Seq<char>,
    n: int,
    k: int,
)
    requires
        only(db.links, n, |l: links::LinkView| l.id == link_id),
        only(db.templates, k, |t: templates::TemplateView| t.id == template_id),
    ensures
        ({
            let l = db.links[n];
            let t = db.templates[k];
            let on_offer = t.kind == "reward"@ && t.active && t.points_cost is Some;
            match price(db, link_id, template_id) {
                Err(RequestRedemptionError::NotEnabled) => !l.points_enabled,
                Err(RequestRedemptionError::NotRedeemable) => l.points_enabled && !on_offer,
                Err(RequestRedemptionError::InsufficientBalance) => l.points_enabled && on_offer
                    && l.points_balance < t.points_cost->0,
                Err(RequestRedemptionError::Db(_)) => false,
                Ok(cost) => l.points_enabled && on_offer && t.points_cost == Some(cost)
                    && l.points_balance >= cost,
            }
        }),
{
    lemma_find_only(db.links, n, |l: links::LinkView| l.id == link_id, links::by_id(link_id));
    lemma_find_only(
        db.templates,
        k,
        |t: templates::TemplateView| t.id == template_id,
        templates::by_id(template_id),
    );
}

/// A template that is not there cannot be asked for.
pub proof fn law_no_template_no_reward(
    db: LedgerView,
    link_id: Seq<char>,
    template_id: Seq<char>,
    n: int,
)
    requires
        only(db.links, n, |l: links::LinkView| l.id == link_id),
        db.links[n].points_enabled,
        forall|j: int|
            0 <= j < db.templates.len() ==> (#[trigger] db.templates[j]).id != template_id,
    ensures
        price(db, link_id, template_id) == Err::<i64, RequestRedemptionError>(
            RequestRedemptionError::NotRedeemable,
        ),
{
    lemma_find_only(db.links, n, |l: links::LinkView| l.id == link_id, links::by_id(link_id));
    lemma_find_any(db.templates, templates::by_id(template_id));
}

/// A request starts pending, at the price it was made for.
pub proof fn law_requests_start_pending(
    id: Seq<char>,
    link_id: Seq<char>,
    template_id: Seq<char>,
    cost: i64,
    now: i64,
)
    ensures
        ({
            let q = new_request(id, link_id, template_id, cost, now);
            &&& q.id == id && q.link_id == link_id && q.template_id == template_id
            &&& q.points_cost == cost && q.requested_at == now && q.status == "pending"@
            &&& q.decided_at is None && q.decided_by_user_id is None
            &&& q.resulting_assignment_id is None
        }),
{
}

/// A pending request is decided by the Keyholder of its link. A denial changes the request and
/// nothing else; an approval hands out the reward that was asked for and takes its price, in one line,
/// off the balance of the link that asked.
pub proof fn law_approval_takes_the_price(
    db: LedgerView,
    request_id: Seq<char>,
    keyholder_id: Seq<char>,
    approve: bool,
    ids: assignments::ChainIdsView,
    now: i64,
    k: int,
    n: int,
)
    requires
        only(db.redemptions, k, |q: RedemptionRequestView| q.id == request_id),
        only(db.links, n, |l: links::LinkView| l.id == db.redemptions[k].link_id),
    ensures
        ({
            let q = db.redemptions[k];
            let l = db.links[n];
            let own = l.keyholder_id == keyholder_id;
            match redemption_decided(db, request_id, keyholder_id, approve, ids, now) {
                Err(DecideRedemptionError::NotFound) => !own,
                Err(DecideRedemptionError::AlreadyDecided) => own && q.status != "pending"@,
                Err(_) => own && q.status == "pending"@ && approve,
                Ok((after, given)) => {
                    let a = after.assignments.last();
                    let line = after.transactions.last();
                    &&& own && q.status == "pending"@
                    &&& after.redemptions.len() == db.redemptions.len()
                    &&& forall|j: int|
                        0 <= j < db.redemptions.len() && j != k ==> #[trigger] after.redemptions[j]
                            == db.redemptions[j]
                    &&& !approve ==> {
                        &&& given is None
                        &&& after == (LedgerView { redemptions: after.redemptions, ..db })
                        &&& after.redemptions[k] == (RedemptionRequestView {
                            status: "denied"@,
                            decided_at: Some(now),
                            decided_by_user_id: Some(keyholder_id),
                            ..q
                        })
                    }
                    &&& approve ==> {
                        &&& after.redemptions[k] == (RedemptionRequestView {
                            status: "approved"@,
                            decided_at: Some(now),
                            decided_by_user_id: Some(keyholder_id),
                            resulting_assignment_id: Some(a.id),
                            ..q
                        })
                        &&& given == Some(a)
                        &&& after.assignments == db.assignments.push(a)
                        &&& a.template_id == Some(q.template_id)
                        &&& a.link_id == q.link_id
                        &&& a.assigned_by_user_id == Some(keyholder_id)
                        &&& a.assigned_via == "session"@
                        &&& a.assigned_at == now
                        &&& after.transactions == db.transactions.push(line)
                        &&& line.link_id == q.link_id
                        &&& line.delta == -q.points_cost
                        &&& line.reason == "redemption"@
                        &&& line.related_entity_id == Some(request_id)
                        &&& line.created_at == now
                        &&& after.links.len() == db.links.len()
                        &&& after.links[n].points_balance == l.points_balance - q.points_cost
                        &&& after.links[n] == (links::LinkView {
                            points_balance: after.links[n].points_balance,
                            ..l
                        })
                        &&& forall|j: int|
                            0 <= j < db.links.len() && j != n ==> #[trigger] after.links[j]
                                == db.links[j]
                    }
                },
            }
        }),
{
    let q = db.redemptions[k];
    let named = |q: RedemptionRequestView| q.id == request_id;
    let linked = |l: links::LinkView| l.id == q.link_id;
    let link_ids = links::ids_where(db.links, links::of_keyholder(keyholder_id));
    let of = links::of_keyholder(keyholder_id);
    links::lemma_ids_where(db.links, of, q.link_id);
    assert(link_ids.contains(q.link_id) == (db.links[n].keyholder_id == keyholder_id)) by {
        let p = |l: links::LinkView| of(l) && l.id == q.link_id;
        if db.links[n].keyholder_id == keyholder_id {
            assert(p(db.links[n]));
        } else {
            assert forall|j: int| 0 <= j < db.links.len() implies !p(#[trigger] db.links[j]) by {
                if j != n {
                    assert(!linked(db.links[j]));
                }
            }
        }
    }
    lemma_find_only(db.links, n, linked, links::by_id(q.link_id));
    assert forall|j: int| 0 <= j < db.links.len() && j != n implies (#[trigger] db.links[j]).id
        != q.link_id by {
        assert(!linked(db.links[j]));
    }
    assert forall|j: int| 0 <= j < db.redemptions.len() && j != k implies (
    #[trigger] db.redemptions[j]).id != request_id by {
        assert(!named(db.redemptions[j]));
    }
    let p = request_on_links(request_id, link_ids);
    if link_ids.contains(q.link_id) {
        lemma_find_only(db.redemptions, k, p, p);
    } else {
        lemma_find_any(db.redemptions, p);
    }
}

/// A link's lines are listed whole, the latest first; requests too, those of the links asked for, or
/// of them the pending ones alone.
pub proof fn law_points_are_listed_whole(
    lines: Seq<TransactionView>,
    transactions: Seq<TransactionView>,
    link_id: Seq<char>,
    asked: Seq<RedemptionRequestView>,
    redemptions: Seq<RedemptionRequestView>,
    link_ids: Seq<Seq<char>>,
    pending_only: bool,
)
    requires
        ordered_from(lines, transactions.filter(of_link(link_id)), newest_first()),
        ordered_from(
            asked,
            redemptions.filter(on_links(link_ids, pending_only)),
            newest_request_first(),
        ),
    ensures
        forall|t: TransactionView| #[trigger]
            lines.contains(t) <==> transactions.contains(t) && t.link_id == link_id,
        forall|i: int, j: int|
            0 <= i < j < lines.len() ==> (#[trigger] lines[i]).created_at >= (
            #[trigger] lines[j]).created_at,
        forall|q: RedemptionRequestView| #[trigger]
            asked.contains(q) <==> redemptions.contains(q) && link_ids.contains(q.link_id) && (
            pending_only ==> q.status == "pending"@),
        forall|i: int, j: int|
            0 <= i < j < asked.len() ==> (#[trigger] asked[i]).requested_at >= (
            #[trigger] asked[j]).requested_at,
{
    lemma_listed(lines, transactions, of_link(link_id), newest_first());
    lemma_listed(asked, redemptions, on_links(link_ids, pending_only), newest_request_first());
}

/// The balance of a link, and whether it has points on, are what the link's row says; a link that is
/// not there has neither.
pub proof fn law_balances_are_read_off_the_link(
    db: &Ledger,
    link_id: &str,
    held: Result<i64, DbError>,
    on: Result<bool, DbError>,
    n: int,
)
    requires
        balance.ensures((db, link_id), held),
        points_enabled.ensures((db, link_id), on),
        only(db@.links, n, |l: links::LinkView| l.id == link_id@),
    ensures
        held == Ok::<i64, DbError>(db@.links[n].points_balance),
        on == Ok::<bool, DbError>(db@.links[n].points_enabled),
{
    lemma_find_only(
        db@.links,
        n,
        |l: links::LinkView| l.id == link_id@,
        links::by_id(link_id@),
    );
}

} // verus!
