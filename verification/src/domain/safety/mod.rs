//! Safety alerts: a plain escape hatch that is always there, apart from any review.

use vstd::prelude::*;

use crate::domain::audit;
use crate::ids::{is_id, new_id};
use crate::ledger::{Ledger, LedgerView};
use crate::table::{
    find, find_row, insert, lemma_find_only, lemma_listed, only, order, ordered_from, rows, select,
    update, updated, Row,
};
use crate::text::{dup_opt, listed, own, own_opt, same};

verus! {

/// A safety alert.
#[derive(Debug, PartialEq, Eq)]
pub struct Alert {
    pub id: String,
    pub submissive_id: String,
    pub link_id: String,
    pub raised_at: i64,
    pub raised_via: String,
    pub related_checkin_id: Option<String>,
    pub message: Option<String>,
    pub acknowledged_at: Option<i64>,
    pub acknowledged_by_user_id: Option<String>,
    pub resolved_at: Option<i64>,
}

/// What an `Alert` holds.
#[verifier::ext_equal]
pub struct AlertView {
    pub id: Seq<char>,
    pub submissive_id: Seq<char>,
    pub link_id: Seq<char>,
    pub raised_at: i64,
    pub raised_via: Seq<char>,
    pub related_checkin_id: Option<Seq<char>>,
    pub message: Option<Seq<char>>,
    pub acknowledged_at: Option<i64>,
    pub acknowledged_by_user_id: Option<Seq<char>>,
    pub resolved_at: Option<i64>,
}

impl View for Alert {
    type V = AlertView;

    open spec fn view(&self) -> AlertView {
        AlertView {
            id: self.id@,
            submissive_id: self.submissive_id@,
            link_id: self.link_id@,
            raised_at: self.raised_at,
            raised_via: self.raised_via@,
            related_checkin_id: self.related_checkin_id.deep_view(),
            message: self.message.deep_view(),
            acknowledged_at: self.acknowledged_at,
            acknowledged_by_user_id: self.acknowledged_by_user_id.deep_view(),
            resolved_at: self.resolved_at,
        }
    }
}

impl DeepView for Alert {
    type V = AlertView;

    open spec fn deep_view(&self) -> AlertView {
        self.view()
    }
}

impl Row for Alert {
    fn dup(&self) -> (r: Self) {
        Alert {
            id: self.id.clone(),
            submissive_id: self.submissive_id.clone(),
            link_id: self.link_id.clone(),
            raised_at: self.raised_at,
            raised_via: self.raised_via.clone(),
            related_checkin_id: dup_opt(&self.related_checkin_id),
            message: dup_opt(&self.message),
            acknowledged_at: self.acknowledged_at,
            acknowledged_by_user_id: dup_opt(&self.acknowledged_by_user_id),
            resolved_at: self.resolved_at,
        }
    }
}

/// What raised an alert.
#[derive(Clone, Copy, Debug, PartialEq, Eq, Structural)]
pub enum RaisedVia {
    /// The submissive.
    Submissive,
    /// A rule.
    System,
}

impl RaisedVia {
    /// As it is stored.
    pub open spec fn name(self) -> Seq<char> {
        match self {
            RaisedVia::Submissive => "submissive"@,
            RaisedVia::System => "system"@,
        }
    }

    /// As it is stored.
    pub fn as_str(self) -> (r: &'static str)
        ensures
            r@ == self.name(),
    {
        match self {
            RaisedVia::Submissive => "submissive",
            RaisedVia::System => "system",
        }
    }
}

/// What an alert is raised with.
#[derive(Clone, Copy, Debug, PartialEq, Eq)]
pub struct Raise<'a> {
    pub submissive_id: &'a str,
    pub link_id: &'a str,
    pub raised_via: RaisedVia,
    pub related_checkin_id: Option<&'a str>,
    pub message: Option<&'a str>,
}

/// What a `Raise` holds.
#[verifier::ext_equal]
pub struct RaiseView {
    pub submissive_id: Seq<char>,
    pub link_id: Seq<char>,
    pub raised_via: RaisedVia,
    pub related_checkin_id: Option<Seq<char>>,
    pub message: Option<Seq<char>>,
}

impl<'a> View for Raise<'a> {
    type V = RaiseView;

    open spec fn view(&self) -> RaiseView {
        RaiseView {
            submissive_id: self.submissive_id@,
            link_id: self.link_id@,
            raised_via: self.raised_via,
            related_checkin_id: self.related_checkin_id.deep_view(),
            message: self.message.deep_view(),
        }
    }
}

/// An alert as it is raised.
pub open spec fn new_alert(id: Seq<char>, raise: RaiseView, now: i64) -> AlertView {
    AlertView {
        id,
        submissive_id: raise.submissive_id,
        link_id: raise.link_id,
        raised_at: now,
        raised_via: raise.raised_via.name(),
        related_checkin_id: raise.related_checkin_id,
        message: raise.message,
        acknowledged_at: None,
        acknowledged_by_user_id: None,
        resolved_at: None,
    }
}

/// The line that an alert leaves in the log.
pub open spec fn alert_entry(id: Seq<char>, raise: RaiseView) -> audit::EntryView {
    audit::EntryView {
        actor: match raise.raised_via {
            RaisedVia::Submissive => audit::ActorView::User(raise.submissive_id),
            RaisedVia::System => audit::ActorView::System,
        },
        link_id: Some(raise.link_id),
        action: "safety_alert.raised"@,
        entity_type: "safety_alerts"@,
        entity_id: id,
        detail: None,
    }
}

/// The ledger after an alert: it never stands without the line in the log that says what raised
/// it.
pub open spec fn raised(
    db: LedgerView,
    id: Seq<char>,
    log_line_id: Seq<char>,
    raise: RaiseView,
    now: i64,
) -> LedgerView {
    audit::logged(
        LedgerView { alerts: db.alerts.push(new_alert(id, raise, now)), ..db },
        log_line_id,
        alert_entry(id, raise),
        now,
    )
}

/// Raises an alert under the ids given.
pub fn raise_as(db: &mut Ledger, id: String, log_line_id: String, raise: Raise, now: i64)
    ensures
        final(db)@ == raised(old(db)@, id@, log_line_id@, raise@, now),
{
    insert(
        &mut db.alerts,
        Alert {
            id: id.clone(),
            submissive_id: own(raise.submissive_id),
            link_id: own(raise.link_id),
            raised_at: now,
            raised_via: own(raise.raised_via.as_str()),
            related_checkin_id: own_opt(raise.related_checkin_id),
            message: own_opt(raise.message),
            acknowledged_at: None,
            acknowledged_by_user_id: None,
            resolved_at: None,
        },
    );
    let actor = match raise.raised_via {
        RaisedVia::Submissive => audit::Actor::User(raise.submissive_id),
        RaisedVia::System => audit::Actor::System,
    };
    let entry = audit::Entry {
        actor,
        link_id: Some(raise.link_id),
        action: "safety_alert.raised",
        entity_type: "safety_alerts",
        entity_id: id.as_str(),
        detail: None,
    };
    let _ = audit::record_as(db, log_line_id, entry, now);
}

/// Raises an alert; its id.
pub fn raise(db: &mut Ledger, alert: Raise, now: i64) -> (r: String)
    ensures
        is_id(r@),
        exists|log_line_id: Seq<char>|
            is_id(log_line_id)
                && final(db)@ == #[trigger] raised(old(db)@, r@, log_line_id, alert@, now),
{
    let id = new_id();
    let log_line_id = new_id();
    raise_as(db, id.clone(), log_line_id, alert, now);
    id
}

/// The alert with this id, not acknowledged.
pub open spec fn unacknowledged(id: Seq<char>) -> spec_fn(AlertView) -> bool {
    |a: AlertView| a.id == id && a.acknowledged_at is None
}

/// Acknowledged now.
pub open spec fn acknowledged(by: Seq<char>, now: i64) -> spec_fn(AlertView) -> AlertView {
    |a: AlertView|
        AlertView { acknowledged_at: Some(now), acknowledged_by_user_id: Some(by), ..a }
}

/// Notes that the Keyholder has seen an alert; the first acknowledgement stands.
pub fn acknowledge(db: &mut Ledger, alert_id: &str, acknowledged_by_user_id: &str, now: i64)
    ensures
        final(db)@ == (LedgerView {
            alerts: updated(
                old(db)@.alerts,
                unacknowledged(alert_id@),
                acknowledged(acknowledged_by_user_id@, now),
            ),
            ..old(db)@
        }),
{
    let ghost p = unacknowledged(alert_id@);
    let ghost u = acknowledged(acknowledged_by_user_id@, now);
    let change = |a: &Alert| -> (n: Option<Alert>)
        ensures
            match n {
                Some(x) => p(a@) && x@ == u(a@),
                None => !p(a@),
            },
        {
            if same(a.id.as_str(), alert_id) && a.acknowledged_at.is_none() {
                let mut n = a.dup();
                n.acknowledged_at = Some(now);
                n.acknowledged_by_user_id = Some(own(acknowledged_by_user_id));

                Some(n)
            } else {
                None
            }
        };
    update(&mut db.alerts, Ghost(p), Ghost(u), change);
}

/// The alert has this id.
pub open spec fn by_id(id: Seq<char>) -> spec_fn(AlertView) -> bool {
    |a: AlertView| a.id == id
}

/// The alert with this id.
pub fn get(db: &Ledger, id: &str) -> (r: Option<Alert>)
    ensures
        r.deep_view() == find_row(db@.alerts, by_id(id@)),
{
    let ghost p = by_id(id@);
    let test = |a: &Alert| -> (b: bool)
        ensures
            b == p(a@),
        { same(a.id.as_str(), id) };
    match find(&db.alerts, Ghost(p), test) {
        Some(a) => Some(a.dup()),
        None => None,
    }
}

/// An alert on one of these links.
pub open spec fn of_links(link_ids: Seq<Seq<char>>) -> spec_fn(AlertView) -> bool {
    |a: AlertView| link_ids.contains(a.link_id)
}

/// Unresolved ones first, and newest first among each.
pub open spec fn open_first() -> spec_fn(AlertView, AlertView) -> bool {
    |a: AlertView, b: AlertView|
        (a.resolved_at is None && b.resolved_at is Some) || ((a.resolved_at is Some)
            == (b.resolved_at is Some) && a.raised_at >= b.raised_at)
}

/// The alerts on a set of links, unresolved ones first, and newest first among each.
pub fn list_for_links(db: &Ledger, link_ids: &[String]) -> (r: Vec<Alert>)
    ensures
        ordered_from(rows(r@), db@.alerts.filter(of_links(link_ids.deep_view())), open_first()),
{
    let ghost p = of_links(link_ids.deep_view());
    let ghost le = open_first();
    let test = |a: &Alert| -> (b: bool)
        ensures
            b == p(a@),
        { listed(link_ids, a.link_id.as_str()) };
    let before = |a: &Alert, b: &Alert| -> (c: bool)
        ensures
            c == le(a@, b@),
        {
            (a.resolved_at.is_none() && b.resolved_at.is_some()) || (a.resolved_at.is_some()
                == b.resolved_at.is_some() && a.raised_at >= b.raised_at)
        };
    order(select(&db.alerts, Ghost(p), test), Ghost(le), before)
}

/// The alert with this id, not resolved.
pub open spec fn unresolved(id: Seq<char>) -> spec_fn(AlertView) -> bool {
    |a: AlertView| a.id == id && a.resolved_at is None
}

/// Resolved now.
pub open spec fn resolved_at(now: i64) -> spec_fn(AlertView) -> AlertView {
    |a: AlertView| AlertView { resolved_at: Some(now), ..a }
}

/// Settles an alert; settling it again changes nothing.
pub fn resolve(db: &mut Ledger, alert_id: &str, now: i64)
    ensures
        final(db)@ == (LedgerView {
            alerts: updated(old(db)@.alerts, unresolved(alert_id@), resolved_at(now)),
            ..old(db)@
        }),
{
    let ghost p = unresolved(alert_id@);
    let ghost u = resolved_at(now);
    let change = |a: &Alert| -> (n: Option<Alert>)
        ensures
            match n {
                Some(x) => p(a@) && x@ == u(a@),
                None => !p(a@),
            },
        {
            if same(a.id.as_str(), alert_id) && a.resolved_at.is_none() {
                let mut n = a.dup();
                n.resolved_at = Some(now);

                Some(n)
            } else {
                None
            }
        };
    update(&mut db.alerts, Ghost(p), Ghost(u), change);
}

/// Settling an alert a second time changes nothing.
pub proof fn law_resolved_once(s: Seq<AlertView>, id: Seq<char>, first: i64, second: i64)
    ensures
        updated(updated(s, unresolved(id), resolved_at(first)), unresolved(id), resolved_at(second))
            == updated(s, unresolved(id), resolved_at(first)),
{
    let once = updated(s, unresolved(id), resolved_at(first));
    assert(updated(once, unresolved(id), resolved_at(second)) =~= once);
}

/// Acknowledging an alert a second time changes nothing, whoever does it.
pub proof fn law_acknowledged_once(
    s: Seq<AlertView>,
    id: Seq<char>,
    first_by: Seq<char>,
    first: i64,
    second_by: Seq<char>,
    second: i64,
)
    ensures
        updated(
            updated(s, unacknowledged(id), acknowledged(first_by, first)),
            unacknowledged(id),
            acknowledged(second_by, second),
        ) == updated(s, unacknowledged(id), acknowledged(first_by, first)),
{
    let once = updated(s, unacknowledged(id), acknowledged(first_by, first));
    assert(updated(once, unacknowledged(id), acknowledged(second_by, second)) =~= once);
}

/// An alert can always be raised, and never without a line in the log that names it.
pub proof fn law_alerts_are_logged(
    db: LedgerView,
    id: Seq<char>,
    log_line_id: Seq<char>,
    alert: RaiseView,
    now: i64,
)
    ensures
        ({
            let after = raised(db, id, log_line_id, alert, now);
            &&& after.alerts == db.alerts.push(new_alert(id, alert, now))
            &&& after.audit_log.len() == db.audit_log.len() + 1
            &&& after.audit_log.last().entity_id == id
            &&& after.audit_log.last().action == "safety_alert.raised"@
            &&& after.audit_log.last().link_id == Some(alert.link_id)
            &&& after.audit_log.last().actor_user_id == (match alert.raised_via {
                RaisedVia::Submissive => Some(alert.submissive_id),
                RaisedVia::System => None,
            })
        }),
{
}

/// An alert stands open from when it is raised, says by whom, and the log says the same at once.
pub proof fn law_alerts_start_open(
    db: LedgerView,
    id: Seq<char>,
    log_line_id: Seq<char>,
    raise: RaiseView,
    now: i64,
)
    ensures
        ({
            let after = raised(db, id, log_line_id, raise, now);
            let a = after.alerts.last();
            let line = after.audit_log.last();
            &&& after.alerts == db.alerts.push(a)
            &&& a.id == id && a.submissive_id == raise.submissive_id && a.link_id == raise.link_id
            &&& a.raised_at == now && a.message == raise.message
            &&& a.related_checkin_id == raise.related_checkin_id
            &&& raise.raised_via is Submissive ==> a.raised_via == "submissive"@
            &&& raise.raised_via is System ==> a.raised_via == "system"@
            &&& a.acknowledged_at is None && a.acknowledged_by_user_id is None
                && a.resolved_at is None
            &&& raise.raised_via is Submissive ==> {
                &&& after.audit_log == db.audit_log.push(line)
                &&& line.actor_user_id == Some(raise.submissive_id)
                &&& line.action == "safety_alert.raised"@ && line.entity_type == "safety_alerts"@
                &&& line.entity_id == id && line.link_id == Some(raise.link_id)
                &&& line.occurred_at == now
            }
        }),
{
}

/// Acknowledging and resolving mark the alert they are about, once; a mark that stands, and every
/// other alert, stay as they are.
pub proof fn law_alerts_are_marked_once(
    alerts: Seq<AlertView>,
    id: Seq<char>,
    by: Seq<char>,
    now: i64,
    k: int,
)
    requires
        0 <= k < alerts.len(),
    ensures
        ({
            let a = alerts[k];
            let seen = updated(alerts, unacknowledged(id), acknowledged(by, now));
            let done = updated(alerts, unresolved(id), resolved_at(now));
            &&& seen.len() == alerts.len() && done.len() == alerts.len()
            &&& seen[k] == (if a.id == id && a.acknowledged_at is None {
                AlertView { acknowledged_at: Some(now), acknowledged_by_user_id: Some(by), ..a }
            } else {
                a
            })
            &&& done[k] == (if a.id == id && a.resolved_at is None {
                AlertView { resolved_at: Some(now), ..a }
            } else {
                a
            })
        }),
{
}

/// The alerts of some links are listed whole: those that are still open before those that are not,
/// and among each the latest first.
pub proof fn law_open_alerts_come_first(
    listed: Seq<AlertView>,
    alerts: Seq<AlertView>,
    link_ids: Seq<Seq<char>>,
)
    requires
        ordered_from(listed, alerts.filter(of_links(link_ids)), open_first()),
    ensures
        forall|a: AlertView| #[trigger]
            listed.contains(a) <==> alerts.contains(a) && link_ids.contains(a.link_id),
        forall|i: int, j: int|
            0 <= i < j < listed.len() && (#[trigger] listed[i]).resolved_at is Some ==> (
            #[trigger] listed[j]).resolved_at is Some,
        forall|i: int, j: int|
            0 <= i < j < listed.len() && (listed[i].resolved_at is Some) == (
            listed[j].resolved_at is Some) ==> (#[trigger] listed[i]).raised_at >= (
            #[trigger] listed[j]).raised_at,
{
    lemma_listed(listed, alerts, of_links(link_ids), open_first());
}

/// An alert is found by its id.
pub proof fn law_alerts_are_found_by_their_id(alerts: Seq<AlertView>, id: Seq<char>, k: int)
    requires
        only(alerts, k, |a: AlertView| a.id == id),
    ensures
        find_row(alerts, by_id(id)) == Some(alerts[k]),
{
    lemma_find_only(alerts, k, |a: AlertView| a.id == id, by_id(id));
}

} // verus!
