//! The append-only activity log.

use vstd::prelude::*;

use crate::domain::{links, toys, users};
use crate::error::DbError;
use crate::ids::{is_id, new_id};
use crate::json::{member_of, object_fields, put_text, put_value, with_text, with_value, FieldView};
use crate::ledger::{Ledger, LedgerView};
use crate::table::{
    any, any_row, find_row, insert, lemma_any_same, lemma_find_only, lemma_listed, only, order,
    ordered_from, rows, select, Row,
};
use crate::text::{dup_opt, opt_is, own, own_opt, same};

verus! {

/// A stored line of the activity log.
#[derive(Debug, PartialEq, Eq)]
pub struct AuditRow {
    pub id: String,
    pub actor_user_id: Option<String>,
    pub link_id: Option<String>,
    pub action: String,
    pub entity_type: String,
    pub entity_id: String,
    pub occurred_at: i64,
    pub detail: Option<String>,
}

/// What an `AuditRow` holds.
#[verifier::ext_equal]
pub struct AuditRowView {
    pub id: Seq<char>,
    pub actor_user_id: Option<Seq<char>>,
    pub link_id: Option<Seq<char>>,
    pub action: Seq<char>,
    pub entity_type: Seq<char>,
    pub entity_id: Seq<char>,
    pub occurred_at: i64,
    pub detail: Option<Seq<char>>,
}

impl View for AuditRow {
    type V = AuditRowView;

    open spec fn view(&self) -> AuditRowView {
        AuditRowView {
            id: self.id@,
            actor_user_id: self.actor_user_id.deep_view(),
            link_id: self.link_id.deep_view(),
            action: self.action@,
            entity_type: self.entity_type@,
            entity_id: self.entity_id@,
            occurred_at: self.occurred_at,
            detail: self.detail.deep_view(),
        }
    }
}

impl DeepView for AuditRow {
    type V = AuditRowView;

    open spec fn deep_view(&self) -> AuditRowView {
        self.view()
    }
}

impl Row for AuditRow {
    fn dup(&self) -> (r: Self) {
        AuditRow {
            id: self.id.clone(),
            actor_user_id: dup_opt(&self.actor_user_id),
            link_id: dup_opt(&self.link_id),
            action: self.action.clone(),
            entity_type: self.entity_type.clone(),
            entity_id: self.entity_id.clone(),
            occurred_at: self.occurred_at,
            detail: dup_opt(&self.detail),
        }
    }
}

/// A line of the activity log with the names it refers to.
#[derive(Debug, PartialEq, Eq)]
pub struct LogRow {
    pub id: String,
    pub actor_user_id: Option<String>,
    pub action: String,
    pub entity_type: String,
    pub entity_id: String,
    pub occurred_at: i64,
    pub detail: Option<String>,
    /// The submissive of the row's link, or else of the toy it is about.
    pub submissive_id: Option<String>,
    pub submissive_display_name: Option<String>,
    pub actor_display_name: Option<String>,
}

/// What a `LogRow` holds.
#[verifier::ext_equal]
pub struct LogRowView {
    pub id: Seq<char>,
    pub actor_user_id: Option<Seq<char>>,
    pub action: Seq<char>,
    pub entity_type: Seq<char>,
    pub entity_id: Seq<char>,
    pub occurred_at: i64,
    pub detail: Option<Seq<char>>,
    pub submissive_id: Option<Seq<char>>,
    pub submissive_display_name: Option<Seq<char>>,
    pub actor_display_name: Option<Seq<char>>,
}

impl View for LogRow {
    type V = LogRowView;

    open spec fn view(&self) -> LogRowView {
        LogRowView {
            id: self.id@,
            actor_user_id: self.actor_user_id.deep_view(),
            action: self.action@,
            entity_type: self.entity_type@,
            entity_id: self.entity_id@,
            occurred_at: self.occurred_at,
            detail: self.detail.deep_view(),
            submissive_id: self.submissive_id.deep_view(),
            submissive_display_name: self.submissive_display_name.deep_view(),
            actor_display_name: self.actor_display_name.deep_view(),
        }
    }
}

impl DeepView for LogRow {
    type V = LogRowView;

    open spec fn deep_view(&self) -> LogRowView {
        self.view()
    }
}

impl Row for LogRow {
    fn dup(&self) -> (r: Self) {
        LogRow {
            id: self.id.clone(),
            actor_user_id: dup_opt(&self.actor_user_id),
            action: self.action.clone(),
            entity_type: self.entity_type.clone(),
            entity_id: self.entity_id.clone(),
            occurred_at: self.occurred_at,
            detail: dup_opt(&self.detail),
            submissive_id: dup_opt(&self.submissive_id),
            submissive_display_name: dup_opt(&self.submissive_display_name),
            actor_display_name: dup_opt(&self.actor_display_name),
        }
    }
}

/// Who acted. A schedule that fires and a command typed by an administrator both have no
/// account; the tag in the detail tells them apart.
#[derive(Clone, Copy, Debug, PartialEq, Eq)]
pub enum Actor<'a> {
    /// An account.
    User(&'a str),
    /// A schedule.
    System,
    /// An administrator's command.
    AdminCli,
}

/// What an `Actor` holds.
pub enum ActorView {
    User(Seq<char>),
    System,
    AdminCli,
}

impl<'a> View for Actor<'a> {
    type V = ActorView;

    open spec fn view(&self) -> ActorView {
        match self {
            Actor::User(id) => ActorView::User(id@),
            Actor::System => ActorView::System,
            Actor::AdminCli => ActorView::AdminCli,
        }
    }
}

/// What is to be recorded.
#[derive(Clone, Copy, Debug, PartialEq, Eq)]
pub struct Entry<'a> {
    pub actor: Actor<'a>,
    pub link_id: Option<&'a str>,
    pub action: &'a str,
    pub entity_type: &'a str,
    pub entity_id: &'a str,
    /// A JSON text.
    pub detail: Option<&'a str>,
}

/// What an `Entry` holds.
pub struct EntryView {
    pub actor: ActorView,
    pub link_id: Option<Seq<char>>,
    pub action: Seq<char>,
    pub entity_type: Seq<char>,
    pub entity_id: Seq<char>,
    pub detail: Option<Seq<char>>,
}

impl<'a> View for Entry<'a> {
    type V = EntryView;

    open spec fn view(&self) -> EntryView {
        EntryView {
            actor: self.actor@,
            link_id: self.link_id.deep_view(),
            action: self.action@,
            entity_type: self.entity_type@,
            entity_id: self.entity_id@,
            detail: self.detail.deep_view(),
        }
    }
}

impl ActorView {
    /// The account, for an actor that has one.
    pub open spec fn user_id(self) -> Option<Seq<char>> {
        match self {
            ActorView::User(id) => Some(id),
            _ => None,
        }
    }

    /// The tag of an actor without an account.
    pub open spec fn tag(self) -> Option<Seq<char>> {
        match self {
            ActorView::User(_) => None,
            ActorView::System => Some("system"@),
            ActorView::AdminCli => Some("admin_cli"@),
        }
    }
}

/// The detail with the actor's tag in it: put into an object as a member, wrapped around anything
/// else, alone where there was no detail. Without a tag the detail stays as it is.
pub open spec fn tagged_detail(
    detail: Option<Seq<char>>,
    tag: Option<Seq<char>>,
) -> Result<Option<Seq<char>>, DbError> {
    match tag {
        None => Ok(detail),
        Some(tag) => {
            let alone = with_text("{}"@, "actor_type"@, tag);
            match detail {
                None => Ok(alone),
                Some(raw) => match with_text(raw, "actor_type"@, tag) {
                    Some(text) => Ok(Some(text)),
                    None => match with_value(alone->0, "value"@, raw) {
                        Some(text) => Ok(Some(text)),
                        None => Err(DbError::InvalidQuery),
                    },
                },
            }
        },
    }
}

/// The text of a detail says who acted, and says the rest as the detail did.
pub open spec fn keeps_tag(detail: Option<Seq<char>>, tag: Seq<char>, text: Seq<char>) -> bool {
    &&& member_of(text, "actor_type"@) == Some(FieldView::Text(tag))
    &&& detail matches Some(raw) ==> forall|k: Seq<char>|
        k != "actor_type"@ ==> #[trigger] member_of(text, k) == member_of(raw, k)
}

/// Puts the tag into the detail. Where the detail is an object, or there is none, the result says
/// who acted and keeps every other member.
pub fn tag_detail(detail: Option<&str>, tag: Option<&str>) -> (r: Result<Option<String>, DbError>)
    ensures
        match tagged_detail(detail.deep_view(), tag.deep_view()) {
            Ok(text) => r is Ok && r->Ok_0.deep_view() == text,
            Err(e) => r == Err::<Option<String>, DbError>(e),
        },
        detail is None ==> r is Ok,
        tag is Some && (match detail {
            Some(raw) => object_fields(raw@) is Some,
            None => true,
        }) ==> r is Ok && r->Ok_0 is Some && keeps_tag(
            detail.deep_view(),
            tag.deep_view()->0,
            r->Ok_0.deep_view()->0,
        ),
{
    let tag = match tag {
        None => {
            return Ok(own_opt(detail));
        },
        Some(tag) => tag,
    };
    let alone = put_text("{}", "actor_type", tag);
    match detail {
        None => Ok(alone),
        Some(raw) => match put_text(raw, "actor_type", tag) {
            Some(text) => Ok(Some(text)),
            None => match alone {
                Some(object) => match put_value(object.as_str(), "value", raw) {
                    Some(text) => Ok(Some(text)),
                    None => Err(DbError::InvalidQuery),
                },
                None => Err(DbError::InvalidQuery),
            },
        },
    }
}

/// The log with one more line; fails only on a detail that is not JSON.
pub open spec fn recorded(
    db: LedgerView,
    id: Seq<char>,
    entry: EntryView,
    now: i64,
) -> Result<LedgerView, DbError> {
    match tagged_detail(entry.detail, entry.actor.tag()) {
        Err(e) => Err(e),
        Ok(detail) => Ok(
            LedgerView {
                audit_log: db.audit_log.push(
                    AuditRowView {
                        id,
                        actor_user_id: entry.actor.user_id(),
                        link_id: entry.link_id,
                        action: entry.action,
                        entity_type: entry.entity_type,
                        entity_id: entry.entity_id,
                        occurred_at: now,
                        detail,
                    },
                ),
                ..db
            },
        ),
    }
}

/// The log with one more line, for an entry without detail: that never fails.
pub open spec fn logged(db: LedgerView, id: Seq<char>, entry: EntryView, now: i64) -> LedgerView {
    recorded(db, id, entry, now)->Ok_0
}

/// An entry of an actor without an account, whose detail is an object or missing, is recorded, and
/// the line says who acted and keeps every other member of the detail.
pub open spec fn says_who(entry: EntryView, after: LedgerView, r: Result<(), DbError>) -> bool {
    entry.actor.tag() is Some && (match entry.detail {
        Some(raw) => object_fields(raw) is Some,
        None => true,
    }) ==> r is Ok && after.audit_log.len() > 0 && after.audit_log.last().detail is Some
        && keeps_tag(entry.detail, entry.actor.tag()->0, after.audit_log.last().detail->0)
}

/// Records an entry under the id `id`.
pub fn record_as(db: &mut Ledger, id: String, entry: Entry, now: i64) -> (r: Result<(), DbError>)
    ensures
        match recorded(old(db)@, id@, entry@, now) {
            Ok(after) => r is Ok && final(db)@ == after,
            Err(e) => r == Err::<(), DbError>(e) && final(db)@ == old(db)@,
        },
        entry.detail is None ==> r is Ok,
        says_who(entry@, final(db)@, r),
{
    let (actor_user_id, tag): (Option<&str>, Option<&str>) = match entry.actor {
        Actor::User(id) => (Some(id), None),
        Actor::System => (None, Some("system")),
        Actor::AdminCli => (None, Some("admin_cli")),
    };
    let detail = match tag_detail(entry.detail, tag) {
        Ok(d) => d,
        Err(e) => {
            return Err(e);
        },
    };
    insert(
        &mut db.audit_log,
        AuditRow {
            id,
            actor_user_id: own_opt(actor_user_id),
            link_id: own_opt(entry.link_id),
            action: own(entry.action),
            entity_type: own(entry.entity_type),
            entity_id: own(entry.entity_id),
            occurred_at: now,
            detail,
        },
    );
    Ok(())
}

/// Records an entry under a fresh id.
pub fn record(db: &mut Ledger, entry: Entry, now: i64) -> (r: Result<(), DbError>)
    ensures
        exists|id: Seq<char>|
            is_id(id) && match #[trigger] recorded(old(db)@, id, entry@, now) {
                Ok(after) => r is Ok && final(db)@ == after,
                Err(e) => r == Err::<(), DbError>(e) && final(db)@ == old(db)@,
            },
        entry.detail is None ==> r is Ok,
        says_who(entry@, final(db)@, r),
{
    let id = new_id();
    record_as(db, id, entry, now)
}

/// A link with this id is one of this Keyholder's.
pub open spec fn keyholders_link(link_id: Seq<char>, keyholder_id: Seq<char>) -> spec_fn(
    links::LinkView,
) -> bool {
    |l: links::LinkView| l.id == link_id && l.keyholder_id == keyholder_id
}

/// A line that concerns this Keyholder: on one of their links, of their own doing, or about their
/// own account.
pub open spec fn concerns(links: Seq<links::LinkView>, keyholder_id: Seq<char>) -> spec_fn(
    AuditRowView,
) -> bool {
    |row: AuditRowView|
        (match row.link_id {
            Some(link_id) => any_row(links, keyholders_link(link_id, keyholder_id)),
            None => false,
        }) || row.actor_user_id == Some(keyholder_id) || (row.entity_type == "users"@
            && row.entity_id == keyholder_id)
}

/// The account with this id.
pub open spec fn account(db: LedgerView, user_id: Option<Seq<char>>) -> Option<users::UserView> {
    match user_id {
        Some(id) => find_row(db.users, users::by_id(id)),
        None => None,
    }
}

/// The submissive that a line is about: on its link, or else the owner of its toy.
pub open spec fn subject(db: LedgerView, row: AuditRowView) -> Option<users::UserView> {
    let linked = match row.link_id {
        Some(link_id) => match find_row(db.links, links::by_id(link_id)) {
            Some(l) => account(db, Some(l.submissive_id)),
            None => None,
        },
        None => None,
    };
    if linked is Some {
        linked
    } else if row.entity_type == "toys"@ {
        match find_row(db.toys, toys::by_id(row.entity_id)) {
            Some(t) => account(db, Some(t.submissive_id)),
            None => None,
        }
    } else {
        None
    }
}

/// A line with the names that it refers to.
pub open spec fn resolved(db: LedgerView) -> spec_fn(AuditRowView) -> LogRowView {
    |row: AuditRowView|
        LogRowView {
            id: row.id,
            actor_user_id: row.actor_user_id,
            action: row.action,
            entity_type: row.entity_type,
            entity_id: row.entity_id,
            occurred_at: row.occurred_at,
            detail: row.detail,
            submissive_id: match subject(db, row) {
                Some(u) => Some(u.id),
                None => None,
            },
            submissive_display_name: match subject(db, row) {
                Some(u) => Some(u.display_name),
                None => None,
            },
            actor_display_name: match account(db, row.actor_user_id) {
                Some(u) => Some(u.display_name),
                None => None,
            },
        }
}

/// Newest first.
pub open spec fn newest_first() -> spec_fn(AuditRowView, AuditRowView) -> bool {
    |a: AuditRowView, b: AuditRowView| a.occurred_at >= b.occurred_at
}

/// The submissive on a link.
fn find_linked<'a>(db: &'a Ledger, link_id: &Option<String>) -> (r: Option<&'a users::User>)
    ensures
        r.deep_view() == (match link_id.deep_view() {
            Some(link_id) => match find_row(db@.links, links::by_id(link_id)) {
                Some(l) => account(db@, Some(l.submissive_id)),
                None => None,
            },
            None => None,
        }),
{
    match link_id {
        Some(link_id) => match links::get(db, link_id.as_str()) {
            Some(l) => users::get(db, l.submissive_id.as_str()),
            None => None,
        },
        None => None,
    }
}

/// The submissive that a line is about.
fn find_subject<'a>(db: &'a Ledger, row: &AuditRow) -> (r: Option<&'a users::User>)
    ensures
        r.deep_view() == subject(db@, row@),
{
    let linked = find_linked(db, &row.link_id);
    if linked.is_some() {
        return linked;
    }
    if !same(row.entity_type.as_str(), "toys") {
        return None;
    }
    match toys::get(db, row.entity_id.as_str()) {
        Some(t) => users::get(db, t.submissive_id.as_str()),
        None => None,
    }
}

/// Looks the names of a line up.
fn resolve(db: &Ledger, row: &AuditRow) -> (r: LogRow)
    ensures
        r@ == resolved(db@)(row@),
{
    let (submissive_id, submissive_display_name) = match find_subject(db, row) {
        Some(u) => (Some(u.id.clone()), Some(u.display_name.clone())),
        None => (None, None),
    };
    let actor_display_name = match &row.actor_user_id {
        Some(id) => match users::get(db, id.as_str()) {
            Some(u) => Some(u.display_name.clone()),
            None => None,
        },
        None => None,
    };
    LogRow {
        id: row.id.clone(),
        actor_user_id: dup_opt(&row.actor_user_id),
        action: row.action.clone(),
        entity_type: row.entity_type.clone(),
        entity_id: row.entity_id.clone(),
        occurred_at: row.occurred_at,
        detail: dup_opt(&row.detail),
        submissive_id,
        submissive_display_name,
        actor_display_name,
    }
}

/// Whether a link with this id is one of a Keyholder's.
fn is_keyholders_link(db: &Ledger, link_id: &Option<String>, keyholder_id: &str) -> (r: bool)
    ensures
        r == (match link_id.deep_view() {
            Some(link_id) => any_row(db@.links, keyholders_link(link_id, keyholder_id@)),
            None => false,
        }),
{
    match link_id {
        Some(link_id) => {
            let ghost p = keyholders_link(link_id@, keyholder_id@);
            let test = |l: &links::Link| -> (b: bool)
                ensures
                    b == p(l@),
                { same(l.id.as_str(), link_id.as_str())
                    && same(l.keyholder_id.as_str(), keyholder_id) };
            any(&db.links, Ghost(p), test)
        },
        None => false,
    }
}

/// Every line that concerns a Keyholder, newest first, with the names that it refers to.
pub fn list_for_keyholder(db: &Ledger, keyholder_id: &str) -> (r: Vec<LogRow>)
    ensures
        exists|found: Seq<AuditRowView>| #[trigger]
            ordered_from(
                found,
                db@.audit_log.filter(concerns(db@.links, keyholder_id@)),
                newest_first(),
            ) && rows(r@) == found.map_values(resolved(db@)),
{
    let ghost p = concerns(db@.links, keyholder_id@);
    let ghost le = newest_first();
    let test = |row: &AuditRow| -> (b: bool)
        ensures
            b == p(row@),
        {
            is_keyholders_link(db, &row.link_id, keyholder_id)
                || opt_is(&row.actor_user_id, keyholder_id)
                || (same(row.entity_type.as_str(), "users")
                    && same(row.entity_id.as_str(), keyholder_id))
        };
    let before = |a: &AuditRow, b: &AuditRow| -> (c: bool)
        ensures
            c == le(a@, b@),
        { a.occurred_at >= b.occurred_at };
    let found = order(select(&db.audit_log, Ghost(p), test), Ghost(le), before);
    let mut out: Vec<LogRow> = Vec::new();
    let mut i: usize = 0;
    while i < found.len()
        invariant
            i <= found@.len(),
            out@.len() == i,
            forall|j: int| 0 <= j < i ==> #[trigger] out@[j]@ == resolved(db@)(found@[j]@),
        decreases found@.len() - i,
    {
        out.push(resolve(db, &found[i]));
        i = i + 1;
    }
    assert(rows(out@) =~= rows(found@).map_values(resolved(db@)));
    assert(ordered_from(rows(found@), db@.audit_log.filter(p), le));
    out
}

/// A line says what was to be recorded, when, and who acted: an account by its id, anybody else by
/// none. What an account did is recorded with its detail as it stands.
pub proof fn law_lines_say_what_happened(
    db: LedgerView,
    id: Seq<char>,
    entry: EntryView,
    now: i64,
)
    ensures
        match recorded(db, id, entry, now) {
            Err(_) => !(entry.actor is User) && entry.detail is Some,
            Ok(after) => {
                let line = after.audit_log.last();
                &&& after == (LedgerView { audit_log: db.audit_log.push(line), ..db })
                &&& line.id == id && line.link_id == entry.link_id && line.action == entry.action
                &&& line.entity_type == entry.entity_type && line.entity_id == entry.entity_id
                &&& line.occurred_at == now
                &&& line.actor_user_id == (match entry.actor {
                    ActorView::User(who) => Some(who),
                    _ => None,
                })
                &&& entry.actor is User ==> line.detail == entry.detail
                &&& entry.actor is System && entry.detail is None ==> line.detail == with_text(
                    "{}"@,
                    "actor_type"@,
                    "system"@,
                )
                &&& entry.actor is AdminCli && entry.detail is None ==> line.detail == with_text(
                    "{}"@,
                    "actor_type"@,
                    "admin_cli"@,
                )
            },
        },
{
}

/// A Keyholder's log holds what is on their links, what they did, and what is about their own
/// account, all of it, the latest first.
pub proof fn law_logs_are_whole_and_newest_first(
    found: Seq<AuditRowView>,
    db: LedgerView,
    keyholder_id: Seq<char>,
    row: AuditRowView,
)
    requires
        ordered_from(found, db.audit_log.filter(concerns(db.links, keyholder_id)), newest_first()),
    ensures
        found.contains(row) <==> db.audit_log.contains(row) && ((row.link_id is Some && any_row(
            db.links,
            |l: links::LinkView| l.id == row.link_id->0 && l.keyholder_id == keyholder_id,
        )) || row.actor_user_id == Some(keyholder_id) || (row.entity_type == "users"@
            && row.entity_id == keyholder_id)),
        forall|i: int, j: int|
            0 <= i < j < found.len() ==> (#[trigger] found[i]).occurred_at >= (
            #[trigger] found[j]).occurred_at,
{
    lemma_listed(found, db.audit_log, concerns(db.links, keyholder_id), newest_first());
    if row.link_id is Some {
        lemma_any_same(
            db.links,
            |l: links::LinkView| l.id == row.link_id->0 && l.keyholder_id == keyholder_id,
            keyholders_link(row.link_id->0, keyholder_id),
        );
    }
}

/// A line is shown as it stands, with the name of who acted and, where it is on a link, the name of
/// the submissive of that link.
pub proof fn law_lines_are_shown_with_names(
    db: LedgerView,
    row: AuditRowView,
    n: int,
    s: int,
    a: int,
)
    requires
        row.link_id is Some,
        only(db.links, n, |l: links::LinkView| l.id == row.link_id->0),
        only(db.users, s, |u: users::UserView| u.id == db.links[n].submissive_id),
        row.actor_user_id is Some,
        only(db.users, a, |u: users::UserView| u.id == row.actor_user_id->0),
    ensures
        ({
            let shown = resolved(db)(row);
            &&& shown.id == row.id && shown.actor_user_id == row.actor_user_id
            &&& shown.action == row.action && shown.entity_type == row.entity_type
            &&& shown.entity_id == row.entity_id && shown.occurred_at == row.occurred_at
            &&& shown.detail == row.detail
            &&& shown.submissive_id == Some(db.links[n].submissive_id)
            &&& shown.submissive_display_name == Some(db.users[s].display_name)
            &&& shown.actor_display_name == Some(db.users[a].display_name)
        }),
{
    let link_id = row.link_id->0;
    let who = db.links[n].submissive_id;
    let actor = row.actor_user_id->0;
    lemma_find_only(db.links, n, |l: links::LinkView| l.id == link_id, links::by_id(link_id));
    lemma_find_only(db.users, s, |u: users::UserView| u.id == who, users::by_id(who));
    lemma_find_only(db.users, a, |u: users::UserView| u.id == actor, users::by_id(actor));
}

/// A line on no link is about the owner of the toy it names, and about nobody where it names none;
/// without an actor it shows no name of one.
pub proof fn law_toy_lines_name_the_owner(db: LedgerView, row: AuditRowView, t: int, s: int)
    requires
        row.link_id is None,
        row.actor_user_id is None,
        only(db.toys, t, |x: toys::ToyView| x.id == row.entity_id),
        only(db.users, s, |u: users::UserView| u.id == db.toys[t].submissive_id),
    ensures
        ({
            let shown = resolved(db)(row);
            &&& shown.actor_display_name is None
            &&& row.entity_type == "toys"@ ==> shown.submissive_id == Some(
                db.toys[t].submissive_id,
            ) && shown.submissive_display_name == Some(db.users[s].display_name)
            &&& row.entity_type != "toys"@ ==> shown.submissive_id is None
                && shown.submissive_display_name is None
        }),
{
    let who = db.toys[t].submissive_id;
    lemma_find_only(
        db.toys,
        t,
        |x: toys::ToyView| x.id == row.entity_id,
        toys::by_id(row.entity_id),
    );
    lemma_find_only(db.users, s, |u: users::UserView| u.id == who, users::by_id(who));
}

} // verus!
