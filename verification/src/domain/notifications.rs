//! The in-app notification feed: the lasting record, whether or not anything is pushed.

use vstd::prelude::*;

use crate::ids::{is_id, new_id};
use crate::ledger::{Ledger, LedgerView};
use crate::table::{
    any, any_row, count, insert, lemma_any_same, lemma_listed, order, ordered_from, rows, select,
    update, updated, Row,
};
use crate::text::{at_least, dup_opt, opt_is, own, own_opt, same, text_at_least};

verus! {

/// What a new notification is made from.
#[derive(Debug, PartialEq, Eq)]
pub struct NewNotification<'a> {
    pub user_id: &'a str,
    pub link_id: Option<&'a str>,
    pub notification_type: &'a str,
    pub title: &'a str,
    pub body: Option<&'a str>,
    pub link_path: Option<&'a str>,
    pub related_entity_type: Option<&'a str>,
    pub related_entity_id: Option<&'a str>,
}

/// What a `NewNotification` holds.
#[verifier::ext_equal]
pub struct NewNotificationView {
    pub user_id: Seq<char>,
    pub link_id: Option<Seq<char>>,
    pub notification_type: Seq<char>,
    pub title: Seq<char>,
    pub body: Option<Seq<char>>,
    pub link_path: Option<Seq<char>>,
    pub related_entity_type: Option<Seq<char>>,
    pub related_entity_id: Option<Seq<char>>,
}

impl<'a> View for NewNotification<'a> {
    type V = NewNotificationView;

    open spec fn view(&self) -> NewNotificationView {
        NewNotificationView {
            user_id: self.user_id@,
            link_id: self.link_id.deep_view(),
            notification_type: self.notification_type@,
            title: self.title@,
            body: self.body.deep_view(),
            link_path: self.link_path.deep_view(),
            related_entity_type: self.related_entity_type.deep_view(),
            related_entity_id: self.related_entity_id.deep_view(),
        }
    }
}

/// A notification.
#[derive(Clone, Debug, PartialEq, Eq)]
pub struct Notification {
    pub id: String,
    pub user_id: String,
    pub link_id: Option<String>,
    pub notification_type: String,
    pub title: String,
    pub body: Option<String>,
    pub link_path: Option<String>,
    pub related_entity_type: Option<String>,
    pub related_entity_id: Option<String>,
    pub created_at: i64,
    pub read_at: Option<i64>,
    pub push_dispatched_at: Option<i64>,
}

/// What a `Notification` holds.
#[verifier::ext_equal]
pub struct NotificationView {
    pub id: Seq<char>,
    pub user_id: Seq<char>,
    pub link_id: Option<Seq<char>>,
    pub notification_type: Seq<char>,
    pub title: Seq<char>,
    pub body: Option<Seq<char>>,
    pub link_path: Option<Seq<char>>,
    pub related_entity_type: Option<Seq<char>>,
    pub related_entity_id: Option<Seq<char>>,
    pub created_at: i64,
    pub read_at: Option<i64>,
    pub push_dispatched_at: Option<i64>,
}

impl View for Notification {
    type V = NotificationView;

    open spec fn view(&self) -> NotificationView {
        NotificationView {
            id: self.id@,
            user_id: self.user_id@,
            link_id: self.link_id.deep_view(),
            notification_type: self.notification_type@,
            title: self.title@,
            body: self.body.deep_view(),
            link_path: self.link_path.deep_view(),
            related_entity_type: self.related_entity_type.deep_view(),
            related_entity_id: self.related_entity_id.deep_view(),
            created_at: self.created_at,
            read_at: self.read_at,
            push_dispatched_at: self.push_dispatched_at,
        }
    }
}

impl DeepView for Notification {
    type V = NotificationView;

    open spec fn deep_view(&self) -> NotificationView {
        self.view()
    }
}

impl Row for Notification {
    fn dup(&self) -> (r: Self) {
        Notification {
            id: self.id.clone(),
            user_id: self.user_id.clone(),
            link_id: dup_opt(&self.link_id),
            notification_type: self.notification_type.clone(),
            title: self.title.clone(),
            body: dup_opt(&self.body),
            link_path: dup_opt(&self.link_path),
            related_entity_type: dup_opt(&self.related_entity_type),
            related_entity_id: dup_opt(&self.related_entity_id),
            created_at: self.created_at,
            read_at: self.read_at,
            push_dispatched_at: self.push_dispatched_at,
        }
    }
}

/// A notification as it is written: unread.
pub open spec fn new_row(id: Seq<char>, new: NewNotificationView, now: i64) -> NotificationView {
    NotificationView {
        id,
        user_id: new.user_id,
        link_id: new.link_id,
        notification_type: new.notification_type,
        title: new.title,
        body: new.body,
        link_path: new.link_path,
        related_entity_type: new.related_entity_type,
        related_entity_id: new.related_entity_id,
        created_at: now,
        read_at: None,
        push_dispatched_at: None,
    }
}

/// Writes a notification.
pub fn create(db: &mut Ledger, new: NewNotification, now: i64) -> (r: Notification)
    ensures
        is_id(r@.id),
        r@ == new_row(r@.id, new@, now),
        final(db)@ == (LedgerView {
            notifications: old(db)@.notifications.push(r@),
            ..old(db)@
        }),
{
    let row = Notification {
        id: new_id(),
        user_id: own(new.user_id),
        link_id: own_opt(new.link_id),
        notification_type: own(new.notification_type),
        title: own(new.title),
        body: own_opt(new.body),
        link_path: own_opt(new.link_path),
        related_entity_type: own_opt(new.related_entity_type),
        related_entity_id: own_opt(new.related_entity_id),
        created_at: now,
        read_at: None,
        push_dispatched_at: None,
    };
    insert(&mut db.notifications, row.dup());
    row
}

/// A notification of this type about this entity.
pub open spec fn about(notification_type: Seq<char>, entity_id: Seq<char>) -> spec_fn(
    NotificationView,
) -> bool {
    |n: NotificationView|
        n.notification_type == notification_type && n.related_entity_id == Some(entity_id)
}

/// Whether an entity has ever had a notification of this type.
pub fn exists_for_related_entity(
    db: &Ledger,
    notification_type: &str,
    related_entity_id: &str,
) -> (r: bool)
    ensures
        r == any_row(db@.notifications, about(notification_type@, related_entity_id@)),
{
    let ghost p = about(notification_type@, related_entity_id@);
    let test = |n: &Notification| -> (b: bool)
        ensures
            b == p(n@),
        {
            same(n.notification_type.as_str(), notification_type)
                && opt_is(&n.related_entity_id, related_entity_id)
        };
    any(&db.notifications, Ghost(p), test)
}

/// The same, not older than `since`.
pub open spec fn about_since(
    notification_type: Seq<char>,
    entity_id: Seq<char>,
    since: i64,
) -> spec_fn(NotificationView) -> bool {
    |n: NotificationView|
        n.notification_type == notification_type && n.related_entity_id == Some(entity_id)
            && n.created_at >= since
}

/// Whether an entity has had a notification of this type since a time.
pub fn exists_for_related_entity_since(
    db: &Ledger,
    notification_type: &str,
    related_entity_id: &str,
    since: i64,
) -> (r: bool)
    ensures
        r == any_row(
            db@.notifications,
            about_since(notification_type@, related_entity_id@, since),
        ),
{
    let ghost p = about_since(notification_type@, related_entity_id@, since);
    let test = |n: &Notification| -> (b: bool)
        ensures
            b == p(n@),
        {
            same(n.notification_type.as_str(), notification_type)
                && opt_is(&n.related_entity_id, related_entity_id) && n.created_at >= since
        };
    any(&db.notifications, Ghost(p), test)
}

/// In this user's feed, and unread where only those are asked for.
pub open spec fn in_feed(user_id: Seq<char>, unread_only: bool) -> spec_fn(
    NotificationView,
) -> bool {
    |n: NotificationView| n.user_id == user_id && (!unread_only || n.read_at is None)
}

/// Newest first, and by descending id among those of one second.
pub open spec fn newest_first() -> spec_fn(NotificationView, NotificationView) -> bool {
    |a: NotificationView, b: NotificationView|
        a.created_at > b.created_at || (a.created_at == b.created_at && at_least(a.id, b.id))
}

/// At most so many of them; a negative limit is none at all.
pub open spec fn limited<V>(s: Seq<V>, limit: i64) -> Seq<V> {
    if 0 <= limit < s.len() {
        s.take(limit as int)
    } else {
        s
    }
}

/// A user's feed, newest first, cut off after `limit`; a negative limit cuts nothing off.
pub fn list_for_user(db: &Ledger, user_id: &str, unread_only: bool, limit: i64) -> (r: Vec<
    Notification,
>)
    ensures
        exists|found: Seq<NotificationView>|
            #[trigger] ordered_from(
                found,
                db@.notifications.filter(in_feed(user_id@, unread_only)),
                newest_first(),
            ) && rows(r@) == limited(found, limit),
{
    let ghost p = in_feed(user_id@, unread_only);
    let ghost le = newest_first();
    let test = |n: &Notification| -> (b: bool)
        ensures
            b == p(n@),
        { same(n.user_id.as_str(), user_id) && (!unread_only || n.read_at.is_none()) };
    let before = |a: &Notification, b: &Notification| -> (c: bool)
        ensures
            c == le(a@, b@),
        {
            a.created_at > b.created_at || (a.created_at == b.created_at && text_at_least(
                a.id.as_str(),
                b.id.as_str(),
            ))
        };
    proof {
        crate::text::lemma_at_least_order();
    }
    let mut found = order(select(&db.notifications, Ghost(p), test), Ghost(le), before);
    let ghost whole = found@;
    if 0 <= limit && (limit as u64) < found.len() as u64 {
        found.truncate(limit as usize);
        assert(rows(found@) =~= rows(whole).take(limit as int));
    }
    assert(ordered_from(rows(whole), db@.notifications.filter(p), le));
    found
}

/// This user's notification with this id.
pub open spec fn owned(id: Seq<char>, user_id: Seq<char>) -> spec_fn(NotificationView) -> bool {
    |n: NotificationView| n.id == id && n.user_id == user_id
}

/// Unread, with this id.
pub open spec fn unread(id: Seq<char>) -> spec_fn(NotificationView) -> bool {
    |n: NotificationView| n.id == id && n.read_at is None
}

/// Read at this time.
pub open spec fn read(now: i64) -> spec_fn(NotificationView) -> NotificationView {
    |n: NotificationView| NotificationView { read_at: Some(now), ..n }
}

/// Marks a notification read; `false` where it is not this user's. Marking it again is no error
/// and changes nothing.
pub fn mark_read(db: &mut Ledger, id: &str, user_id: &str, now: i64) -> (r: bool)
    ensures
        r == any_row(old(db)@.notifications, owned(id@, user_id@)),
        final(db)@ == (if r {
            LedgerView {
                notifications: updated(old(db)@.notifications, unread(id@), read(now)),
                ..old(db)@
            }
        } else {
            old(db)@
        }),
{
    let ghost q = owned(id@, user_id@);
    let test = |n: &Notification| -> (b: bool)
        ensures
            b == q(n@),
        { same(n.id.as_str(), id) && same(n.user_id.as_str(), user_id) };
    if !any(&db.notifications, Ghost(q), test) {
        return false;
    }
    let ghost p = unread(id@);
    let ghost u = read(now);
    let change = |m: &Notification| -> (n: Option<Notification>)
        ensures
            match n {
                Some(x) => p(m@) && x@ == u(m@),
                None => !p(m@),
            },
        {
            if same(m.id.as_str(), id) && m.read_at.is_none() {
                let mut n = m.dup();
                n.read_at = Some(now);

                Some(n)
            } else {
                None
            }
        };
    update(&mut db.notifications, Ghost(p), Ghost(u), change);
    true
}

/// Marks a user's whole feed read; how many were unread.
pub fn mark_all_read(db: &mut Ledger, user_id: &str, now: i64) -> (r: usize)
    ensures
        r == old(db)@.notifications.filter(in_feed(user_id@, true)).len(),
        final(db)@ == (LedgerView {
            notifications: updated(old(db)@.notifications, in_feed(user_id@, true), read(now)),
            ..old(db)@
        }),
{
    let ghost p = in_feed(user_id@, true);
    let ghost u = read(now);
    let test = |n: &Notification| -> (b: bool)
        ensures
            b == p(n@),
        { same(n.user_id.as_str(), user_id) && n.read_at.is_none() };
    let change = |m: &Notification| -> (n: Option<Notification>)
        ensures
            match n {
                Some(x) => p(m@) && x@ == u(m@),
                None => !p(m@),
            },
        {
            if same(m.user_id.as_str(), user_id) && m.read_at.is_none() {
                let mut n = m.dup();
                n.read_at = Some(now);

                Some(n)
            } else {
                None
            }
        };
    let n = count(&db.notifications, Ghost(p), test);
    update(&mut db.notifications, Ghost(p), Ghost(u), change);
    n
}

/// The notification has this id.
pub open spec fn by_id(id: Seq<char>) -> spec_fn(NotificationView) -> bool {
    |n: NotificationView| n.id == id
}

/// Pushed at this time.
pub open spec fn dispatched(now: i64) -> spec_fn(NotificationView) -> NotificationView {
    |n: NotificationView| NotificationView { push_dispatched_at: Some(now), ..n }
}

/// Notes that a notification was pushed.
pub fn mark_push_dispatched(db: &mut Ledger, id: &str, now: i64)
    ensures
        final(db)@ == (LedgerView {
            notifications: updated(old(db)@.notifications, by_id(id@), dispatched(now)),
            ..old(db)@
        }),
{
    let ghost p = by_id(id@);
    let ghost u = dispatched(now);
    let change = |m: &Notification| -> (n: Option<Notification>)
        ensures
            match n {
                Some(x) => p(m@) && x@ == u(m@),
                None => !p(m@),
            },
        {
            if same(m.id.as_str(), id) {
                let mut n = m.dup();
                n.push_dispatched_at = Some(now);

                Some(n)
            } else {
                None
            }
        };
    update(&mut db.notifications, Ghost(p), Ghost(u), change);
}

/// Marking a notification read a second time changes nothing: it keeps the time of the first.
pub proof fn law_read_once(s: Seq<NotificationView>, id: Seq<char>, first: i64, second: i64)
    ensures
        updated(updated(s, unread(id), read(first)), unread(id), read(second)) == updated(
            s,
            unread(id),
            read(first),
        ),
{
    let once = updated(s, unread(id), read(first));
    assert(updated(once, unread(id), read(second)) =~= once);
}

/// A feed that was marked read has nothing unread, and no other feed is touched.
pub proof fn law_all_read(s: Seq<NotificationView>, user_id: Seq<char>, other: Seq<char>, now: i64)
    requires
        user_id != other,
    ensures
        ({
            let after = updated(s, in_feed(user_id, true), read(now));
            &&& !any_row(after, in_feed(user_id, true))
            &&& forall|i: int|
                0 <= i < s.len() && (#[trigger] s[i]).user_id == other ==> after[i] == s[i]
        }),
{
    let after = updated(s, in_feed(user_id, true), read(now));
    assert forall|i: int| 0 <= i < after.len() implies !in_feed(user_id, true)(
        #[trigger] after[i],
    ) by {}
}

/// A notification is written as it was asked for, unread and not pushed.
pub proof fn law_notifications_start_unread(id: Seq<char>, new: NewNotificationView, now: i64)
    ensures
        ({
            let n = new_row(id, new, now);
            &&& n.id == id && n.user_id == new.user_id && n.link_id == new.link_id
            &&& n.notification_type == new.notification_type && n.title == new.title
            &&& n.body == new.body && n.link_path == new.link_path
            &&& n.related_entity_type == new.related_entity_type
            &&& n.related_entity_id == new.related_entity_id
            &&& n.created_at == now && n.read_at is None && n.push_dispatched_at is None
        }),
{
}

/// A feed holds the user's own notifications, the unread ones alone where only those are asked for,
/// the latest first and of one second by descending id; a limit cuts it short after so many, and a
/// negative one does not.
pub proof fn law_feeds_are_whole_and_newest_first(
    found: Seq<NotificationView>,
    notes: Seq<NotificationView>,
    user_id: Seq<char>,
    unread_only: bool,
    limit: i64,
)
    requires
        ordered_from(found, notes.filter(in_feed(user_id, unread_only)), newest_first()),
    ensures
        forall|n: NotificationView| #[trigger]
            found.contains(n) <==> notes.contains(n) && n.user_id == user_id && (unread_only
                ==> n.read_at is None),
        forall|i: int, j: int|
            0 <= i < j < found.len() ==> (#[trigger] found[i]).created_at >= (
            #[trigger] found[j]).created_at,
        forall|i: int, j: int|
            0 <= i < j < found.len() && found[i].created_at == found[j].created_at ==> at_least(
                (#[trigger] found[i]).id,
                (#[trigger] found[j]).id,
            ),
        ({
            let shown = limited(found, limit);
            &&& limit < 0 ==> shown == found
            &&& limit >= 0 ==> shown.len() == (if limit < found.len() {
                limit as int
            } else {
                found.len() as int
            })
            &&& forall|i: int| 0 <= i < shown.len() ==> #[trigger] shown[i] == found[i]
        }),
{
    lemma_listed(found, notes, in_feed(user_id, unread_only), newest_first());
}

/// Whether something was said of an entity before, and whether it was said since a time.
pub proof fn law_notices_are_told_apart(
    notes: Seq<NotificationView>,
    notification_type: Seq<char>,
    entity_id: Seq<char>,
    since: i64,
)
    ensures
        any_row(notes, about(notification_type, entity_id)) == any_row(
            notes,
            |n: NotificationView|
                n.notification_type == notification_type && n.related_entity_id == Some(entity_id),
        ),
        any_row(notes, about_since(notification_type, entity_id, since)) == any_row(
            notes,
            |n: NotificationView|
                n.notification_type == notification_type && n.related_entity_id == Some(entity_id)
                    && since <= n.created_at,
        ),
{
    lemma_any_same(
        notes,
        |n: NotificationView|
            n.notification_type == notification_type && n.related_entity_id == Some(entity_id),
        about(notification_type, entity_id),
    );
    lemma_any_same(
        notes,
        |n: NotificationView|
            n.notification_type == notification_type && n.related_entity_id == Some(entity_id)
                && since <= n.created_at,
        about_since(notification_type, entity_id, since),
    );
}

/// Marks are set on what they are about and keep what stands: a notification is read at the first
/// time alone, all of a user's unread ones are read at once, and a push is noted on its own row.
pub proof fn law_marks_touch_their_own(
    notes: Seq<NotificationView>,
    id: Seq<char>,
    user_id: Seq<char>,
    now: i64,
    k: int,
)
    requires
        0 <= k < notes.len(),
    ensures
        ({
            let n = notes[k];
            let one = updated(notes, unread(id), read(now));
            let all = updated(notes, in_feed(user_id, true), read(now));
            let pushed = updated(notes, by_id(id), dispatched(now));
            &&& one.len() == notes.len() && all.len() == notes.len() && pushed.len() == notes.len()
            &&& one[k] == (if n.id == id && n.read_at is None {
                NotificationView { read_at: Some(now), ..n }
            } else {
                n
            })
            &&& all[k] == (if n.user_id == user_id && n.read_at is None {
                NotificationView { read_at: Some(now), ..n }
            } else {
                n
            })
            &&& pushed[k] == (if n.id == id {
                NotificationView { push_dispatched_at: Some(now), ..n }
            } else {
                n
            })
        }),
        any_row(notes, owned(id, user_id)) == any_row(
            notes,
            |n: NotificationView| n.id == id && n.user_id == user_id,
        ),
{
    lemma_any_same(
        notes,
        |n: NotificationView| n.id == id && n.user_id == user_id,
        owned(id, user_id),
    );
}

/// Reading everything reports how many of the user's notifications were unread.
pub proof fn law_reading_all_counts_the_unread(notes: Seq<NotificationView>, user_id: Seq<char>)
    ensures
        notes.filter(in_feed(user_id, true)).len() == notes.filter(
            |n: NotificationView| n.user_id == user_id && n.read_at is None,
        ).len(),
{
    assert(in_feed(user_id, true) =~= (|n: NotificationView|
        n.user_id == user_id && n.read_at is None));
}

} // verus!
