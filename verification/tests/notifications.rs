use owners_ledger::domain::notifications::{
    create, exists_for_related_entity, exists_for_related_entity_since, list_for_user,
    mark_all_read, mark_push_dispatched, mark_read, NewNotification,
};
use owners_ledger::ledger::Ledger;

const NOW: i64 = 1_700_000_000;

fn new_notification<'a>(user_id: &'a str, notification_type: &'a str) -> NewNotification<'a> {
    NewNotification {
        user_id,
        link_id: None,
        notification_type,
        title: "Something happened",
        body: None,
        link_path: None,
        related_entity_type: None,
        related_entity_id: None,
    }
}

#[test]
fn create_and_list_round_trips() {
    let mut db = Ledger::new();

    create(&mut db, new_notification("user", "safety.alert_raised"), NOW);
    let list = list_for_user(&db, "user", false, 10);
    assert_eq!(list.len(), 1);
    assert_eq!(list[0].notification_type, "safety.alert_raised");
    assert!(list[0].read_at.is_none());
}

#[test]
fn list_is_scoped_to_the_user_and_newest_first() {
    let mut db = Ledger::new();

    create(&mut db, new_notification("user", "a"), NOW);
    let second = create(&mut db, new_notification("user", "b"), NOW + 1);
    create(&mut db, new_notification("other", "c"), NOW + 1);

    let list = list_for_user(&db, "user", false, 10);
    assert_eq!(list.len(), 2);
    assert_eq!(list[0].id, second.id);
}

#[test]
fn unread_only_filter_excludes_read_notifications() {
    let mut db = Ledger::new();

    let n = create(&mut db, new_notification("user", "a"), NOW);
    create(&mut db, new_notification("user", "b"), NOW);
    mark_read(&mut db, &n.id, "user", NOW);

    let unread = list_for_user(&db, "user", true, 10);
    assert_eq!(unread.len(), 1);
}

#[test]
fn mark_read_returns_false_for_someone_elses_notification() {
    let mut db = Ledger::new();

    let n = create(&mut db, new_notification("user", "a"), NOW);
    assert!(!mark_read(&mut db, &n.id, "other", NOW));
    assert!(mark_read(&mut db, &n.id, "user", NOW));
}

#[test]
fn mark_all_read_only_touches_the_given_user() {
    let mut db = Ledger::new();

    create(&mut db, new_notification("user", "a"), NOW);
    create(&mut db, new_notification("user", "b"), NOW);
    create(&mut db, new_notification("other", "c"), NOW);

    let updated = mark_all_read(&mut db, "user", NOW);
    assert_eq!(updated, 2);
    assert_eq!(list_for_user(&db, "user", true, 10).len(), 0);
    assert_eq!(list_for_user(&db, "other", true, 10).len(), 1);
}

#[test]
fn exists_for_related_entity_dedupes_reminders() {
    let mut db = Ledger::new();

    assert!(!exists_for_related_entity(&db, "task.deadline_approaching", "assignment-1"));
    create(
        &mut db,
        NewNotification {
            related_entity_id: Some("assignment-1"),
            ..new_notification("user", "task.deadline_approaching")
        },
        0,
    );
    assert!(exists_for_related_entity(&db, "task.deadline_approaching", "assignment-1"));
}

#[test]
fn exists_for_related_entity_since_respects_the_window() {
    let mut db = Ledger::new();
    create(
        &mut db,
        NewNotification {
            related_entity_id: Some("session-1"),
            ..new_notification("user", "confinement.clock_still_paused")
        },
        1000,
    );

    let since = |at| {
        exists_for_related_entity_since(&db, "confinement.clock_still_paused", "session-1", at)
    };
    assert!(since(500));
    assert!(!since(1500));
    assert!(since(1000));
}

#[test]
fn a_notification_is_read_once() {
    let mut db = Ledger::new();
    let n = create(&mut db, new_notification("user", "a"), NOW);
    assert!(mark_read(&mut db, &n.id, "user", NOW + 1));
    mark_read(&mut db, &n.id, "user", NOW + 2);
    assert_eq!(db.notifications[0].read_at, Some(NOW + 1));
    assert_eq!(mark_all_read(&mut db, "user", NOW + 3), 0);

    mark_push_dispatched(&mut db, &n.id, NOW + 4);
    assert_eq!(db.notifications[0].push_dispatched_at, Some(NOW + 4));
}

#[test]
fn a_feed_is_cut_at_its_limit() {
    let mut db = Ledger::new();
    for i in 0..5 {
        create(&mut db, new_notification("user", "a"), NOW + i);
    }
    let newest = list_for_user(&db, "user", false, 2);
    assert_eq!(newest.iter().map(|n| n.created_at).collect::<Vec<i64>>(), vec![NOW + 4, NOW + 3]);
    assert!(list_for_user(&db, "user", false, 0).is_empty());
    // A negative limit is no limit.
    assert_eq!(list_for_user(&db, "user", false, -1).len(), 5);
}
