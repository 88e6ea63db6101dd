use owners_ledger::domain::links;
use owners_ledger::domain::safety::{
    acknowledge, get, list_for_links, raise, resolve, Raise, RaisedVia,
};
use owners_ledger::ledger::Ledger;

const NOW: i64 = 1_700_000_000;

fn seed_link(db: &mut Ledger, submissive_id: &str) -> String {
    links::create(db, "kh", submissive_id, NOW).unwrap()
}

fn alert<'a>(submissive_id: &'a str, link_id: &'a str) -> Raise<'a> {
    Raise {
        submissive_id,
        link_id,
        raised_via: RaisedVia::Submissive,
        related_checkin_id: None,
        message: None,
    }
}

#[test]
fn raising_an_alert_also_writes_an_audit_log_entry() {
    let mut db = Ledger::new();
    let link = seed_link(&mut db, "sub");

    let alert_id = raise(
        &mut db,
        Raise { message: Some("need to talk"), ..alert("sub", &link) },
        NOW,
    );

    assert!(get(&db, &alert_id).is_some());

    let audit_count = db
        .audit_log
        .iter()
        .filter(|l| l.entity_id == alert_id && l.action == "safety_alert.raised")
        .count();
    assert_eq!(audit_count, 1);
}

#[test]
fn system_raised_alert_has_no_human_actor() {
    let mut db = Ledger::new();
    let link = seed_link(&mut db, "sub");

    raise(
        &mut db,
        Raise {
            raised_via: RaisedVia::System,
            related_checkin_id: Some("checkin-1"),
            message: Some("auto-escalated from a RED check-in"),
            ..alert("sub", &link)
        },
        NOW,
    );

    let line = db.audit_log.iter().find(|l| l.action == "safety_alert.raised").unwrap();
    assert!(line.actor_user_id.is_none());
}

#[test]
fn list_for_links_sorts_unresolved_before_resolved() {
    let mut db = Ledger::new();
    let link = seed_link(&mut db, "sub");

    let resolved = raise(&mut db, alert("sub", &link), NOW);
    let open = raise(&mut db, alert("sub", &link), NOW);
    resolve(&mut db, &resolved, NOW);

    let all = list_for_links(&db, std::slice::from_ref(&link));
    assert_eq!(all.len(), 2);
    assert_eq!(all[0].id, open);
    assert_eq!(all[1].id, resolved);
}

#[test]
fn list_for_links_is_scoped_to_the_given_links() {
    let mut db = Ledger::new();
    let link = seed_link(&mut db, "sub");
    let other_link = seed_link(&mut db, "sub2");

    raise(&mut db, alert("sub", &link), NOW);
    raise(&mut db, alert("sub2", &other_link), NOW);

    assert_eq!(list_for_links(&db, &[link]).len(), 1);
    assert_eq!(list_for_links(&db, &[]).len(), 0);
}

#[test]
fn resolve_is_idempotent() {
    let mut db = Ledger::new();
    let link = seed_link(&mut db, "sub");
    let alert_id = raise(&mut db, alert("sub", &link), NOW);

    resolve(&mut db, &alert_id, NOW);
    let first = get(&db, &alert_id).unwrap().resolved_at;
    resolve(&mut db, &alert_id, NOW + 10);
    let second = get(&db, &alert_id).unwrap().resolved_at;
    assert_eq!(first, second);
}

#[test]
fn acknowledging_sets_acknowledged_fields_once() {
    let mut db = Ledger::new();
    let link = seed_link(&mut db, "sub");

    let alert_id = raise(&mut db, alert("sub", &link), NOW);

    acknowledge(&mut db, &alert_id, "kh", NOW);
    assert!(get(&db, &alert_id).unwrap().acknowledged_at.is_some());

    acknowledge(&mut db, &alert_id, "someone-else", NOW + 10);
    let alert = get(&db, &alert_id).unwrap();
    assert_eq!(alert.acknowledged_at, Some(NOW));
    assert_eq!(alert.acknowledged_by_user_id.as_deref(), Some("kh"));
}

#[test]
fn alerts_of_one_kind_stand_newest_first() {
    let mut db = Ledger::new();
    let link = seed_link(&mut db, "sub");
    let first = raise(&mut db, alert("sub", &link), NOW);
    let second = raise(&mut db, alert("sub", &link), NOW + 1);
    let ids: Vec<String> = list_for_links(&db, &[link]).into_iter().map(|a| a.id).collect();
    assert_eq!(ids, vec![second, first]);
    assert_eq!(RaisedVia::Submissive.as_str(), "submissive");
    assert_eq!(RaisedVia::System.as_str(), "system");
}
