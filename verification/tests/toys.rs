use owners_ledger::domain::toys::{
    create, decline_removal, get, list_for_submissive, request_removal, retire, update,
    DeclineRemovalError, NewToy, RequestRemovalError, ToyEdit,
};
use owners_ledger::ledger::Ledger;

const NOW: i64 = 1_700_000_000;

fn new_toy<'a>(submissive_id: &'a str, added_by: &'a str, name: &'a str) -> NewToy<'a> {
    NewToy {
        submissive_id,
        added_by_user_id: added_by,
        name,
        category: None,
        material: None,
        brand: None,
        size_notes: None,
        color: None,
        compatible_device_id: None,
        storage_location: None,
        care_instructions: None,
        usage_notes: None,
        tags: None,
        photo_attachment_path: None,
        acquired_at: None,
    }
}

#[test]
fn create_and_list_round_trips_and_excludes_retired_by_default() {
    let mut db = Ledger::new();

    let id = create(&mut db, new_toy("sub", "kh", "steel cage"));
    let list = list_for_submissive(&db, "sub", false);
    assert_eq!(list.len(), 1);
    assert_eq!(list[0].name, "steel cage");

    retire(&mut db, &id, "kh", NOW);

    assert_eq!(list_for_submissive(&db, "sub", false).len(), 0);
    assert_eq!(list_for_submissive(&db, "sub", true).len(), 1);
}

#[test]
fn update_only_touches_provided_fields_and_supports_clearing() {
    let mut db = Ledger::new();
    let id = create(&mut db, new_toy("sub", "kh", "bullet vibe"));

    update(
        &mut db,
        &id,
        ToyEdit {
            category: Some(Some("vibrator")),
            tags: Some(Some("[\"quiet\"]")),
            ..Default::default()
        },
    );
    let t = get(&db, &id).unwrap();
    assert_eq!(t.name, "bullet vibe");
    assert_eq!(t.category.as_deref(), Some("vibrator"));

    update(&mut db, &id, ToyEdit { category: Some(None), ..Default::default() });
    assert!(get(&db, &id).unwrap().category.is_none());
}

#[test]
fn request_removal_then_retire_clears_the_pending_flag() {
    let mut db = Ledger::new();
    let id = create(&mut db, new_toy("sub", "sub", "nylon rope"));

    request_removal(&mut db, &id, NOW).unwrap();
    assert!(get(&db, &id).unwrap().retirement_requested_at.is_some());

    // It cannot be requested twice.
    assert!(matches!(
        request_removal(&mut db, &id, NOW),
        Err(RequestRemovalError::Conflict)
    ));

    retire(&mut db, &id, "kh", NOW);
    let t = get(&db, &id).unwrap();
    assert!(t.retired_at.is_some());
    assert!(t.retirement_requested_at.is_none());
}

#[test]
fn decline_removal_clears_the_request_without_retiring_and_is_audited() {
    let mut db = Ledger::new();
    let id = create(&mut db, new_toy("sub", "sub", "rope"));
    request_removal(&mut db, &id, NOW).unwrap();

    decline_removal(&mut db, &id, "kh", NOW).unwrap();

    let t = get(&db, &id).unwrap();
    assert!(t.retirement_requested_at.is_none());
    assert!(t.retired_at.is_none());

    let audit_count = db
        .audit_log
        .iter()
        .filter(|l| l.entity_id == id && l.action == "toy.removal_declined")
        .count();
    assert_eq!(audit_count, 1);

    // Nothing is pending any more, so declining again is refused.
    assert!(matches!(
        decline_removal(&mut db, &id, "kh", NOW),
        Err(DeclineRemovalError::NotPending)
    ));
}

#[test]
fn a_request_hides_nothing_and_can_be_made_again_once_declined() {
    let mut db = Ledger::new();
    let id = create(&mut db, new_toy("sub", "sub", "rope"));
    assert_eq!(request_removal(&mut db, "gone", NOW), Err(RequestRemovalError::NotFound));
    request_removal(&mut db, &id, NOW).unwrap();
    assert_eq!(list_for_submissive(&db, "sub", false).len(), 1);
    decline_removal(&mut db, &id, "kh", NOW).unwrap();
    request_removal(&mut db, &id, NOW + 1).unwrap();
    assert_eq!(get(&db, &id).unwrap().retirement_requested_at, Some(NOW + 1));

    retire(&mut db, &id, "kh", NOW + 2);
    assert_eq!(request_removal(&mut db, &id, NOW), Err(RequestRemovalError::Conflict));
    assert_eq!(get(&db, &id).unwrap().retired_by_user_id.as_deref(), Some("kh"));
    assert!(db.audit_log.iter().any(|l| l.action == "toy.retired" && l.entity_id == id));
}

#[test]
fn an_edit_of_nothing_finds_nothing() {
    let mut db = Ledger::new();
    assert!(!update(&mut db, "gone", ToyEdit { name: Some("x"), ..Default::default() }));
    let id = create(&mut db, new_toy("sub", "sub", "rope"));
    let before = get(&db, &id).unwrap();
    update(&mut db, &id, ToyEdit::default());
    assert_eq!(get(&db, &id).unwrap(), before);
}
