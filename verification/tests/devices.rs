use owners_ledger::domain::chastity::devices::{add, list, retire};
use owners_ledger::ledger::Ledger;

const NOW: i64 = 1_700_000_000;

#[test]
fn add_then_list_round_trips() {
    let mut db = Ledger::new();
    add(&mut db, "sub", "steel #2", Some("daily wear"), NOW);

    let devices = list(&db, "sub");
    assert_eq!(devices.len(), 1);
    assert_eq!(devices[0].name, "steel #2");
    assert!(devices[0].retired_at.is_none());
}

#[test]
fn retire_is_scoped_to_the_owning_submissive() {
    let mut db = Ledger::new();
    let device_id = add(&mut db, "sub", "steel #2", None, NOW);

    assert!(!retire(&mut db, &device_id, "other", NOW));
    assert!(retire(&mut db, &device_id, "sub", NOW));
    assert!(list(&db, "sub")[0].retired_at.is_some());
}

#[test]
fn a_device_is_retired_once_and_stays_on_record() {
    let mut db = Ledger::new();
    let device_id = add(&mut db, "sub", "steel #2", None, NOW);
    add(&mut db, "other", "not theirs", None, NOW);
    assert!(retire(&mut db, &device_id, "sub", NOW + 1));
    assert!(!retire(&mut db, &device_id, "sub", NOW + 2));

    let devices = list(&db, "sub");
    assert_eq!(devices.len(), 1);
    assert_eq!(devices[0].retired_at, Some(NOW + 1));
    assert_eq!(devices[0].added_at, NOW);
}
