use owners_ledger::domain::limits::{
    clear_keyholder_rating, clear_rating, create_item, get_item, list_items_for_keyholder,
    list_items_with_ratings_for_keyholder, list_items_with_ratings_for_submissive,
    list_ratings_for_keyholder, list_ratings_for_submissive, set_keyholder_rating, set_rating,
    update_item, ItemEdit, LimitItem, NewItem, SetRatingError,
};
use owners_ledger::ledger::Ledger;

const NOW: i64 = 1_700_000_000;
const PADDLE: &str = "seed-impact-paddle";
const CANE: &str = "seed-impact-cane";

/// A ledger with two items of the global catalog.
fn seeded() -> Ledger {
    let mut db = Ledger::new();
    for (id, label) in [(PADDLE, "Paddle"), (CANE, "Cane")] {
        db.limit_items.push(LimitItem {
            id: id.into(),
            keyholder_id: None,
            category: "Impact".into(),
            label: label.into(),
            description: None,
            active: true,
            created_at: 0,
        });
    }
    db
}

fn house_rule(keyholder_id: &str) -> NewItem<'_> {
    NewItem { keyholder_id, category: "Custom", label: "House rule", description: None }
}

#[test]
fn list_items_for_keyholder_includes_global_seed_rows() {
    let db = seeded();

    let items = list_items_for_keyholder(&db, "kh");
    assert!(!items.is_empty());
    assert!(items.iter().all(|i| i.keyholder_id.is_none()));
}

#[test]
fn create_item_is_scoped_to_the_owning_keyholder_only() {
    let mut db = seeded();

    let id = create_item(&mut db, house_rule("kh"), NOW);

    assert!(list_items_for_keyholder(&db, "kh").iter().any(|i| i.id == id));
    assert!(!list_items_for_keyholder(&db, "other").iter().any(|i| i.id == id));
}

#[test]
fn update_item_rejects_editing_a_global_seed_item_or_someone_elses() {
    let mut db = seeded();

    assert!(!update_item(&mut db, PADDLE, "kh", ItemEdit::default()));

    let own_id = create_item(&mut db, house_rule("kh"), NOW);
    assert!(!update_item(&mut db, &own_id, "other", ItemEdit::default()));
    assert!(update_item(
        &mut db,
        &own_id,
        "kh",
        ItemEdit { label: Some("Renamed"), ..Default::default() },
    ));
    assert_eq!(get_item(&db, &own_id).unwrap().label, "Renamed");
}

#[test]
fn set_rating_upserts_and_rejects_an_invalid_value() {
    let mut db = seeded();

    assert!(matches!(
        set_rating(&mut db, "sub", PADDLE, "bogus", None, NOW),
        Err(SetRatingError::InvalidRating)
    ));
    assert!(matches!(
        set_rating(&mut db, "sub", "no-such-item", "hard", None, NOW),
        Err(SetRatingError::ItemNotFound)
    ));

    set_rating(&mut db, "sub", PADDLE, "hard", Some("no"), NOW).unwrap();
    let ratings = list_ratings_for_submissive(&db, "sub");
    assert_eq!(ratings.len(), 1);
    assert_eq!(ratings[0].rating, "hard");

    // Rating the same item again replaces the rating.
    set_rating(&mut db, "sub", PADDLE, "soft", None, NOW).unwrap();
    let ratings = list_ratings_for_submissive(&db, "sub");
    assert_eq!(ratings.len(), 1);
    assert_eq!(ratings[0].rating, "soft");
    assert!(ratings[0].notes.is_none());
}

#[test]
fn clear_rating_returns_to_not_discussed() {
    let mut db = seeded();

    assert!(!clear_rating(&mut db, "sub", PADDLE));
    set_rating(&mut db, "sub", PADDLE, "hard", None, NOW).unwrap();
    assert!(clear_rating(&mut db, "sub", PADDLE));
    assert!(list_ratings_for_submissive(&db, "sub").is_empty());
}

#[test]
fn list_items_with_ratings_pairs_correctly_and_leaves_unrated_as_none() {
    let mut db = seeded();

    set_rating(&mut db, "sub", PADDLE, "hard", None, NOW).unwrap();
    let paired = list_items_with_ratings_for_submissive(&db, "kh", "sub");
    let paddle = paired.iter().find(|(i, _)| i.id == PADDLE).unwrap();
    assert_eq!(paddle.1.as_ref().unwrap().rating, "hard");

    let cane = paired.iter().find(|(i, _)| i.id == CANE).unwrap();
    assert!(cane.1.is_none());
}

#[test]
fn set_keyholder_rating_upserts_and_rejects_an_invalid_value() {
    let mut db = seeded();

    assert!(matches!(
        set_keyholder_rating(&mut db, "kh", PADDLE, "bogus", None, NOW),
        Err(SetRatingError::InvalidRating)
    ));
    assert!(matches!(
        set_keyholder_rating(&mut db, "kh", "no-such-item", "hard", None, NOW),
        Err(SetRatingError::ItemNotFound)
    ));

    set_keyholder_rating(&mut db, "kh", PADDLE, "hard", Some("no"), NOW).unwrap();
    let ratings = list_ratings_for_keyholder(&db, "kh");
    assert_eq!(ratings.len(), 1);
    assert_eq!(ratings[0].rating, "hard");

    // Rating the same item again replaces the rating.
    set_keyholder_rating(&mut db, "kh", PADDLE, "soft", None, NOW).unwrap();
    let ratings = list_ratings_for_keyholder(&db, "kh");
    assert_eq!(ratings.len(), 1);
    assert_eq!(ratings[0].rating, "soft");
    assert!(ratings[0].notes.is_none());
}

#[test]
fn clear_keyholder_rating_returns_to_not_discussed() {
    let mut db = seeded();

    assert!(!clear_keyholder_rating(&mut db, "kh", PADDLE));
    set_keyholder_rating(&mut db, "kh", PADDLE, "hard", None, NOW).unwrap();
    assert!(clear_keyholder_rating(&mut db, "kh", PADDLE));
    assert!(list_ratings_for_keyholder(&db, "kh").is_empty());
}

#[test]
fn list_items_with_keyholder_ratings_pairs_correctly_and_leaves_unrated_as_none() {
    let mut db = seeded();

    set_keyholder_rating(&mut db, "kh", PADDLE, "hard", None, NOW).unwrap();
    let paired = list_items_with_ratings_for_keyholder(&db, "kh");
    let paddle = paired.iter().find(|(i, _)| i.id == PADDLE).unwrap();
    assert_eq!(paddle.1.as_ref().unwrap().rating, "hard");

    let cane = paired.iter().find(|(i, _)| i.id == CANE).unwrap();
    assert!(cane.1.is_none());
}

#[test]
fn keyholder_ratings_are_scoped_to_the_rating_keyholder_only() {
    let mut db = seeded();

    set_keyholder_rating(&mut db, "kh", PADDLE, "hard", None, NOW).unwrap();
    assert!(list_ratings_for_keyholder(&db, "other").is_empty());
}

#[test]
fn a_rating_leaves_every_other_rating_alone() {
    let mut db = seeded();
    set_rating(&mut db, "sub", PADDLE, "hard", Some("never"), NOW).unwrap();
    set_rating(&mut db, "sub", CANE, "okay", None, NOW + 1).unwrap();
    set_rating(&mut db, "other", PADDLE, "soft", None, NOW + 2).unwrap();
    let paddle = list_ratings_for_submissive(&db, "sub")
        .into_iter()
        .find(|r| r.limit_item_id == PADDLE)
        .unwrap();
    assert_eq!((paddle.rating.as_str(), paddle.updated_at), ("hard", NOW));
    assert_eq!(paddle.notes.as_deref(), Some("never"));
}

#[test]
fn an_inactive_item_stays_on_the_keyholders_list() {
    let mut db = seeded();
    let id = create_item(&mut db, house_rule("kh"), NOW);
    let off = ItemEdit { active: Some(false), ..Default::default() };
    assert!(update_item(&mut db, &id, "kh", off));
    assert!(list_items_for_keyholder(&db, "kh").iter().any(|i| i.id == id && !i.active));
    assert_eq!(get_item(&db, "gone"), None);
    // Items stand by category, then by label.
    let labels: Vec<String> =
        list_items_for_keyholder(&db, "kh").into_iter().map(|i| i.label).collect();
    assert_eq!(labels, vec!["House rule", "Cane", "Paddle"]);
}
