use owners_ledger::domain::links;
use owners_ledger::domain::points::{
    award_if_enabled, balance, decide_redemption, get_request, list_requests_for_links,
    list_transactions, manual_adjustment, points_enabled, request_redemption, AdjustError,
    DecideRedemptionError, RequestRedemptionError,
};
use owners_ledger::domain::rewards_punishments::templates;
use owners_ledger::error::DbError;
use owners_ledger::ledger::Ledger;

const NOW: i64 = 1_700_000_000;

fn with_link(points: bool) -> (Ledger, String) {
    let mut db = Ledger::new();
    let link_id = links::create(&mut db, "kh", "sub", NOW).unwrap();
    db.links[0].points_enabled = points;
    (db, link_id)
}

fn seed_reward_template(db: &mut Ledger, points_cost: Option<i64>) -> String {
    let new = templates::NewTemplate {
        kind: "reward",
        title: "movie night",
        description: None,
        severity: None,
        effect_kind: Some("grant"),
        completion_type: None,
        proof_media_types: None,
        default_deadline_seconds: None,
        time_extension_seconds: None,
        time_reduction_seconds: None,
        on_success_template_id: None,
        on_failure_template_id: None,
        points_delta: None,
        points_cost,
    };
    templates::create(db, "kh", new, NOW).unwrap()
}

fn award(db: &mut Ledger, link_id: &str, delta: i64, reason: &str) {
    award_if_enabled(db, link_id, delta, reason, None, None, NOW).unwrap();
}

#[test]
fn award_if_enabled_is_a_no_op_when_points_are_off() {
    let (mut db, link_id) = with_link(false);

    award(&mut db, &link_id, 5, "task_completed");
    assert_eq!(balance(&db, &link_id).unwrap(), 0);
    assert_eq!(list_transactions(&db, &link_id).len(), 0);
}

#[test]
fn award_if_enabled_updates_balance_and_ledger_when_on() {
    let (mut db, link_id) = with_link(true);

    award_if_enabled(
        &mut db,
        &link_id,
        5,
        "task_completed",
        Some("assignments"),
        Some("a1"),
        NOW,
    )
    .unwrap();
    award(&mut db, &link_id, -2, "task_failed");

    assert_eq!(balance(&db, &link_id).unwrap(), 3);
    let txs = list_transactions(&db, &link_id);
    assert_eq!(txs.len(), 2);
    assert!(txs.iter().any(|t| t.reason == "task_completed" && t.delta == 5));
    assert!(txs.iter().any(|t| t.reason == "task_failed" && t.delta == -2));
}

#[test]
fn manual_adjustment_requires_points_enabled() {
    let (mut db, link_id) = with_link(false);

    assert!(matches!(
        manual_adjustment(&mut db, &link_id, 10, Some("bonus"), NOW),
        Err(AdjustError::NotEnabled)
    ));

    db.links[0].points_enabled = true;
    manual_adjustment(&mut db, &link_id, 10, Some("bonus"), NOW).unwrap();
    assert_eq!(balance(&db, &link_id).unwrap(), 10);
}

#[test]
fn request_redemption_rejects_insufficient_balance_and_disabled_points() {
    let (mut db, link_id) = with_link(false);
    let template_id = seed_reward_template(&mut db, Some(20));

    assert!(matches!(
        request_redemption(&mut db, &link_id, &template_id, NOW),
        Err(RequestRedemptionError::NotEnabled)
    ));

    db.links[0].points_enabled = true;
    assert!(matches!(
        request_redemption(&mut db, &link_id, &template_id, NOW),
        Err(RequestRedemptionError::InsufficientBalance)
    ));

    award(&mut db, &link_id, 25, "manual_adjustment");
    let request_id = request_redemption(&mut db, &link_id, &template_id, NOW).unwrap();
    assert!(get_request(&db, &request_id).is_some());
}

#[test]
fn approving_a_redemption_creates_an_assignment_and_deducts_points() {
    let (mut db, link_id) = with_link(true);
    award(&mut db, &link_id, 30, "manual_adjustment");
    let template_id = seed_reward_template(&mut db, Some(20));
    let request_id = request_redemption(&mut db, &link_id, &template_id, NOW).unwrap();

    let assignment = decide_redemption(&mut db, &request_id, "kh", true, NOW).unwrap().unwrap();
    assert_eq!(assignment.kind, "reward");

    assert_eq!(balance(&db, &link_id).unwrap(), 10);
    let request = get_request(&db, &request_id).unwrap();
    assert_eq!(request.status, "approved");
    assert_eq!(request.resulting_assignment_id.as_deref(), Some(assignment.id.as_str()));

    // It cannot be decided twice.
    assert!(matches!(
        decide_redemption(&mut db, &request_id, "kh", true, NOW),
        Err(DecideRedemptionError::AlreadyDecided)
    ));
}

#[test]
fn denying_a_redemption_leaves_the_balance_untouched() {
    let (mut db, link_id) = with_link(true);
    award(&mut db, &link_id, 30, "manual_adjustment");
    let template_id = seed_reward_template(&mut db, Some(20));
    let request_id = request_redemption(&mut db, &link_id, &template_id, NOW).unwrap();

    let assignment = decide_redemption(&mut db, &request_id, "kh", false, NOW).unwrap();
    assert!(assignment.is_none());
    assert_eq!(balance(&db, &link_id).unwrap(), 30);
    assert_eq!(get_request(&db, &request_id).unwrap().status, "denied");
}

#[test]
fn decide_redemption_is_scoped_to_the_owning_keyholder() {
    let (mut db, link_id) = with_link(true);
    award(&mut db, &link_id, 30, "manual_adjustment");
    let template_id = seed_reward_template(&mut db, Some(20));
    let request_id = request_redemption(&mut db, &link_id, &template_id, NOW).unwrap();

    assert!(matches!(
        decide_redemption(&mut db, &request_id, "someone-else", true, NOW),
        Err(DecideRedemptionError::NotFound)
    ));
}

#[test]
fn the_balance_is_the_sum_of_its_lines() {
    let (mut db, link_id) = with_link(true);
    for delta in [7, -3, 0, 12, -20] {
        manual_adjustment(&mut db, &link_id, delta, None, NOW).unwrap();
    }
    let total: i64 = list_transactions(&db, &link_id).iter().map(|t| t.delta).sum();
    assert_eq!(balance(&db, &link_id).unwrap(), total);
    assert_eq!(total, -4);
}

#[test]
fn a_balance_that_would_not_fit_is_refused() {
    let (mut db, link_id) = with_link(true);
    manual_adjustment(&mut db, &link_id, i64::MAX, None, NOW).unwrap();
    assert_eq!(
        manual_adjustment(&mut db, &link_id, 1, None, NOW),
        Err(AdjustError::Db(DbError::OutOfRange))
    );
    assert_eq!(list_transactions(&db, &link_id).len(), 1);
    assert_eq!(balance(&db, "no-such-link"), Err(DbError::NoRows));
    assert_eq!(points_enabled(&db, "no-such-link"), Err(DbError::NoRows));
    assert_eq!(points_enabled(&db, &link_id), Ok(true));
}

#[test]
fn only_a_priced_reward_can_be_redeemed() {
    let (mut db, link_id) = with_link(true);
    award(&mut db, &link_id, 100, "manual_adjustment");
    let free = seed_reward_template(&mut db, None);
    assert_eq!(
        request_redemption(&mut db, &link_id, &free, NOW),
        Err(RequestRedemptionError::NotRedeemable)
    );
    let priced = seed_reward_template(&mut db, Some(1));
    templates::deactivate(&mut db, &priced, "kh").unwrap();
    assert_eq!(
        request_redemption(&mut db, &link_id, &priced, NOW),
        Err(RequestRedemptionError::NotRedeemable)
    );
    assert_eq!(
        request_redemption(&mut db, &link_id, "gone", NOW),
        Err(RequestRedemptionError::NotRedeemable)
    );
}

#[test]
fn requests_are_listed_by_link() {
    let (mut db, link_id) = with_link(true);
    award(&mut db, &link_id, 100, "manual_adjustment");
    let template_id = seed_reward_template(&mut db, Some(10));
    let first = request_redemption(&mut db, &link_id, &template_id, NOW).unwrap();
    request_redemption(&mut db, &link_id, &template_id, NOW + 1).unwrap();
    decide_redemption(&mut db, &first, "kh", false, NOW).unwrap();

    let links = [link_id];
    assert_eq!(list_requests_for_links(&db, &links, false).len(), 2);
    assert_eq!(list_requests_for_links(&db, &links, true).len(), 1);
    assert!(list_requests_for_links(&db, &[], false).is_empty());
    assert_eq!(get_request(&db, &first).unwrap().points_cost, 10);
}
