use owners_ledger::domain::links;
use owners_ledger::domain::verification::codes::{
    allows_on_demand, code_from_entropy, consume, current_unconsumed, generate_code_string,
    history_for_link, is_due, issue, load_for_redemption, pick_from_window,
    random_window_target_seconds, request_on_demand, run_due_issuance_tick, RequestError,
    CODE_LENGTH,
};
use owners_ledger::domain::verification::policy::{get_for_link, set_for_link, Policy, SetPolicy};
use owners_ledger::error::DbError;
use owners_ledger::ledger::Ledger;
use sha2::Digest;

const NOW: i64 = 1_700_000_000;

fn policy(kind: &str, value: &str) -> Policy {
    Policy {
        link_id: "l1".into(),
        frequency_kind: kind.into(),
        frequency_value: value.into(),
        code_ttl_seconds: 900,
        grace_period_seconds: 600,
        updated_at: 0,
    }
}

fn seed_link(db: &mut Ledger) -> String {
    links::create(db, "kh", "sub", NOW).unwrap()
}

fn set(db: &mut Ledger, link_id: &str, kind: &str, value: &str) {
    set_for_link(
        db,
        link_id,
        SetPolicy {
            frequency_kind: kind,
            frequency_value: value,
            code_ttl_seconds: 900,
            grace_period_seconds: 600,
        },
        NOW,
    );
}

#[test]
fn generated_codes_avoid_ambiguous_characters() {
    for _ in 0..50 {
        let code = generate_code_string();
        assert_eq!(code.len(), CODE_LENGTH);
        assert!(code.chars().all(|c| !"0O1I".contains(c)));
    }
}

#[test]
fn interval_hours_is_due_after_the_interval_elapses() {
    let policy = policy("interval_hours", r#"{"hours":24}"#);
    assert!(is_due(&policy, None, 1_000_000));
    assert!(!is_due(&policy, Some(1_000_000), 1_000_000 + 3600));
    assert!(is_due(&policy, Some(1_000_000), 1_000_000 + 24 * 3600));
}

#[test]
fn on_demand_only_is_never_due() {
    let policy = policy("on_demand_only", "{}");
    assert!(!is_due(&policy, None, 1_000_000));
}

#[test]
fn fixed_times_daily_is_due_once_per_slot_per_day() {
    let policy = policy("fixed_times_daily", r#"{"times":["09:00","21:00"]}"#);
    let nine_am_utc_day5 = 5 * 86_400 + 9 * 3600;
    assert!(is_due(&policy, None, nine_am_utc_day5));
    // One last-issued time is kept per link, so a code of this morning rules out any other that
    // day.
    assert!(!is_due(&policy, Some(nine_am_utc_day5), nine_am_utc_day5 + 30));
}

#[test]
fn random_within_window_target_is_stable_across_calls() {
    let a = random_window_target_seconds("link-1", "5", 8 * 3600, 22 * 3600);
    let b = random_window_target_seconds("link-1", "5", 8 * 3600, 22 * 3600);
    assert_eq!(a, b);
    assert!((8 * 3600..22 * 3600).contains(&a));
}

#[test]
fn random_within_window_differs_by_link() {
    let a = random_window_target_seconds("link-1", "5", 8 * 3600, 22 * 3600);
    let b = random_window_target_seconds("link-2", "5", 8 * 3600, 22 * 3600);
    assert_ne!(a, b);
}

#[test]
fn on_demand_request_rejects_a_second_before_the_first_is_consumed() {
    let mut db = Ledger::new();
    let link_id = seed_link(&mut db);
    let policy = get_for_link(&db, &link_id).unwrap();

    request_on_demand(&mut db, &policy, NOW).unwrap();
    let second = request_on_demand(&mut db, &policy, NOW);
    assert!(matches!(second, Err(RequestError::AlreadyHaveOne)));
}

#[test]
fn on_demand_request_is_blocked_when_policy_disallows_it() {
    let mut db = Ledger::new();
    let link_id = seed_link(&mut db);
    set(&mut db, &link_id, "interval_hours", r#"{"hours":24}"#);
    let policy = get_for_link(&db, &link_id).unwrap();

    let result = request_on_demand(&mut db, &policy, NOW);
    assert!(matches!(result, Err(RequestError::NotAllowed)));
}

#[test]
fn run_due_issuance_tick_issues_for_a_due_interval_policy() {
    let mut db = Ledger::new();
    let link_id = seed_link(&mut db);
    set(&mut db, &link_id, "interval_hours", r#"{"hours":1}"#);

    let issued = run_due_issuance_tick(&mut db, NOW).unwrap();
    assert_eq!(issued, 1);
    assert!(current_unconsumed(&db, &link_id, NOW).is_some());

    // A second tick does not double-issue while a live code exists.
    let issued_again = run_due_issuance_tick(&mut db, NOW).unwrap();
    assert_eq!(issued_again, 0);
}

#[test]
fn run_due_issuance_tick_skips_on_demand_only_links() {
    let mut db = Ledger::new();
    let link_id = seed_link(&mut db);

    let issued = run_due_issuance_tick(&mut db, NOW).unwrap();
    assert_eq!(issued, 0);
    assert!(current_unconsumed(&db, &link_id, NOW).is_none());
}

#[test]
fn run_due_issuance_tick_skips_an_oversight_paused_link() {
    let mut db = Ledger::new();
    let link_id = seed_link(&mut db);
    set(&mut db, &link_id, "interval_hours", r#"{"hours":1}"#);
    db.links[0].oversight_paused_at = Some(NOW);

    let issued = run_due_issuance_tick(&mut db, NOW).unwrap();
    assert_eq!(issued, 0);
    assert!(current_unconsumed(&db, &link_id, NOW).is_none());
}

#[test]
fn consume_marks_code_and_blocks_reredemption() {
    let mut db = Ledger::new();
    let link_id = seed_link(&mut db);
    let code = issue(&mut db, &link_id, 900, NOW).unwrap();

    consume(&mut db, &code.id, "submission-1", NOW);

    let reloaded = load_for_redemption(&db, &code.id, &link_id, 0, NOW);
    assert!(reloaded.is_none());
}

#[test]
fn codes_spell_out_their_entropy() {
    assert_eq!(code_from_entropy(b"00010203040506"), "2345678");
    assert_eq!(code_from_entropy(b"ffffffffffffffffff"), "EEEEEEE");
    // A lone last byte stands for itself, and too few bytes make too short a code.
    assert_eq!(code_from_entropy(&[0, 0, 31]), "2Z");
}

#[test]
fn a_code_can_be_redeemed_within_its_grace_period_on_its_own_link() {
    let mut db = Ledger::new();
    let link_id = seed_link(&mut db);
    let code = issue(&mut db, &link_id, 900, NOW).unwrap();
    assert_eq!(code.expires_at, NOW + 900);

    assert!(load_for_redemption(&db, &code.id, &link_id, 600, NOW + 1499).is_some());
    assert!(load_for_redemption(&db, &code.id, &link_id, 600, NOW + 1500).is_none());
    assert!(load_for_redemption(&db, &code.id, "another-link", 600, NOW).is_none());
    assert!(current_unconsumed(&db, &link_id, NOW + 899).is_some());
    assert!(current_unconsumed(&db, &link_id, NOW + 900).is_none());
}

#[test]
fn a_code_that_would_outlive_time_is_refused() {
    let mut db = Ledger::new();
    assert_eq!(issue(&mut db, "link", 1, i64::MAX), Err(DbError::OutOfRange));
    assert!(db.codes.is_empty());
    let mut policy = policy("on_demand_only", "{}");
    policy.code_ttl_seconds = i64::MAX;
    assert_eq!(
        request_on_demand(&mut db, &policy, NOW),
        Err(RequestError::Db(DbError::OutOfRange))
    );
}

#[test]
fn on_demand_can_be_allowed_beside_a_schedule() {
    assert!(allows_on_demand(&policy("on_demand_only", "{}")));
    assert!(allows_on_demand(&policy("interval_hours", r#"{"hours":6,"allow_on_demand":true}"#)));
    assert!(!allows_on_demand(&policy("interval_hours", r#"{"hours":6,"allow_on_demand":false}"#)));
    assert!(!allows_on_demand(&policy("interval_hours", "not json")));
}

#[test]
fn an_interval_that_is_not_given_is_a_day() {
    for value in ["{}", "not json", r#"{"hours":"6"}"#] {
        let policy = policy("interval_hours", value);
        assert!(is_due(&policy, None, NOW));
        assert!(!is_due(&policy, Some(NOW), NOW + 24 * 3600 - 1));
        assert!(is_due(&policy, Some(NOW), NOW + 24 * 3600));
    }
}

#[test]
fn a_schedule_that_cannot_be_read_is_never_due() {
    let nine = 5 * 86_400 + 9 * 3600;
    assert!(is_due(&policy("fixed_times_daily", r#"{"times":["9:0"]}"#), None, nine));
    for value in [r#"{"times":"09:00"}"#, r#"{"times":["09:00","noon"]}"#, r#"["09:00"]"#, "{"] {
        assert!(!is_due(&policy("fixed_times_daily", value), None, nine));
    }
    assert!(!is_due(&policy("random_within_window", r#"{"start":"09:00"}"#), None, nine));
    assert!(!is_due(&policy("no_such_kind", "{}"), None, nine));
}

#[test]
fn a_slot_is_due_for_a_minute() {
    let policy = policy("fixed_times_daily", r#"{"times":["09:00"]}"#);
    let nine = 5 * 86_400 + 9 * 3600;
    assert!(!is_due(&policy, None, nine - 1));
    assert!(is_due(&policy, None, nine + 59));
    assert!(!is_due(&policy, None, nine + 60));
    assert!(is_due(&policy, Some(nine - 86_400), nine));
}

#[test]
fn the_picked_time_comes_from_the_digest() {
    assert_eq!(pick_from_window(&[0, 0, 0, 0, 0, 0, 0, 7], 100, 200), 107);
    assert_eq!(pick_from_window(&[0, 0, 0, 0, 0, 0, 1, 0], 100, 200), 156);

    let digest = sha2::Sha256::digest(b"link-1:5");
    let expected = pick_from_window(&digest, 8 * 3600, 22 * 3600);
    assert_eq!(random_window_target_seconds("link-1", "5", 8 * 3600, 22 * 3600), expected);
    assert_eq!(random_window_target_seconds("link-1", "5", 500, 500), 500);
}

#[test]
fn a_random_window_is_due_once_a_day_at_its_picked_time() {
    let policy = policy("random_within_window", r#"{"start":"08:00","end":"22:00"}"#);
    let day = 19_000 * 86_400;
    let target = day + random_window_target_seconds("l1", "19000", 8 * 3600, 22 * 3600);
    assert!(is_due(&policy, None, target));
    assert!(!is_due(&policy, None, target - 1));
    assert!(!is_due(&policy, None, target + 60));
    assert!(!is_due(&policy, Some(target), target + 10));
    assert!(is_due(&policy, Some(target - 86_400), target));
}

#[test]
fn history_lists_the_codes_of_a_link_newest_first() {
    let mut db = Ledger::new();
    let first = issue(&mut db, "link", 900, NOW).unwrap();
    issue(&mut db, "other", 900, NOW).unwrap();
    let second = issue(&mut db, "link", 900, NOW + 10).unwrap();
    consume(&mut db, &first.id, "submission", NOW + 5);

    let history = history_for_link(&db, "link");
    assert_eq!(history.len(), 2);
    assert_eq!(history[0].id, second.id);
    assert_eq!(history[0].consumed_at, None);
    assert_eq!(history[1].code, first.code);
    assert_eq!(history[1].consumed_at, Some(NOW + 5));
}
