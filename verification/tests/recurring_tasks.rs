use owners_ledger::domain::links;
use owners_ledger::domain::recurring_tasks::{
    create, get, list_for_link, next_occurrence, run_recurring_task_sweep_tick,
    seconds_since_midnight, update, weekday_index, NewRule, RuleEdit, RuleError,
};
use owners_ledger::domain::rewards_punishments::templates;
use owners_ledger::ledger::Ledger;

const NOW: i64 = 1_700_000_000;

fn with_link() -> (Ledger, String) {
    let mut db = Ledger::new();
    let link_id = links::create(&mut db, "kh", "sub", NOW).unwrap();
    (db, link_id)
}

fn seed_template(
    db: &mut Ledger,
    kind: &str,
    title: &str,
    effect_kind: Option<&str>,
    completion_type: Option<&str>,
) -> String {
    let new = templates::NewTemplate {
        kind,
        title,
        description: None,
        severity: None,
        effect_kind,
        completion_type,
        proof_media_types: None,
        default_deadline_seconds: Some(3600),
        time_extension_seconds: None,
        time_reduction_seconds: None,
        on_success_template_id: None,
        on_failure_template_id: None,
        points_delta: None,
        points_cost: None,
    };
    templates::create(db, "kh", new, NOW).unwrap()
}

fn seed_task_template(db: &mut Ledger) -> String {
    seed_template(db, "task", "Morning photo", None, Some("acknowledge_only"))
}

fn rule<'a>(link_id: &'a str, template_id: &'a str, kind: &'a str, value: &'a str) -> NewRule<'a> {
    NewRule {
        link_id,
        keyholder_id: "kh",
        template_id,
        recurrence_kind: kind,
        recurrence_value: value,
        allow_overlap: false,
    }
}

fn every_six_hours<'a>(link_id: &'a str, template_id: &'a str) -> NewRule<'a> {
    rule(link_id, template_id, "interval_hours", r#"{"hours":6}"#)
}

#[test]
fn next_occurrence_interval_hours_adds_the_interval() {
    assert_eq!(
        next_occurrence("interval_hours", r#"{"hours":6}"#, 1000),
        Some(1000 + 6 * 3600)
    );
    assert_eq!(next_occurrence("interval_hours", r#"{"hours":0}"#, 1000), None);
}

#[test]
fn next_occurrence_daily_rolls_to_tomorrow_if_todays_time_passed() {
    // Ten seconds past midnight.
    let from = 10;
    // Midnight has passed today, so tomorrow.
    assert_eq!(next_occurrence("daily", r#"{"time":"00:00"}"#, from + 5), Some(86_400));
    // Still ahead today.
    assert_eq!(next_occurrence("daily", r#"{"time":"00:05"}"#, from), Some(300));
}

#[test]
fn next_occurrence_weekly_days_finds_the_next_matching_weekday() {
    // 1970-01-01 was a Thursday.
    let thursday_midnight = 0i64;
    let next = next_occurrence(
        "weekly_days",
        r#"{"days":["mon"],"time":"00:00"}"#,
        thursday_midnight,
    )
    .unwrap();
    assert_eq!(next, 4 * 86_400);

    // Thursday itself, right at midnight, is today.
    let next_today = next_occurrence(
        "weekly_days",
        r#"{"days":["thu"],"time":"00:00"}"#,
        thursday_midnight,
    )
    .unwrap();
    assert_eq!(next_today, 0);
}

#[test]
fn create_rejects_a_non_task_template_and_someone_elses_template() {
    let (mut db, link) = with_link();
    let reward_template_id = seed_template(&mut db, "reward", "Nice job", Some("grant"), None);
    let daily = r#"{"time":"09:00"}"#;

    assert!(matches!(
        create(&mut db, rule(&link, &reward_template_id, "daily", daily), NOW),
        Err(RuleError::NotATaskTemplate)
    ));

    let task_template_id = seed_task_template(&mut db);
    let theirs =
        NewRule { keyholder_id: "other", ..rule(&link, &task_template_id, "daily", daily) };
    assert!(matches!(create(&mut db, theirs, NOW), Err(RuleError::TemplateNotFound)));
}

#[test]
fn sweep_spawns_a_due_rule_and_advances_next_due_at() {
    let (mut db, link) = with_link();
    let template_id = seed_task_template(&mut db);
    let rule_id = create(&mut db, every_six_hours(&link, &template_id), NOW).unwrap();
    db.recurring_rules[0].next_due_at = NOW - 10;

    let spawned = run_recurring_task_sweep_tick(&mut db, NOW);
    assert_eq!(spawned.len(), 1);
    assert_eq!(
        spawned[0].assignment.spawned_by_recurring_task_rule_id.as_deref(),
        Some(rule_id.as_str())
    );
    assert_eq!(spawned[0].assignment.assigned_via, "system");

    let rule = get(&db, &rule_id).unwrap();
    assert!(rule.next_due_at > NOW);

    // A second sweep right away finds nothing due.
    assert!(run_recurring_task_sweep_tick(&mut db, NOW).is_empty());
}

#[test]
fn sweep_skips_and_leaves_next_due_at_unchanged_while_the_previous_spawn_is_still_open() {
    let (mut db, link) = with_link();
    let template_id = seed_task_template(&mut db);
    let rule_id = create(&mut db, every_six_hours(&link, &template_id), NOW).unwrap();
    db.recurring_rules[0].next_due_at = NOW - 10;

    let first = run_recurring_task_sweep_tick(&mut db, NOW);
    assert_eq!(first.len(), 1);
    let next_due_after_first = get(&db, &rule_id).unwrap().next_due_at;

    // It is due again while its first task is still open.
    db.recurring_rules[0].next_due_at = NOW - 10;
    let second = run_recurring_task_sweep_tick(&mut db, NOW);
    assert!(second.is_empty());
    assert_eq!(get(&db, &rule_id).unwrap().next_due_at, NOW - 10);
    assert_ne!(next_due_after_first, NOW - 10);
}

#[test]
fn sweep_respects_allow_overlap() {
    let (mut db, link) = with_link();
    let template_id = seed_task_template(&mut db);
    let overlapping = NewRule {
        allow_overlap: true,
        ..rule(&link, &template_id, "interval_hours", r#"{"hours":1}"#)
    };
    create(&mut db, overlapping, NOW).unwrap();
    db.recurring_rules[0].next_due_at = NOW - 10;
    assert_eq!(run_recurring_task_sweep_tick(&mut db, NOW).len(), 1);

    db.recurring_rules[0].next_due_at = NOW - 10;
    assert_eq!(run_recurring_task_sweep_tick(&mut db, NOW).len(), 1);
}

#[test]
fn update_recomputes_next_due_at_only_when_the_schedule_changes() {
    let (mut db, link) = with_link();
    let template_id = seed_task_template(&mut db);
    let rule_id = create(&mut db, every_six_hours(&link, &template_id), NOW).unwrap();
    let original_next_due_at = get(&db, &rule_id).unwrap().next_due_at;

    // Switching it off does not touch the schedule.
    let off = RuleEdit { active: Some(false), ..Default::default() };
    assert!(update(&mut db, &rule_id, &link, off, NOW).unwrap());
    assert_eq!(get(&db, &rule_id).unwrap().next_due_at, original_next_due_at);

    // A new schedule counts from now.
    let hourly = RuleEdit { recurrence_value: Some(r#"{"hours":1}"#), ..Default::default() };
    update(&mut db, &rule_id, &link, hourly, NOW).unwrap();
    let updated = get(&db, &rule_id).unwrap();
    assert!(updated.next_due_at < original_next_due_at);

    // Only on its own link.
    let nothing = RuleEdit::default();
    assert!(!update(&mut db, &rule_id, "someone-elses-link", nothing, NOW).unwrap());
}

#[test]
fn a_schedule_that_cannot_be_read_is_refused() {
    let (mut db, link) = with_link();
    let template_id = seed_task_template(&mut db);
    for (kind, value) in [
        ("daily", "{}"),
        ("daily", r#"{"time":"noon"}"#),
        ("weekly_days", r#"{"time":"09:00"}"#),
        ("weekly_days", r#"{"time":"09:00","days":["someday"]}"#),
        ("interval_hours", r#"{"hours":-1}"#),
        ("interval_hours", "not json"),
        ("monthly", r#"{"time":"09:00"}"#),
    ] {
        assert_eq!(
            create(&mut db, rule(&link, &template_id, kind, value), NOW),
            Err(RuleError::InvalidRecurrence)
        );
    }
    let rule_id = create(&mut db, every_six_hours(&link, &template_id), NOW).unwrap();
    let broken = RuleEdit { recurrence_kind: Some("daily"), ..Default::default() };
    assert_eq!(
        update(&mut db, &rule_id, &link, broken, NOW),
        Err(RuleError::InvalidRecurrence)
    );
    assert_eq!(list_for_link(&db, &link).len(), 1);
}

#[test]
fn a_weekly_schedule_takes_the_first_of_its_days() {
    // Friday 1970-01-02, ten in the morning.
    let friday = 86_400 + 10 * 3600;
    let value = r#"{"days":["wed","sun","fri"],"time":"09:00"}"#;
    assert_eq!(next_occurrence("weekly_days", value, friday), Some(3 * 86_400 + 9 * 3600));
    let only_friday = r#"{"days":["fri"],"time":"09:00"}"#;
    assert_eq!(next_occurrence("weekly_days", only_friday, friday), Some(8 * 86_400 + 9 * 3600));
}

#[test]
fn days_and_times_are_read() {
    let days = ["mon", "tue", "wed", "thu", "fri", "sat", "sun"];
    for (i, day) in days.iter().enumerate() {
        assert_eq!(weekday_index(day), Some(i as u32));
    }
    assert_eq!(weekday_index("Mon"), None);
    assert_eq!(seconds_since_midnight("09:30"), Some(9 * 3600 + 30 * 60));
    assert_eq!(seconds_since_midnight("0930"), None);
    assert_eq!(seconds_since_midnight("+9:05"), Some(9 * 3600 + 5 * 60));
    assert_eq!(seconds_since_midnight("9:"), None);
}

#[test]
fn a_rule_that_is_off_spawns_nothing() {
    let (mut db, link) = with_link();
    let template_id = seed_task_template(&mut db);
    create(&mut db, every_six_hours(&link, &template_id), NOW).unwrap();
    db.recurring_rules[0].next_due_at = NOW - 10;
    db.recurring_rules[0].active = false;
    assert!(run_recurring_task_sweep_tick(&mut db, NOW).is_empty());
    db.recurring_rules[0].active = true;
    db.recurring_rules[0].next_due_at = NOW;
    assert_eq!(run_recurring_task_sweep_tick(&mut db, NOW).len(), 1);
}

#[test]
fn a_second_tick_at_the_same_time_spawns_nothing_more() {
    let (mut db, link) = with_link();
    let template_id = seed_task_template(&mut db);
    let overlapping = NewRule { allow_overlap: true, ..every_six_hours(&link, &template_id) };
    let first = create(&mut db, overlapping, NOW).unwrap();
    let second = create(&mut db, every_six_hours(&link, &template_id), NOW).unwrap();
    let later = create(
        &mut db,
        rule(&link, &template_id, "interval_hours", r#"{"hours":7}"#),
        NOW,
    )
    .unwrap();

    let at = NOW + 6 * 3600;
    let mut spawned: Vec<String> = run_recurring_task_sweep_tick(&mut db, at)
        .into_iter()
        .map(|t| t.assignment.spawned_by_recurring_task_rule_id.unwrap())
        .collect();
    spawned.sort();
    let mut expected = vec![first.clone(), second.clone()];
    expected.sort();
    assert_eq!(spawned, expected);
    assert_eq!(get(&db, &first).unwrap().next_due_at, at + 1 + 6 * 3600);
    assert_eq!(get(&db, &second).unwrap().next_due_at, at + 1 + 6 * 3600);
    assert_eq!(get(&db, &later).unwrap().next_due_at, NOW + 7 * 3600);

    assert!(run_recurring_task_sweep_tick(&mut db, at).is_empty());
    assert_eq!(db.assignments.len(), 2);
}

#[test]
fn a_weekly_schedule_looks_a_week_and_a_day_ahead() {
    let from = -8_334_601_315_200;
    assert_eq!(
        next_occurrence("weekly_days", r#"{"days":["wed"],"time":"00:00"}"#, from),
        Some(from + 7 * 86_400)
    );
}
