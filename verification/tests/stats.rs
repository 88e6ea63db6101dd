use owners_ledger::domain::chastity::confinement::{adjust_timer, Session};
use owners_ledger::domain::links;
use owners_ledger::domain::rewards_punishments::assignments::Assignment;
use owners_ledger::domain::stats::{
    compute, compute_with, locked_share, valid_period, window_seconds, Stats,
};
use owners_ledger::domain::verification::codes::Code;
use owners_ledger::error::DbError;
use owners_ledger::ledger::Ledger;

const NOW: i64 = 1_700_000_000;

fn with_link() -> (Ledger, String) {
    let mut db = Ledger::new();
    let link_id = links::create(&mut db, "kh", "sub", NOW).unwrap();
    (db, link_id)
}

fn percent(locked: i64, whole: i64) -> i64 {
    ((locked as f64 / whole as f64) * 100.0).round() as i64
}

fn computed(db: &Ledger, link_id: &str, period: &str) -> Stats {
    compute(db, link_id, "sub", period, percent, NOW).unwrap()
}

fn insert_session(db: &mut Ledger, started_at: i64, ended_at: Option<i64>) {
    let id = format!("session-{}", db.confinements.len());
    db.confinements.push(Session {
        id,
        submissive_id: "sub".into(),
        device_id: "device".into(),
        started_at,
        ended_at,
        target_release_at: None,
        clock_paused_at: None,
        clock_pause_message: None,
        started_reason: "voluntary".into(),
        ended_reason: None,
        ended_by_user_id: None,
        notes: None,
    });
}

fn insert_assignment(
    db: &mut Ledger,
    link_id: &str,
    kind: &str,
    status: &str,
    escalated_from: Option<&str>,
) -> String {
    let id = format!("assignment-{}", db.assignments.len());
    db.assignments.push(Assignment {
        id: id.clone(),
        link_id: link_id.into(),
        template_id: None,
        kind: kind.into(),
        title: "Title".into(),
        description: None,
        effect_kind: None,
        completion_type: None,
        proof_media_types: None,
        deadline_at: None,
        time_extension_seconds: None,
        time_reduction_seconds: None,
        proof_submission_id: None,
        on_success_template_id: None,
        on_failure_template_id: None,
        escalated_from_assignment_id: escalated_from.map(str::to_string),
        triggered_by_submission_id: None,
        triggered_by_play_session_id: None,
        spawned_by_recurring_task_rule_id: None,
        points_delta: None,
        assigned_at: NOW,
        assigned_by_user_id: None,
        assigned_via: "session".into(),
        status: status.into(),
        status_updated_at: NOW,
        notes: None,
    });
    id
}

fn insert_code(db: &mut Ledger, link_id: &str, code: &str, issued_at: i64, expires_at: i64) {
    db.codes.push(Code {
        id: code.into(),
        link_id: link_id.into(),
        code: code.into(),
        issued_at,
        expires_at,
        consumed_at: None,
        consumed_by_submission_id: None,
    });
}

#[test]
fn compute_counts_a_completed_session_within_the_period_only() {
    let (mut db, link_id) = with_link();

    let far_past = NOW - 200 * 86_400;
    insert_session(&mut db, far_past, Some(far_past + 3600));

    let recent_start = NOW - 3600;
    insert_session(&mut db, recent_start, Some(NOW - 1800));

    let stats = computed(&db, &link_id, "30d");
    assert_eq!(stats.session_lengths.shortest_seconds, 1800);
    assert_eq!(stats.session_lengths.longest_seconds, 1800);
    assert_eq!(stats.lifetime_locked_seconds, 3600 + 1800);

    let stats_all = computed(&db, &link_id, "all");
    assert_eq!(stats_all.personal_best_streak_seconds, 3600);
}

#[test]
fn compute_reports_an_open_session_as_the_current_streak() {
    let (mut db, link_id) = with_link();
    insert_session(&mut db, NOW - 500, None);

    let stats = computed(&db, &link_id, "all");
    assert!(stats.current_streak_seconds >= 500);
    assert_eq!(stats.session_lengths.shortest_seconds, 0);
}

#[test]
fn compute_counts_tasks_and_escalation() {
    let (mut db, link_id) = with_link();

    let failing_task = insert_assignment(&mut db, &link_id, "task", "failed", None);
    insert_assignment(&mut db, &link_id, "punishment", "applied", Some(&failing_task));

    let stats = computed(&db, &link_id, "all");
    assert_eq!(stats.tasks.assigned, 1);
    assert_eq!(stats.tasks.failed, 1);
    assert_eq!(stats.tasks.escalated, 1);
    assert_eq!(stats.punishments_given, 1);
}

#[test]
fn compute_counts_missed_and_verified_codes() {
    let (mut db, link_id) = with_link();
    insert_code(&mut db, &link_id, "000000", NOW - 3600, NOW - 3000);
    insert_code(&mut db, &link_id, "111111", NOW - 60, NOW + 600);

    let stats = computed(&db, &link_id, "30d");
    assert_eq!(stats.verification.missed, 1);
}

#[test]
fn periods_are_named() {
    assert_eq!(window_seconds("30d"), Some(30 * 86_400));
    assert_eq!(window_seconds("90d"), Some(90 * 86_400));
    assert_eq!(window_seconds("365d"), Some(365 * 86_400));
    assert_eq!(window_seconds("all"), None);
    for period in ["all", "30d", "90d", "365d"] {
        assert!(valid_period(period));
    }
    assert!(!valid_period("7d"));
    assert!(!valid_period(""));
}

#[test]
fn the_share_is_of_the_time_within_the_period() {
    let (mut db, link_id) = with_link();
    // From 40 to 20 days ago: ten of the last thirty days.
    insert_session(&mut db, NOW - 40 * 86_400, Some(NOW - 20 * 86_400));
    assert_eq!(
        locked_share(&db, &link_id, "sub", "30d", NOW),
        Ok((10 * 86_400, 30 * 86_400))
    );
    assert_eq!(computed(&db, &link_id, "30d").consistency_pct, 33);
    assert_eq!(computed(&db, &link_id, "90d").consistency_pct, 22);
    // A link that starts now has no time to share yet.
    assert_eq!(locked_share(&db, &link_id, "sub", "all", NOW), Ok((0, 1)));
    assert_eq!(compute_with(&db, &link_id, "sub", "30d", 7, NOW).unwrap().consistency_pct, 7);
}

#[test]
fn lengths_are_averaged_and_adjustments_summed() {
    let (mut db, link_id) = with_link();
    for length in [100, 200, 401] {
        insert_session(&mut db, NOW - 5000, Some(NOW - 5000 + length));
    }
    insert_session(&mut db, NOW - 50, None);
    adjust_timer(&mut db, "sub", 600, "kh", None, NOW).unwrap();
    adjust_timer(&mut db, "sub", -250, "kh", None, NOW).unwrap();
    let stats = computed(&db, &link_id, "30d");
    assert_eq!(stats.session_lengths.shortest_seconds, 100);
    assert_eq!(stats.session_lengths.longest_seconds, 401);
    assert_eq!(stats.session_lengths.average_seconds, 233);
    assert_eq!(stats.timer_adjustments.added_seconds, 600);
    assert_eq!(stats.timer_adjustments.removed_seconds, 250);
    assert_eq!(stats.current_streak_seconds, 50);
    assert_eq!(stats.period, "30d");
}

#[test]
fn a_link_that_is_not_there_has_no_stats() {
    let db = Ledger::new();
    assert_eq!(compute(&db, "gone", "sub", "30d", percent, NOW), Err(DbError::NoRows));
}

#[test]
fn task_counts_nest() {
    let (mut db, link_id) = with_link();
    let failed = insert_assignment(&mut db, &link_id, "task", "failed", None);
    insert_assignment(&mut db, &link_id, "task", "failed", None);
    insert_assignment(&mut db, &link_id, "task", "completed", None);
    insert_assignment(&mut db, &link_id, "task", "assigned", Some(&failed));
    insert_assignment(&mut db, &link_id, "reward", "revoked", None);
    insert_assignment(&mut db, &link_id, "reward", "applied", None);
    let stats = computed(&db, &link_id, "all");
    assert_eq!(stats.tasks.assigned, 4);
    assert_eq!(stats.tasks.completed, 1);
    assert_eq!(stats.tasks.failed, 2);
    assert_eq!(stats.tasks.escalated, 1);
    assert_eq!(stats.rewards_given, 1);
}
