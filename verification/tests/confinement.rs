use owners_ledger::domain::chastity::confinement::{
    adjust_timer, apply_effect, current, end, history, list_adjustments,
    list_adjustments_for_submissive, list_unreviewed_adjustments_for_links, pause, resume,
    review_adjustment, run_still_paused_sweep_tick, start, status_for, update_pause_message,
    AdjustmentRow, ApplyEffect, ApplyEffectOutcome, NoOpenSessionError, NotPausedError,
    PauseError, ReviewAdjustmentError, StartError, StartSession,
};
use owners_ledger::domain::links;
use owners_ledger::domain::notifications::{self, NewNotification};
use owners_ledger::error::DbError;
use owners_ledger::ledger::Ledger;

const NOW: i64 = 1_700_000_000;

fn lock(db: &mut Ledger, target_release_at: Option<i64>) -> Result<String, StartError> {
    let new = StartSession {
        submissive_id: "sub",
        device_id: "device",
        started_reason: "voluntary",
        target_release_at,
        notes: None,
    };
    start(db, new, NOW)
}

fn extension<'a>() -> ApplyEffect<'a> {
    ApplyEffect {
        submissive_id: "sub",
        delta_seconds: 21_600,
        reason: "punishment_time_extension",
        caused_by_assignment_id: "assignment-1",
        adjusted_by_user_id: None,
        already_reviewed: false,
    }
}

#[test]
fn starting_a_second_session_is_rejected() {
    let mut db = Ledger::new();
    lock(&mut db, None).unwrap();

    let second = lock(&mut db, None);
    assert!(matches!(second, Err(StartError::AlreadyOpen)));
}

#[test]
fn status_reflects_locked_and_overdue() {
    let mut db = Ledger::new();

    let status = status_for(&db, "sub", NOW).unwrap();
    assert!(!status.locked);

    lock(&mut db, Some(NOW - 10)).unwrap();

    let status = status_for(&db, "sub", NOW).unwrap();
    assert!(status.locked);
    assert!(status.overdue);
    assert!(!status.clock_paused);
}

#[test]
fn end_requires_an_open_session() {
    let mut db = Ledger::new();
    let result = end(&mut db, "sub", "scheduled_release", "sub", None, NOW);
    assert!(matches!(result, Err(NoOpenSessionError::NotOpen)));
}

#[test]
fn end_then_start_again_is_allowed() {
    let mut db = Ledger::new();
    lock(&mut db, None).unwrap();
    end(&mut db, "sub", "scheduled_release", "sub", None, NOW).unwrap();
    assert!(current(&db, "sub").is_none());

    lock(&mut db, None).unwrap();
    assert!(current(&db, "sub").is_some());
}

#[test]
fn pause_then_resume_extends_target_and_logs_adjustment() {
    let mut db = Ledger::new();
    let original_target = NOW + 1000;
    lock(&mut db, Some(original_target)).unwrap();

    pause(&mut db, "sub", Some("traveling"), NOW - 500).unwrap();
    assert!(status_for(&db, "sub", NOW).unwrap().clock_paused);

    resume(&mut db, "sub", "kh", NOW).unwrap();

    let status = status_for(&db, "sub", NOW).unwrap();
    assert!(!status.clock_paused);
    let new_target = status.session.unwrap().target_release_at.unwrap();
    assert!(new_target > original_target);
    assert_eq!(new_target, original_target + 500);

    let session_id = current(&db, "sub").unwrap().id;
    let adjustments = list_adjustments(&db, &session_id);
    assert_eq!(adjustments.len(), 1);
    assert_eq!(adjustments[0].reason, "clock_pause");
    assert_eq!(adjustments[0].notes.as_deref(), Some("traveling"));
    assert!(adjustments[0].keyholder_reviewed_at.is_some());
}

#[test]
fn resuming_when_not_paused_fails() {
    let mut db = Ledger::new();
    lock(&mut db, None).unwrap();

    let result = resume(&mut db, "sub", "someone", NOW);
    assert!(matches!(result, Err(NotPausedError::NotPaused)));
}

#[test]
fn adjust_timer_applies_delta_and_marks_reviewed() {
    let mut db = Ledger::new();
    lock(&mut db, Some(1000)).unwrap();

    adjust_timer(&mut db, "sub", 500, "kh", Some("being lenient"), NOW).unwrap();

    let session = current(&db, "sub").unwrap();
    assert_eq!(session.target_release_at, Some(1500));
}

#[test]
fn adjust_timer_from_no_target_establishes_one_relative_to_now() {
    let mut db = Ledger::new();
    lock(&mut db, None).unwrap();

    adjust_timer(&mut db, "sub", 3600, "sub", None, NOW).unwrap();
    let session = current(&db, "sub").unwrap();
    assert!(session.target_release_at.unwrap() >= NOW + 3600);
}

#[test]
fn review_adjustment_rejects_manual_rows() {
    let mut db = Ledger::new();
    lock(&mut db, Some(1000)).unwrap();
    let adjustment_id = adjust_timer(&mut db, "sub", 100, "sub", None, NOW).unwrap();

    let result = review_adjustment(&mut db, &adjustment_id, NOW);
    assert!(matches!(result, Err(ReviewAdjustmentError::NotReviewable)));
}

#[test]
fn apply_effect_extends_target_and_leaves_unreviewed_when_escalated() {
    let mut db = Ledger::new();
    lock(&mut db, Some(1000)).unwrap();

    let outcome = apply_effect(&mut db, extension(), NOW).unwrap();
    assert!(matches!(outcome, ApplyEffectOutcome::Applied));

    let session = current(&db, "sub").unwrap();
    assert_eq!(session.target_release_at, Some(21_600 + 1000));

    let adjustments = list_adjustments(&db, &session.id);
    assert_eq!(adjustments.len(), 1);
    assert_eq!(adjustments[0].reason, "punishment_time_extension");
    assert!(adjustments[0].keyholder_reviewed_at.is_none());
}

#[test]
fn list_unreviewed_adjustments_for_links_only_surfaces_reviewable_ones_for_the_right_link() {
    let mut db = Ledger::new();
    let link_id = links::create(&mut db, "kh", "sub", NOW).unwrap();
    lock(&mut db, Some(1000)).unwrap();

    // One that was applied by itself and can be reviewed.
    apply_effect(&mut db, extension(), NOW).unwrap();
    // One that was not reviewed either, but whose reason is not up for review.
    let session_id = current(&db, "sub").unwrap().id;
    db.adjustments.push(AdjustmentRow {
        id: "by-hand".into(),
        session_id: session_id.clone(),
        delta_seconds: 100,
        reason: "manual".into(),
        caused_by_assignment_id: None,
        adjusted_by_user_id: None,
        adjusted_at: NOW,
        notes: None,
        keyholder_reviewed_at: None,
    });

    let for_this_link = list_unreviewed_adjustments_for_links(&db, std::slice::from_ref(&link_id));
    assert_eq!(for_this_link.len(), 1);
    assert_eq!(for_this_link[0].submissive_id, "sub");
    assert_eq!(for_this_link[0].delta_seconds, 21_600);

    let for_other_link =
        list_unreviewed_adjustments_for_links(&db, &["nonexistent-link".to_string()]);
    assert!(for_other_link.is_empty());

    // Reviewing it clears it from the list.
    let adjustment_id = list_adjustments(&db, &session_id)
        .into_iter()
        .find(|a| a.reason == "punishment_time_extension")
        .unwrap()
        .id;
    review_adjustment(&mut db, &adjustment_id, NOW).unwrap();
    let after = list_unreviewed_adjustments_for_links(&db, &[link_id]);
    assert!(after.is_empty());
}

#[test]
fn apply_effect_with_no_open_session_reports_that_and_touches_nothing() {
    let mut db = Ledger::new();

    let outcome = apply_effect(
        &mut db,
        ApplyEffect {
            submissive_id: "sub",
            delta_seconds: -3600,
            reason: "reward_time_reduction",
            caused_by_assignment_id: "assignment-2",
            adjusted_by_user_id: Some("sub"),
            already_reviewed: true,
        },
        NOW,
    )
    .unwrap();
    assert!(matches!(outcome, ApplyEffectOutcome::NoOpenSession));
    assert_eq!(db, Ledger::new());
}

#[test]
fn apply_effect_direct_assignment_is_already_reviewed() {
    let mut db = Ledger::new();
    lock(&mut db, Some(10_000)).unwrap();

    apply_effect(
        &mut db,
        ApplyEffect {
            submissive_id: "sub",
            delta_seconds: -1800,
            reason: "reward_time_reduction",
            caused_by_assignment_id: "assignment-3",
            adjusted_by_user_id: Some("kh"),
            already_reviewed: true,
        },
        NOW,
    )
    .unwrap();

    let session = current(&db, "sub").unwrap();
    assert_eq!(session.target_release_at, Some(10_000 - 1800));
    let adjustments = list_adjustments(&db, &session.id);
    assert!(adjustments[0].keyholder_reviewed_at.is_some());
}

#[test]
fn list_adjustments_for_submissive_spans_every_past_session_not_just_the_open_one() {
    let mut db = Ledger::new();
    lock(&mut db, None).unwrap();
    adjust_timer(&mut db, "sub", 3600, "sub", None, NOW).unwrap();
    end(&mut db, "sub", "scheduled_release", "sub", None, NOW).unwrap();

    lock(&mut db, None).unwrap();
    adjust_timer(&mut db, "sub", -1800, "sub", None, NOW).unwrap();

    let all = list_adjustments_for_submissive(&db, "sub");
    let deltas: Vec<i64> = all.iter().map(|a| a.delta_seconds).collect();
    assert_eq!(deltas.len(), 2);
    assert!(deltas.contains(&3600));
    assert!(deltas.contains(&-1800));
}

#[test]
fn a_pause_costs_no_time() {
    let mut db = Ledger::new();
    lock(&mut db, Some(NOW + 1000)).unwrap();
    let before = status_for(&db, "sub", NOW + 100).unwrap().time_remaining_seconds;
    assert_eq!(before, Some(900));

    pause(&mut db, "sub", None, NOW + 100).unwrap();
    resume(&mut db, "sub", "kh", NOW + 700).unwrap();

    let after = status_for(&db, "sub", NOW + 700).unwrap().time_remaining_seconds;
    assert_eq!(after, before);
}

#[test]
fn pausing_twice_is_refused_and_the_message_can_be_changed() {
    let mut db = Ledger::new();
    assert_eq!(pause(&mut db, "sub", None, NOW), Err(PauseError::NotOpenOrAlreadyPaused));
    assert_eq!(
        update_pause_message(&mut db, "sub", Some("x")),
        Err(NotPausedError::NotPaused)
    );
    lock(&mut db, None).unwrap();
    pause(&mut db, "sub", Some("first"), NOW).unwrap();
    assert_eq!(pause(&mut db, "sub", None, NOW), Err(PauseError::NotOpenOrAlreadyPaused));

    update_pause_message(&mut db, "sub", Some("second")).unwrap();
    assert_eq!(current(&db, "sub").unwrap().clock_pause_message.as_deref(), Some("second"));
    assert_eq!(current(&db, "sub").unwrap().clock_paused_at, Some(NOW));
}

#[test]
fn a_timer_that_would_leave_time_is_refused() {
    let mut db = Ledger::new();
    assert_eq!(
        adjust_timer(&mut db, "sub", 1, "kh", None, NOW),
        Err(NoOpenSessionError::NotOpen)
    );
    lock(&mut db, Some(i64::MAX)).unwrap();
    assert_eq!(
        adjust_timer(&mut db, "sub", 1, "kh", None, NOW),
        Err(NoOpenSessionError::Db(DbError::OutOfRange))
    );
    assert_eq!(apply_effect(&mut db, extension(), NOW), Err(DbError::OutOfRange));
    assert!(db.adjustments.is_empty());
}

#[test]
fn adjusting_by_hand_settles_what_waited_for_review() {
    let mut db = Ledger::new();
    let session_id = lock(&mut db, Some(1000)).unwrap();
    apply_effect(&mut db, extension(), NOW).unwrap();
    adjust_timer(&mut db, "sub", -600, "kh", Some("enough"), NOW + 5).unwrap();

    let rows = list_adjustments(&db, &session_id);
    assert_eq!(rows.len(), 2);
    assert!(rows.iter().all(|a| a.keyholder_reviewed_at == Some(NOW + 5)));
    assert_eq!(current(&db, "sub").unwrap().target_release_at, Some(1000 + 21_600 - 600));
}

#[test]
fn an_adjustment_is_reviewed_once() {
    let mut db = Ledger::new();
    let session_id = lock(&mut db, Some(1000)).unwrap();
    apply_effect(&mut db, extension(), NOW).unwrap();
    let id = list_adjustments(&db, &session_id)[0].id.clone();
    review_adjustment(&mut db, &id, NOW + 1).unwrap();
    assert_eq!(
        review_adjustment(&mut db, &id, NOW + 2),
        Err(ReviewAdjustmentError::NotReviewable)
    );
    assert_eq!(list_adjustments(&db, &session_id)[0].keyholder_reviewed_at, Some(NOW + 1));
}

#[test]
fn a_long_pause_is_brought_to_the_keyholders_mind() {
    let mut db = Ledger::new();
    links::create(&mut db, "kh", "sub", NOW).unwrap();
    let session_id = lock(&mut db, None).unwrap();
    pause(&mut db, "sub", None, NOW).unwrap();

    assert!(run_still_paused_sweep_tick(&db, NOW + 86_399).unwrap().is_empty());
    let told = run_still_paused_sweep_tick(&db, NOW + 86_400).unwrap();
    assert_eq!(told.len(), 1);
    assert_eq!(told[0].session_id, session_id);
    assert_eq!(told[0].keyholder_id, "kh");
}

#[test]
fn a_long_pause_is_brought_to_mind_once_a_day() {
    let mut db = Ledger::new();
    links::create(&mut db, "kh", "sub", NOW).unwrap();
    let session_id = lock(&mut db, None).unwrap();
    pause(&mut db, "sub", None, NOW).unwrap();
    let sent_at = NOW + 86_400;
    let reminder = NewNotification {
        user_id: "kh",
        link_id: None,
        notification_type: "confinement.clock_still_paused",
        title: "Still paused",
        body: None,
        link_path: None,
        related_entity_type: Some("confinement_sessions"),
        related_entity_id: Some(session_id.as_str()),
    };
    notifications::create(&mut db, reminder, sent_at);

    assert!(run_still_paused_sweep_tick(&db, sent_at + 86_400).unwrap().is_empty());
    assert_eq!(run_still_paused_sweep_tick(&db, sent_at + 86_401).unwrap().len(), 1);
}

#[test]
fn history_is_newest_first() {
    let mut db = Ledger::new();
    let first = lock(&mut db, None).unwrap();
    end(&mut db, "sub", "scheduled_release", "kh", Some("done"), NOW + 10).unwrap();
    let again = StartSession {
        submissive_id: "sub",
        device_id: "device",
        started_reason: "voluntary",
        target_release_at: None,
        notes: Some("again"),
    };
    let second = start(&mut db, again, NOW + 20).unwrap();

    let sessions = history(&db, "sub");
    assert_eq!(sessions[0].id, second);
    assert_eq!(sessions[1].id, first);
    assert_eq!(sessions[1].ended_at, Some(NOW + 10));
    assert_eq!(sessions[1].ended_by_user_id.as_deref(), Some("kh"));
}
