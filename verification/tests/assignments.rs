use owners_ledger::domain::chastity::{confinement, devices};
use owners_ledger::domain::links;
use owners_ledger::domain::notifications;
use owners_ledger::domain::proofs;
use owners_ledger::domain::rewards_punishments::assignments::{
    acknowledge, chain, create, edit_deadline, edit_escalation, get, list_for_links,
    reminder_time_due, resolve, review_proof, run_deadline_sweep_tick, submit_proof,
    AcknowledgeError, Assignment, CreateError, EditError, NewAssignment, ResolveError,
    ReviewProofError, SubmitProofError,
};
use owners_ledger::domain::rewards_punishments::templates;
use owners_ledger::error::DbError;
use owners_ledger::ledger::Ledger;

const NOW: i64 = 1_700_000_000;

fn with_link() -> (Ledger, String) {
    let mut db = Ledger::new();
    let link_id = links::create(&mut db, "kh", "sub", NOW).unwrap();
    (db, link_id)
}

fn task<'a>(title: &'a str) -> NewAssignment<'a> {
    NewAssignment {
        kind: Some("task"),
        title: Some(title),
        completion_type: Some("acknowledge_only"),
        default_deadline_seconds: Some(3600),
        assigned_by_user_id: Some("kh"),
        assigned_via: "session",
        ..Default::default()
    }
}

fn proof_task<'a>() -> NewAssignment<'a> {
    NewAssignment {
        completion_type: Some("proof_required"),
        proof_media_types: Some(r#"["video"]"#),
        ..task("cold shower")
    }
}

fn template(kind: &'static str, title: &'static str, effect: &'static str) -> templates::NewTemplate<'static> {
    templates::NewTemplate {
        kind,
        title,
        description: None,
        severity: None,
        effect_kind: Some(effect),
        completion_type: None,
        proof_media_types: None,
        default_deadline_seconds: None,
        time_extension_seconds: None,
        time_reduction_seconds: None,
        on_success_template_id: None,
        on_failure_template_id: None,
        points_delta: None,
        points_cost: None,
    }
}

fn seed_punishment(db: &mut Ledger, seconds: i64) -> String {
    let new = templates::NewTemplate {
        time_extension_seconds: Some(seconds),
        ..template("punishment", "extra day locked", "time_extension")
    };
    templates::create(db, "kh", new, NOW).unwrap()
}

fn status(db: &Ledger, id: &str) -> String {
    get(db, id).unwrap().status
}

fn escalated_from(db: &Ledger, link_id: &str, id: &str) -> Vec<Assignment> {
    list_for_links(db, &[link_id.to_string()])
        .into_iter()
        .filter(|x| x.escalated_from_assignment_id.as_deref() == Some(id))
        .collect()
}

#[test]
fn ad_hoc_task_assignment_computes_deadline_from_seconds() {
    let (mut db, link_id) = with_link();

    let a = create(&mut db, "sub", &link_id, task("500 lines"), NOW).unwrap();

    assert_eq!(a.status, "assigned");
    assert!(a.deadline_at.unwrap() >= NOW + 3600);
    assert_eq!(a.deadline_at, Some(NOW + 3600));
}

#[test]
fn assignments_task_without_completion_type_is_rejected() {
    let (mut db, link_id) = with_link();
    let result = create(
        &mut db,
        "sub",
        &link_id,
        NewAssignment {
            kind: Some("task"),
            title: Some("x"),
            assigned_by_user_id: Some("kh"),
            assigned_via: "session",
            ..Default::default()
        },
        NOW,
    );
    assert!(matches!(result, Err(CreateError::MissingCompletionType)));
}

#[test]
fn time_extension_punishment_applies_immediately_and_is_terminal() {
    let (mut db, link_id) = with_link();
    let device_id = devices::add(&mut db, "sub", "cage", None, NOW);
    confinement::start(
        &mut db,
        confinement::StartSession {
            submissive_id: "sub",
            device_id: &device_id,
            started_reason: "voluntary",
            target_release_at: Some(1000),
            notes: None,
        },
        NOW,
    )
    .unwrap();

    let a = create(
        &mut db,
        "sub",
        &link_id,
        NewAssignment {
            kind: Some("punishment"),
            title: Some("extra day locked"),
            effect_kind: Some("time_extension"),
            time_extension_seconds: Some(500),
            assigned_by_user_id: Some("kh"),
            assigned_via: "session",
            ..Default::default()
        },
        NOW,
    )
    .unwrap();

    assert_eq!(a.status, "applied");
    let session = confinement::current(&db, "sub").unwrap();
    assert_eq!(session.target_release_at, Some(1500));
}

#[test]
fn escalation_on_deadline_sweep_creates_the_next_link() {
    let (mut db, link_id) = with_link();
    let punishment_template = seed_punishment(&mut db, 86_400);

    let a = create(
        &mut db,
        "sub",
        &link_id,
        NewAssignment {
            deadline_at: Some(NOW - 10),
            default_deadline_seconds: None,
            on_failure_template_id: Some(&punishment_template),
            ..task("cold shower")
        },
        NOW,
    )
    .unwrap();

    let outcome = run_deadline_sweep_tick(&mut db, NOW).unwrap();
    assert_eq!(outcome.auto_failed.len(), 1);
    assert_eq!(outcome.auto_failed[0].assignment_id, a.id);
    assert_eq!(outcome.auto_failed[0].submissive_id, "sub");
    assert_eq!(outcome.auto_failed[0].keyholder_id, "kh");
    let escalated_outcome = outcome.auto_failed[0].escalated.as_ref().unwrap();
    assert_eq!(escalated_outcome.kind, "punishment");

    assert_eq!(status(&db, &a.id), "failed");

    let escalated = escalated_from(&db, &link_id, &a.id);
    assert_eq!(escalated.len(), 1);
    assert_eq!(escalated[0].kind, "punishment");
    assert_eq!(escalated[0].status, "applied");
    assert_eq!(escalated[0].assigned_via, "system");
}

#[test]
fn sweep_does_not_touch_acknowledged_or_proof_submitted() {
    let (mut db, link_id) = with_link();

    let new = NewAssignment { deadline_at: Some(NOW - 10), ..task("cold shower") };
    let a = create(&mut db, "sub", &link_id, new, NOW).unwrap();
    acknowledge(&mut db, &a.id, "sub", NOW).unwrap();

    let outcome = run_deadline_sweep_tick(&mut db, NOW).unwrap();
    assert_eq!(outcome.auto_failed.len(), 0);
    assert_eq!(status(&db, &a.id), "acknowledged");
}

#[test]
fn sweep_sends_exactly_one_deadline_approaching_reminder() {
    let (mut db, link_id) = with_link();

    let new = NewAssignment { deadline_at: Some(NOW + 100_000), ..task("clean the apartment") };
    let a = create(&mut db, "sub", &link_id, new, NOW).unwrap();

    // A task of an hour whose reminder (half an hour before the end) is due.
    db.assignments[0].assigned_at = NOW - 3500;
    db.assignments[0].deadline_at = Some(NOW + 100);

    let outcome = run_deadline_sweep_tick(&mut db, NOW).unwrap();
    assert_eq!(outcome.reminders.len(), 1);
    assert_eq!(outcome.reminders[0].assignment_id, a.id);
    assert_eq!(outcome.reminders[0].submissive_id, "sub");

    // The caller tells the submissive; the next sweep does not repeat it.
    notifications::create(
        &mut db,
        notifications::NewNotification {
            user_id: "sub",
            link_id: None,
            notification_type: "task.deadline_approaching",
            title: "reminder",
            body: None,
            link_path: None,
            related_entity_type: Some("assignments"),
            related_entity_id: Some(&a.id),
        },
        NOW,
    );

    let outcome = run_deadline_sweep_tick(&mut db, NOW).unwrap();
    assert_eq!(outcome.reminders.len(), 0);
}

#[test]
fn sweep_skips_a_reminder_for_a_punishment_too_short_to_bother() {
    let (mut db, link_id) = with_link();

    let new = NewAssignment { deadline_at: Some(NOW + 100_000), ..task("cold shower") };
    create(&mut db, "sub", &link_id, new, NOW).unwrap();

    // 250 seconds in all: a reminder at half of it would come too soon after the assignment.
    db.assignments[0].assigned_at = NOW - 50;
    db.assignments[0].deadline_at = Some(NOW + 200);

    let outcome = run_deadline_sweep_tick(&mut db, NOW).unwrap();
    assert!(outcome.auto_failed.is_empty());
    assert!(outcome.reminders.is_empty());
}

#[test]
fn acknowledge_then_resolve_completed_triggers_success_escalation() {
    let (mut db, link_id) = with_link();
    let reward_template =
        templates::create(&mut db, "kh", template("reward", "movie night", "grant"), NOW).unwrap();

    let new = NewAssignment {
        on_success_template_id: Some(&reward_template),
        ..task("clean the apartment")
    };
    let a = create(&mut db, "sub", &link_id, new, NOW).unwrap();

    acknowledge(&mut db, &a.id, "sub", NOW).unwrap();
    resolve(&mut db, &a.id, "kh", "completed", NOW).unwrap();

    assert_eq!(status(&db, &a.id), "completed");
    let rewards: Vec<Assignment> = list_for_links(&db, std::slice::from_ref(&link_id))
        .into_iter()
        .filter(|x| x.kind == "reward")
        .collect();
    assert_eq!(rewards.len(), 1);
    assert_eq!(rewards[0].escalated_from_assignment_id.as_deref(), Some(a.id.as_str()));
}

#[test]
fn revoke_never_escalates() {
    let (mut db, link_id) = with_link();
    let punishment_template = seed_punishment(&mut db, 3600);

    let new = NewAssignment {
        on_failure_template_id: Some(&punishment_template),
        ..task("cold shower")
    };
    let a = create(&mut db, "sub", &link_id, new, NOW).unwrap();

    resolve(&mut db, &a.id, "kh", "revoked", NOW).unwrap();
    assert_eq!(status(&db, &a.id), "revoked");
    assert!(list_for_links(&db, &[link_id]).iter().all(|x| x.kind != "punishment"));
}

#[test]
fn proof_required_task_flow_end_to_end_with_review() {
    let (mut db, link_id) = with_link();
    let a = create(&mut db, "sub", &link_id, proof_task(), NOW).unwrap();

    let submission_id = submit_proof(&mut db, &a.id, "sub", "video", None, vec![], NOW).unwrap();
    assert_eq!(status(&db, &a.id), "proof_submitted");

    review_proof(&mut db, &submission_id, &link_id, "verified", None, "kh", "session", NOW)
        .unwrap();
    assert_eq!(status(&db, &a.id), "completed");
}

#[test]
fn proof_rejected_fails_the_task_and_escalates() {
    let (mut db, link_id) = with_link();
    let punishment_template = seed_punishment(&mut db, 3600);

    let new = NewAssignment {
        on_failure_template_id: Some(&punishment_template),
        ..proof_task()
    };
    let a = create(&mut db, "sub", &link_id, new, NOW).unwrap();

    let submission_id = submit_proof(&mut db, &a.id, "sub", "video", None, vec![], NOW).unwrap();
    review_proof(
        &mut db,
        &submission_id,
        &link_id,
        "failed",
        Some("not real"),
        "kh",
        "session",
        NOW,
    )
    .unwrap();

    assert_eq!(status(&db, &a.id), "failed");
    let escalated = escalated_from(&db, &link_id, &a.id);
    assert_eq!(escalated.len(), 1);
    assert_eq!(escalated[0].kind, "punishment");
}

#[test]
fn deadline_and_escalation_edits_are_rejected_once_resolved() {
    let (mut db, link_id) = with_link();
    let a = create(&mut db, "sub", &link_id, task("x"), NOW).unwrap();

    acknowledge(&mut db, &a.id, "sub", NOW).unwrap();
    resolve(&mut db, &a.id, "kh", "completed", NOW).unwrap();

    let result = edit_deadline(&mut db, &a.id, "kh", NOW + 1000);
    assert!(matches!(result, Err(EditError::AlreadyResolved)));
    let result = edit_escalation(&mut db, &a.id, "kh", None);
    assert!(matches!(result, Err(EditError::AlreadyResolved)));
}

#[test]
fn chain_walks_ancestors_and_descendants() {
    let (mut db, link_id) = with_link();
    let punishment_template = seed_punishment(&mut db, 3600);
    let new = NewAssignment {
        deadline_at: Some(NOW - 10),
        on_failure_template_id: Some(&punishment_template),
        ..task("cold shower")
    };
    let a = create(&mut db, "sub", &link_id, new, NOW).unwrap();
    run_deadline_sweep_tick(&mut db, NOW).unwrap();

    let full_chain = chain(&db, &a.id);
    // The first task and the punishment that came of it.
    assert_eq!(full_chain.len(), 2);
    assert!(full_chain.iter().any(|x| x.id == a.id));
    assert!(full_chain.iter().any(|x| x.kind == "punishment"));

    // The chain is the same wherever it is entered.
    let from_the_end = chain(&db, &escalated_from(&db, &link_id, &a.id)[0].id);
    assert_eq!(from_the_end, full_chain);
    assert!(chain(&db, "no-such-assignment").is_empty());
}

#[test]
fn each_missing_part_of_an_assignment_has_its_own_refusal() {
    let (mut db, link_id) = with_link();
    let mut refused = |new: NewAssignment| create(&mut db, "sub", &link_id, new, NOW).unwrap_err();
    assert_eq!(refused(NewAssignment::default()), CreateError::MissingKind);
    assert_eq!(
        refused(NewAssignment { kind: Some("task"), ..Default::default() }),
        CreateError::MissingTitle
    );
    assert_eq!(
        refused(NewAssignment { template_id: Some("gone"), ..Default::default() }),
        CreateError::TemplateNotFound
    );
    let reward = |effect_kind: Option<&'static str>, kind: &'static str| NewAssignment {
        kind: Some(kind),
        title: Some("x"),
        effect_kind,
        ..Default::default()
    };
    assert_eq!(refused(reward(None, "reward")), CreateError::MissingEffectKind);
    assert_eq!(
        refused(reward(Some("time_reduction"), "reward")),
        CreateError::MissingTimeReductionSeconds
    );
    assert_eq!(
        refused(reward(Some("time_extension"), "punishment")),
        CreateError::MissingTimeExtensionSeconds
    );
    assert_eq!(
        refused(NewAssignment { proof_media_types: None, ..proof_task() }),
        CreateError::MissingProofMediaTypes
    );
    assert_eq!(
        refused(NewAssignment { default_deadline_seconds: Some(i64::MAX), ..task("x") }),
        CreateError::Db(DbError::OutOfRange)
    );
    assert!(db.assignments.is_empty());
}

#[test]
fn an_inactive_template_can_be_refused_but_still_ends_a_chain() {
    let (mut db, link_id) = with_link();
    let punishment_template = seed_punishment(&mut db, 3600);
    let new = NewAssignment {
        deadline_at: Some(NOW - 10),
        on_failure_template_id: Some(&punishment_template),
        ..task("cold shower")
    };
    let a = create(&mut db, "sub", &link_id, new, NOW).unwrap();
    templates::deactivate(&mut db, &punishment_template, "kh").unwrap();

    let direct = NewAssignment {
        template_id: Some(&punishment_template),
        require_active_template: true,
        ..Default::default()
    };
    assert_eq!(
        create(&mut db, "sub", &link_id, direct, NOW),
        Err(CreateError::TemplateInactive)
    );

    let outcome = run_deadline_sweep_tick(&mut db, NOW).unwrap();
    assert!(outcome.auto_failed[0].escalated.is_some());
    assert_eq!(escalated_from(&db, &link_id, &a.id)[0].title, "extra day locked");
}

#[test]
fn a_task_is_acknowledged_by_its_submissive_once() {
    let (mut db, link_id) = with_link();
    let a = create(&mut db, "sub", &link_id, task("x"), NOW).unwrap();
    assert_eq!(
        acknowledge(&mut db, &a.id, "other", NOW),
        Err(AcknowledgeError::NotAcknowledgeable)
    );
    acknowledge(&mut db, &a.id, "sub", NOW).unwrap();
    assert_eq!(
        acknowledge(&mut db, &a.id, "sub", NOW),
        Err(AcknowledgeError::NotAcknowledgeable)
    );
}

#[test]
fn a_resolution_is_the_keyholders_and_final() {
    let (mut db, link_id) = with_link();
    let a = create(&mut db, "sub", &link_id, task("x"), NOW).unwrap();
    assert_eq!(resolve(&mut db, &a.id, "other", "revoked", NOW), Err(ResolveError::NotFound));
    for status in ["completed", "failed", "assigned"] {
        assert_eq!(
            resolve(&mut db, &a.id, "kh", status, NOW),
            Err(ResolveError::InvalidTransition)
        );
    }
    resolve(&mut db, &a.id, "kh", "revoked", NOW).unwrap();
    for status in ["completed", "revoked"] {
        assert_eq!(
            resolve(&mut db, &a.id, "kh", status, NOW),
            Err(ResolveError::InvalidTransition)
        );
    }
    assert_eq!(status(&db, &a.id), "revoked");
}

#[test]
fn proof_is_taken_for_ones_own_open_task_in_time() {
    let (mut db, link_id) = with_link();
    let plain = create(&mut db, "sub", &link_id, task("x"), NOW).unwrap();
    let a = create(&mut db, "sub", &link_id, proof_task(), NOW).unwrap();
    let mut submit = |id: &str, who: &str, at: i64| {
        submit_proof(&mut db, id, who, "video", None, vec![], at).unwrap_err()
    };
    assert_eq!(submit("no-such-assignment", "sub", NOW), SubmitProofError::NotFound);
    assert_eq!(submit(&a.id, "other", NOW), SubmitProofError::NotFound);
    assert_eq!(submit(&plain.id, "sub", NOW), SubmitProofError::NotAwaitingProof);
    assert_eq!(submit(&a.id, "sub", NOW + 3601), SubmitProofError::DeadlinePassed);
    let broken = vec![proofs::NewFile {
        content_type: "image/png",
        original_filename: None,
        stored: Err(proofs::StorageError::InvalidImage),
    }];
    assert_eq!(
        submit_proof(&mut db, &a.id, "sub", "photo", None, broken, NOW),
        Err(SubmitProofError::Store(proofs::StorageError::InvalidImage))
    );
    assert!(db.submissions.is_empty());
    submit_proof(&mut db, &a.id, "sub", "video", None, vec![], NOW + 10).unwrap();
}

#[test]
fn a_redo_puts_the_task_back() {
    let (mut db, link_id) = with_link();
    let a = create(&mut db, "sub", &link_id, proof_task(), NOW).unwrap();
    let first = submit_proof(&mut db, &a.id, "sub", "video", None, vec![], NOW).unwrap();
    review_proof(&mut db, &first, &link_id, "redo", None, "kh", "session", NOW).unwrap();
    assert_ne!(status(&db, &a.id), "completed");
    assert_ne!(status(&db, &a.id), "failed");

    let again = review_proof(&mut db, &first, &link_id, "verified", None, "kh", "session", NOW);
    assert_eq!(again, Err(ReviewProofError::Proof(proofs::ReviewError::NotReviewable)));
}

#[test]
fn a_reminder_comes_an_hour_or_half_the_time_ahead() {
    assert!(!reminder_time_due(NOW + 10_000, NOW, NOW + 6399));
    assert!(reminder_time_due(NOW + 10_000, NOW, NOW + 6400));
    assert!(reminder_time_due(NOW + 1000, NOW, NOW + 500));
    assert!(!reminder_time_due(NOW + 1000, NOW, NOW + 499));
    assert!(!reminder_time_due(NOW + 598, NOW, NOW + 597));
}

#[test]
fn deadlines_and_consequences_can_be_edited_while_open() {
    let (mut db, link_id) = with_link();
    let template_id = seed_punishment(&mut db, 60);
    let a = create(&mut db, "sub", &link_id, task("x"), NOW).unwrap();
    assert_eq!(edit_deadline(&mut db, &a.id, "other", NOW), Err(EditError::NotFound));
    assert_eq!(edit_escalation(&mut db, "gone", "kh", None), Err(EditError::NotFound));
    edit_deadline(&mut db, &a.id, "kh", NOW + 5).unwrap();
    edit_escalation(&mut db, &a.id, "kh", Some(&template_id)).unwrap();
    let edited = get(&db, &a.id).unwrap();
    assert_eq!(edited.deadline_at, Some(NOW + 5));
    assert_eq!(edited.on_failure_template_id, Some(template_id));
}

fn is_row_id(id: &str) -> bool {
    let c: Vec<char> = id.chars().collect();
    c.len() == 36
        && c.iter().enumerate().all(|(i, c)| match i {
            8 | 13 | 18 | 23 => *c == '-',
            _ => matches!(c, '0'..='9' | 'a'..='f'),
        })
        && c[14] == '4'
        && matches!(c[19], '8' | '9' | 'a' | 'b')
}

#[test]
fn everything_that_a_failure_writes_has_a_row_id_of_its_own() {
    let (mut db, link_id) = with_link();
    db.links[0].points_enabled = true;
    let session = confinement::StartSession {
        submissive_id: "sub",
        device_id: "device",
        started_reason: "voluntary",
        target_release_at: Some(NOW),
        notes: None,
    };
    confinement::start(&mut db, session, NOW).unwrap();
    let punishment_template = seed_punishment(&mut db, 3600);
    let new = NewAssignment {
        deadline_at: Some(NOW - 10),
        on_failure_template_id: Some(&punishment_template),
        points_delta: Some(-5),
        ..task("cold shower")
    };
    create(&mut db, "sub", &link_id, new, NOW).unwrap();
    run_deadline_sweep_tick(&mut db, NOW).unwrap();

    let ids = [
        db.audit_log[0].id.as_str(),
        db.transactions[0].id.as_str(),
        db.assignments[1].id.as_str(),
        db.adjustments[0].id.as_str(),
    ];
    for (i, id) in ids.iter().enumerate() {
        assert!(is_row_id(id));
        assert!(!ids[..i].contains(id));
    }
}
