use owners_ledger::domain::checkins;
use owners_ledger::domain::links;
use owners_ledger::domain::play_sessions::{
    cancel, complete, create, create_template, end, fulfill_next_schedule_slot, get,
    get_template, judge, list_for_link, list_templates_for_keyholder, schedule_for_session,
    start, toy_ids_for_session, update_template, CancelError, CompleteError, CreateError,
    EndError, Judgement, JudgementConsequence, JudgementError, NewSession, NewTemplate,
    StartError, TemplateEdit,
};
use owners_ledger::domain::rewards_punishments::assignments;
use owners_ledger::domain::toys;
use owners_ledger::ledger::Ledger;

const NOW: i64 = 1_700_000_000;

fn with_link() -> (Ledger, String) {
    let mut db = Ledger::new();
    let link_id = links::create(&mut db, "kh", "sub", NOW).unwrap();
    (db, link_id)
}

fn seed_toy(db: &mut Ledger, submissive_id: &str) -> String {
    toys::create(
        db,
        toys::NewToy {
            submissive_id,
            added_by_user_id: submissive_id,
            name: "steel cage",
            category: None,
            material: None,
            brand: None,
            size_notes: None,
            color: None,
            compatible_device_id: None,
            storage_location: None,
            care_instructions: None,
            usage_notes: None,
            tags: None,
            photo_attachment_path: None,
            acquired_at: None,
        },
    )
}

fn seed_checkin_template(db: &mut Ledger) -> String {
    checkins::create_template(db, "kh", "Mid-session check", None, false, &[], NOW)
}

fn titled<'a>(link_id: &'a str, title: &'a str) -> NewSession<'a> {
    NewSession {
        link_id,
        submissive_id: "sub",
        template_id: None,
        title: Some(title),
        setup_notes: None,
        toy_ids: &[],
        planned_duration_seconds: None,
        checkin_template_id: None,
        checkin_interval_seconds: None,
        started_at: None,
        ended_at: None,
        assigned_by_user_id: "kh",
    }
}

#[test]
fn create_from_scratch_defaults_to_scheduled_and_generates_no_schedule_without_a_duration() {
    let (mut db, link) = with_link();
    let toy_id = seed_toy(&mut db, "sub");

    let session = create(
        &mut db,
        NewSession {
            toy_ids: std::slice::from_ref(&toy_id),
            ..titled(&link, "Evening session")
        },
        NOW,
    )
    .unwrap();

    assert_eq!(session.status, "scheduled");
    assert_eq!(toy_ids_for_session(&db, &session.id), vec![toy_id]);
    assert!(schedule_for_session(&db, &session.id).is_empty());
}

#[test]
fn create_rejects_a_toy_belonging_to_another_submissive() {
    let (mut db, link) = with_link();
    let toy_id = seed_toy(&mut db, "other");

    let result = create(
        &mut db,
        NewSession { toy_ids: &[toy_id], ..titled(&link, "Evening session") },
        NOW,
    );
    assert!(matches!(result, Err(CreateError::InvalidToy)));
}

#[test]
fn create_generates_the_documented_three_slot_schedule() {
    let (mut db, link) = with_link();
    let checkin_template_id = seed_checkin_template(&mut db);

    let session = create(
        &mut db,
        NewSession {
            planned_duration_seconds: Some(3600),
            checkin_template_id: Some(&checkin_template_id),
            checkin_interval_seconds: Some(1200),
            ..titled(&link, "Hour-long session")
        },
        NOW,
    )
    .unwrap();

    let schedule = schedule_for_session(&db, &session.id);
    assert_eq!(schedule.len(), 3);
    assert_eq!(schedule[0].planned_offset_seconds, 1200);
    assert_eq!(schedule[2].planned_offset_seconds, 3600);
    assert!(schedule.iter().all(|s| s.fulfilled_checkin_id.is_none()));
}

#[test]
fn supplying_both_started_and_ended_at_lands_directly_in_pending_judgement() {
    let (mut db, link) = with_link();

    let session = create(
        &mut db,
        NewSession {
            started_at: Some(1000),
            ended_at: Some(2000),
            ..titled(&link, "Logged after the fact")
        },
        NOW,
    )
    .unwrap();
    assert_eq!(session.status, "pending_judgement");
}

#[test]
fn start_end_judge_complete_lifecycle() {
    let (mut db, link) = with_link();
    let session = create(&mut db, titled(&link, "Live session"), NOW).unwrap();

    // It cannot end before it starts.
    assert!(matches!(end(&mut db, &session.id, None, NOW), Err(EndError::Conflict)));

    let started = start(&mut db, &session.id, NOW).unwrap();
    assert_eq!(started.status, "in_progress");
    assert!(started.started_at.is_some());

    // It cannot start twice.
    assert!(matches!(start(&mut db, &session.id, NOW), Err(StartError::Conflict)));

    let ended = end(&mut db, &session.id, Some(true), NOW).unwrap();
    assert_eq!(ended.status, "pending_judgement");
    assert_eq!(ended.safety_check_ok, Some(true));

    let judged = judge(
        &mut db,
        &session.id,
        "sub",
        "kh",
        Judgement {
            judgement_notes: Some("Went well"),
            reward: Some(JudgementConsequence {
                template_id: None,
                title: Some("Extra praise"),
                description: Some("Well done"),
                effect_kind: Some("time_reduction"),
                time_extension_seconds: None,
                time_reduction_seconds: Some(3600),
                points_delta: None,
            }),
            punishment: None,
        },
        NOW,
    )
    .unwrap();
    assert_eq!(judged.judgement_notes.as_deref(), Some("Went well"));
    assert!(judged.reward_assignment_id.is_some());
    assert!(judged.punishment_assignment_id.is_none());

    let completed = complete(&mut db, &session.id).unwrap();
    assert_eq!(completed.status, "completed");

    // Judgement is refused once it is completed.
    assert!(matches!(
        judge(&mut db, &session.id, "sub", "kh", Judgement::default(), NOW),
        Err(JudgementError::AlreadyCompleted)
    ));
    // So is completing it twice.
    assert!(matches!(complete(&mut db, &session.id), Err(CompleteError::Conflict)));
}

#[test]
fn cancel_only_works_from_scheduled_or_in_progress() {
    let (mut db, link) = with_link();
    let session = create(&mut db, titled(&link, "To be cancelled"), NOW).unwrap();

    let cancelled = cancel(&mut db, &session.id).unwrap();
    assert_eq!(cancelled.status, "cancelled");
    assert!(matches!(cancel(&mut db, &session.id), Err(CancelError::Conflict)));
}

#[test]
fn fulfill_next_schedule_slot_fills_earliest_open_slot_in_order() {
    let (mut db, link) = with_link();
    let checkin_template_id = seed_checkin_template(&mut db);

    let session = create(
        &mut db,
        NewSession {
            planned_duration_seconds: Some(2400),
            checkin_template_id: Some(&checkin_template_id),
            checkin_interval_seconds: Some(1200),
            ..titled(&link, "Scheduled check-ins")
        },
        NOW,
    )
    .unwrap();

    let mk_checkin = |db: &mut Ledger| {
        checkins::create_checkin(
            db,
            checkins::NewCheckin {
                link_id: &link,
                template_id: &checkin_template_id,
                color: "green",
                field_values: "{}",
                related_confinement_session_id: None,
                related_assignment_id: None,
                related_play_session_id: Some(&session.id),
                created_by_user_id: "sub",
            },
            "sub",
            NOW,
        )
        .unwrap()
        .0
    };
    let checkin_a = mk_checkin(&mut db);
    let checkin_b = mk_checkin(&mut db);
    let checkin_c = mk_checkin(&mut db);

    assert!(fulfill_next_schedule_slot(&mut db, &session.id, &checkin_a));
    assert!(fulfill_next_schedule_slot(&mut db, &session.id, &checkin_b));
    // No slot is left open.
    assert!(!fulfill_next_schedule_slot(&mut db, &session.id, &checkin_c));

    let schedule = schedule_for_session(&db, &session.id);
    assert_eq!(schedule[0].fulfilled_checkin_id.as_deref(), Some(checkin_a.as_str()));
    assert_eq!(schedule[1].fulfilled_checkin_id.as_deref(), Some(checkin_b.as_str()));
}

#[test]
fn update_template_toggles_active_without_mutating_a_past_session() {
    let (mut db, link) = with_link();
    let template_id = create_template(
        &mut db,
        NewTemplate {
            keyholder_id: "kh",
            title: "Original title",
            setup_notes: None,
            suggested_toy_categories: None,
            planned_duration_seconds: None,
            checkin_template_id: None,
            checkin_interval_seconds: None,
        },
        NOW,
    );

    let session = create(
        &mut db,
        NewSession { template_id: Some(&template_id), title: None, ..titled(&link, "") },
        NOW,
    )
    .unwrap();
    assert_eq!(session.title, "Original title");

    update_template(
        &mut db,
        &template_id,
        "kh",
        TemplateEdit {
            title: Some("Renamed title"),
            active: Some(false),
            ..Default::default()
        },
    );

    let refetched = get(&db, &session.id).unwrap();
    assert_eq!(refetched.title, "Original title");
    assert!(!get_template(&db, &template_id).unwrap().active);
}

#[test]
fn a_session_needs_a_title_and_its_template() {
    let (mut db, link) = with_link();
    let untitled = NewSession { title: None, ..titled(&link, "") };
    assert_eq!(create(&mut db, untitled, NOW), Err(CreateError::MissingTitle));
    let stray = NewSession { template_id: Some("gone"), ..titled(&link, "x") };
    assert_eq!(create(&mut db, stray, NOW), Err(CreateError::TemplateNotFound));
    assert_eq!(get(&db, "gone"), None);
    assert_eq!(start(&mut db, "gone", NOW), Err(StartError::NotFound));
    assert_eq!(end(&mut db, "gone", None, NOW), Err(EndError::NotFound));
    assert_eq!(complete(&mut db, "gone"), Err(CompleteError::NotFound));
    assert_eq!(cancel(&mut db, "gone"), Err(CancelError::NotFound));
    assert_eq!(
        judge(&mut db, "gone", "sub", "kh", Judgement::default(), NOW),
        Err(JudgementError::NotFound)
    );
}

#[test]
fn a_session_is_made_from_the_keyholders_own_template() {
    let (mut db, link) = with_link();
    let theirs = NewTemplate {
        keyholder_id: "another kh",
        title: "Theirs",
        setup_notes: None,
        suggested_toy_categories: None,
        planned_duration_seconds: None,
        checkin_template_id: None,
        checkin_interval_seconds: None,
    };
    let template_id = create_template(&mut db, theirs, NOW);
    let new = NewSession { template_id: Some(&template_id), ..titled(&link, "x") };
    assert_eq!(create(&mut db, new, NOW), Err(CreateError::TemplateNotFound));
    assert!(db.play_sessions.is_empty());
    assert!(db.play_schedule.is_empty());
}

#[test]
fn a_judgement_that_cannot_be_carried_out_changes_nothing() {
    let (mut db, link) = with_link();
    let session = create(&mut db, titled(&link, "Live session"), NOW).unwrap();
    let nameless = JudgementConsequence {
        template_id: None,
        title: None,
        description: None,
        effect_kind: Some("grant"),
        time_extension_seconds: None,
        time_reduction_seconds: None,
        points_delta: None,
    };
    let judgement = Judgement {
        judgement_notes: Some("so-so"),
        reward: None,
        punishment: Some(nameless),
    };
    assert_eq!(
        judge(&mut db, &session.id, "sub", "kh", judgement, NOW),
        Err(JudgementError::Assignment(assignments::CreateError::MissingTitle))
    );
    assert_eq!(get(&db, &session.id).unwrap(), session);
    assert!(db.assignments.is_empty());
}

#[test]
fn slots_that_do_not_fit_are_left_out() {
    let (mut db, link) = with_link();
    let checkin_template_id = seed_checkin_template(&mut db);
    let session = create(
        &mut db,
        NewSession {
            planned_duration_seconds: Some(3599),
            checkin_template_id: Some(&checkin_template_id),
            checkin_interval_seconds: Some(1200),
            ..titled(&link, "Nearly an hour")
        },
        NOW,
    )
    .unwrap();
    let offsets: Vec<i64> = schedule_for_session(&db, &session.id)
        .iter()
        .map(|s| s.planned_offset_seconds)
        .collect();
    assert_eq!(offsets, vec![1200, 2400]);
    let numbers: Vec<i64> =
        schedule_for_session(&db, &session.id).iter().map(|s| s.sequence_number).collect();
    assert_eq!(numbers, vec![1, 2]);
}

#[test]
fn sessions_are_listed_by_status() {
    let (mut db, link) = with_link();
    let first = create(&mut db, titled(&link, "One"), NOW).unwrap();
    let second = create(&mut db, titled(&link, "Two"), NOW + 1).unwrap();
    start(&mut db, &first.id, NOW + 2).unwrap();
    let all: Vec<String> = list_for_link(&db, &link, None).into_iter().map(|s| s.id).collect();
    assert_eq!(all, vec![second.id.clone(), first.id.clone()]);
    let running = list_for_link(&db, &link, Some("in_progress"));
    assert_eq!(running.len(), 1);
    assert_eq!(running[0].id, first.id);
    assert!(list_templates_for_keyholder(&db, "kh").is_empty());
}
