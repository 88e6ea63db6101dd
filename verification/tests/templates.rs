use owners_ledger::domain::rewards_punishments::templates::{
    create, deactivate, get, list_for_keyholder, validate, CreateError, NewTemplate, UpdateError,
    ValidationError,
};
use owners_ledger::ledger::Ledger;

const NOW: i64 = 1_700_000_000;

fn blank(kind: &'static str, title: &'static str) -> NewTemplate<'static> {
    NewTemplate {
        kind,
        title,
        description: None,
        severity: None,
        effect_kind: None,
        completion_type: None,
        proof_media_types: None,
        default_deadline_seconds: None,
        time_extension_seconds: None,
        time_reduction_seconds: None,
        on_success_template_id: None,
        on_failure_template_id: None,
        points_delta: None,
        points_cost: None,
    }
}

fn base_task() -> NewTemplate<'static> {
    NewTemplate {
        completion_type: Some("proof_required"),
        proof_media_types: Some(r#"["video"]"#),
        default_deadline_seconds: Some(86_400),
        ..blank("task", "cold shower")
    }
}

#[test]
fn create_task_then_get_round_trips() {
    let mut db = Ledger::new();
    let id = create(&mut db, "kh", base_task(), NOW).unwrap();

    let t = get(&db, &id).unwrap();
    assert_eq!(t.kind, "task");
    assert_eq!(t.completion_type.as_deref(), Some("proof_required"));
    assert!(t.active);
}

#[test]
fn templates_task_without_completion_type_is_rejected() {
    let mut db = Ledger::new();
    let mut new = base_task();
    new.completion_type = None;
    let result = create(&mut db, "kh", new, NOW);
    assert!(matches!(
        result,
        Err(CreateError::Validation(ValidationError::MissingCompletionType))
    ));
}

#[test]
fn proof_required_task_without_media_types_is_rejected() {
    let mut db = Ledger::new();
    let mut new = base_task();
    new.proof_media_types = None;
    let result = create(&mut db, "kh", new, NOW);
    assert!(matches!(
        result,
        Err(CreateError::Validation(ValidationError::MissingProofMediaTypes))
    ));
}

#[test]
fn punishment_time_extension_without_seconds_is_rejected() {
    let mut db = Ledger::new();
    let new = NewTemplate {
        effect_kind: Some("time_extension"),
        ..blank("punishment", "extra day locked")
    };
    let result = create(&mut db, "kh", new, NOW);
    assert!(matches!(
        result,
        Err(CreateError::Validation(ValidationError::MissingTimeExtensionSeconds))
    ));
}

#[test]
fn deactivate_leaves_the_row_gettable() {
    let mut db = Ledger::new();
    let id = create(&mut db, "kh", base_task(), NOW).unwrap();
    deactivate(&mut db, &id, "kh").unwrap();

    let t = get(&db, &id).unwrap();
    assert!(!t.active);
}

#[test]
fn deactivate_is_scoped_to_owning_keyholder() {
    let mut db = Ledger::new();
    let id = create(&mut db, "kh", base_task(), NOW).unwrap();
    let result = deactivate(&mut db, &id, "someone-else");
    assert!(matches!(result, Err(UpdateError::NotFound)));
}

#[test]
fn list_filters_by_kind() {
    let mut db = Ledger::new();
    create(&mut db, "kh", base_task(), NOW).unwrap();
    let reward = NewTemplate { effect_kind: Some("grant"), ..blank("reward", "movie night") };
    create(&mut db, "kh", reward, NOW).unwrap();

    assert_eq!(list_for_keyholder(&db, "kh", None).len(), 2);
    assert_eq!(list_for_keyholder(&db, "kh", Some("task")).len(), 1);
    assert_eq!(list_for_keyholder(&db, "kh", Some("reward")).len(), 1);
}

#[test]
fn each_missing_part_has_its_own_refusal() {
    assert_eq!(validate(&base_task()), Ok(()));
    assert_eq!(validate(&blank("chore", "x")), Err(ValidationError::InvalidKind));
    assert_eq!(validate(&blank("punishment", "x")), Err(ValidationError::MissingEffectKind));
    assert_eq!(validate(&blank("reward", "x")), Err(ValidationError::MissingEffectKind));
    let reduction = NewTemplate { effect_kind: Some("time_reduction"), ..blank("reward", "x") };
    assert_eq!(validate(&reduction), Err(ValidationError::MissingTimeReductionSeconds));
    let reduction = NewTemplate { time_reduction_seconds: Some(60), ..reduction };
    assert_eq!(validate(&reduction), Ok(()));
    let task = NewTemplate { default_deadline_seconds: None, ..base_task() };
    assert_eq!(validate(&task), Err(ValidationError::MissingDefaultDeadlineSeconds));
}

#[test]
fn a_deactivated_template_leaves_the_catalog() {
    let mut db = Ledger::new();
    let id = create(&mut db, "kh", base_task(), NOW).unwrap();
    create(&mut db, "other", base_task(), NOW).unwrap();
    deactivate(&mut db, &id, "kh").unwrap();
    assert_eq!(get(&db, "no-such-template"), None);
    let listed: Vec<bool> =
        list_for_keyholder(&db, "kh", None).iter().map(|t| t.active).collect();
    assert_eq!(listed, vec![false]);
}
