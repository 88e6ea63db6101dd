use owners_ledger::domain::checkins::{
    create_checkin, create_template, get_checkin, get_template, list_fields, list_for_link,
    list_templates_for_keyholder, missing_required_field, update_checkin, update_template,
    CheckinEdit, CheckinFilter, CreateCheckinError, NewCheckin, NewField, TemplateEdit,
    UpdateCheckinError,
};
use owners_ledger::domain::links;
use owners_ledger::ledger::Ledger;

const NOW: i64 = 1_700_000_000;

fn with_link() -> (Ledger, String) {
    let mut db = Ledger::new();
    let link_id = links::create(&mut db, "kh", "sub", NOW).unwrap();
    (db, link_id)
}

fn field<'a>(field_key: &'a str, label: &'a str, required: bool) -> NewField<'a> {
    NewField { field_key, label, description: None, field_type: "text", config: "{}", required }
}

fn seed_template(db: &mut Ledger, auto_escalate: bool) -> String {
    let fields = [field("skin_status", "Skin status", true)];
    create_template(db, "kh", "Morning check-in", None, auto_escalate, &fields, NOW)
}

fn report<'a>(
    link_id: &'a str,
    template_id: &'a str,
    color: &'a str,
    field_values: &'a str,
) -> NewCheckin<'a> {
    NewCheckin {
        link_id,
        template_id,
        color,
        field_values,
        related_confinement_session_id: None,
        related_assignment_id: None,
        related_play_session_id: None,
        created_by_user_id: "sub",
    }
}

fn any<'a>() -> CheckinFilter<'a> {
    CheckinFilter {
        color: None,
        related_assignment_id: None,
        related_confinement_session_id: None,
        related_play_session_id: None,
    }
}

#[test]
fn create_template_and_list_fields_round_trips() {
    let mut db = Ledger::new();
    let template_id = seed_template(&mut db, false);

    let fields = list_fields(&db, &template_id);
    assert_eq!(fields.len(), 1);
    assert_eq!(fields[0].field_key, "skin_status");
    assert!(fields[0].required);
}

#[test]
fn update_template_replaces_fields_without_touching_past_checkins() {
    let (mut db, link) = with_link();
    let template_id = seed_template(&mut db, false);

    let new = report(&link, &template_id, "green", r#"{"skin_status":"normal"}"#);
    let (checkin_id, alert) = create_checkin(&mut db, new, "sub", NOW).unwrap();
    assert!(alert.is_none());

    update_template(
        &mut db,
        &template_id,
        "kh",
        TemplateEdit { fields: Some(vec![field("mood", "Mood", false)]), ..Default::default() },
    );

    // The form's fields changed...
    let fields = list_fields(&db, &template_id);
    assert_eq!(fields.len(), 1);
    assert_eq!(fields[0].field_key, "mood");
    // ...but not what was reported before.
    let checkin = get_checkin(&db, &checkin_id).unwrap();
    assert_eq!(checkin.field_values, r#"{"skin_status":"normal"}"#);
}

#[test]
fn create_checkin_rejects_a_missing_required_field() {
    let (mut db, link) = with_link();
    let template_id = seed_template(&mut db, false);

    let result = create_checkin(&mut db, report(&link, &template_id, "green", "{}"), "sub", NOW);
    assert!(matches!(result, Err(CreateCheckinError::MissingRequiredField)));
}

#[test]
fn create_checkin_red_with_auto_escalate_raises_a_safety_alert() {
    let (mut db, link) = with_link();
    let template_id = seed_template(&mut db, true);

    let new = report(&link, &template_id, "red", r#"{"skin_status":"open skin"}"#);
    let (checkin_id, alert_id) = create_checkin(&mut db, new, "sub", NOW).unwrap();
    let alert_id = alert_id.unwrap();

    let alert = db.alerts.iter().find(|a| a.id == alert_id).unwrap();
    assert_eq!(alert.related_checkin_id.as_deref(), Some(checkin_id.as_str()));
    assert_eq!(alert.raised_via, "system");
}

#[test]
fn create_checkin_green_never_raises_even_with_auto_escalate_on() {
    let (mut db, link) = with_link();
    let template_id = seed_template(&mut db, true);

    let new = report(&link, &template_id, "green", r#"{"skin_status":"normal"}"#);
    let (_id, alert_id) = create_checkin(&mut db, new, "sub", NOW).unwrap();
    assert!(alert_id.is_none());
}

#[test]
fn update_checkin_only_raises_on_the_transition_into_red_not_every_save() {
    let (mut db, link) = with_link();
    let template_id = seed_template(&mut db, true);

    let new = report(&link, &template_id, "red", r#"{"skin_status":"open skin"}"#);
    let (checkin_id, first_alert) = create_checkin(&mut db, new, "sub", NOW).unwrap();
    assert!(first_alert.is_some());

    // An edit of a report that is red already raises no second alert.
    let second_alert = update_checkin(
        &mut db,
        &checkin_id,
        CheckinEdit {
            field_values: Some(r#"{"skin_status":"open skin","notes":"still bad"}"#),
            ..Default::default()
        },
        "sub",
        "kh",
        NOW,
    )
    .unwrap();
    assert!(second_alert.is_none());

    let alert_count = db
        .alerts
        .iter()
        .filter(|a| a.related_checkin_id.as_deref() == Some(checkin_id.as_str()))
        .count();
    assert_eq!(alert_count, 1);

    // Leaving red and coming back does.
    let green = CheckinEdit { color: Some("green"), ..Default::default() };
    update_checkin(&mut db, &checkin_id, green, "sub", "kh", NOW).unwrap();
    let red = CheckinEdit { color: Some("red"), ..Default::default() };
    let third_alert = update_checkin(&mut db, &checkin_id, red, "sub", "kh", NOW).unwrap();
    assert!(third_alert.is_some());
}

#[test]
fn list_for_link_filters_by_color_and_related_assignment() {
    let (mut db, link) = with_link();
    let template_id = seed_template(&mut db, false);

    let new = NewCheckin {
        related_assignment_id: Some("assignment-1"),
        ..report(&link, &template_id, "green", r#"{"skin_status":"normal"}"#)
    };
    create_checkin(&mut db, new, "sub", NOW).unwrap();
    let new = report(&link, &template_id, "yellow", r#"{"skin_status":"mild redness"}"#);
    create_checkin(&mut db, new, "sub", NOW).unwrap();

    assert_eq!(list_for_link(&db, &link, any()).len(), 2);
    let yellow = CheckinFilter { color: Some("yellow"), ..any() };
    assert_eq!(list_for_link(&db, &link, yellow).len(), 1);
    let related = CheckinFilter { related_assignment_id: Some("assignment-1"), ..any() };
    assert_eq!(list_for_link(&db, &link, related).len(), 1);
}

#[test]
fn a_report_needs_its_form_and_an_edit_its_report() {
    let (mut db, link) = with_link();
    assert_eq!(
        create_checkin(&mut db, report(&link, "gone", "green", "{}"), "sub", NOW),
        Err(CreateCheckinError::TemplateNotFound)
    );
    assert_eq!(
        update_checkin(&mut db, "gone", CheckinEdit::default(), "sub", "kh", NOW),
        Err(UpdateCheckinError::NotFound)
    );
    assert_eq!(get_checkin(&db, "gone"), None);
}

#[test]
fn an_answer_is_missing_where_it_is_absent_or_null() {
    let mut db = Ledger::new();
    let template_id = seed_template(&mut db, false);
    let fields = list_fields(&db, &template_id);
    assert!(!missing_required_field(r#"{"skin_status":"ok"}"#, &fields));
    assert!(!missing_required_field(r#"{"skin_status":0}"#, &fields));
    assert!(!missing_required_field(r#"{"skin_status":false}"#, &fields));
    assert!(missing_required_field(r#"{"skin_status":null}"#, &fields));
    assert!(!missing_required_field(r#"{"skin_status":""}"#, &fields));
    assert!(missing_required_field(r#"{"other":"ok"}"#, &fields));
    assert!(missing_required_field("not json", &fields));
    assert!(missing_required_field(r#"["skin_status"]"#, &fields));
}

#[test]
fn only_the_owner_edits_a_form() {
    let mut db = Ledger::new();
    let template_id = seed_template(&mut db, false);
    let rename = || TemplateEdit { title: Some("Evening"), ..Default::default() };
    assert!(!update_template(&mut db, &template_id, "other", rename()));
    assert!(update_template(&mut db, &template_id, "kh", rename()));
    let template = get_template(&db, &template_id).unwrap();
    assert_eq!(template.title, "Evening");
    // Fields that an edit does not speak of stay.
    assert_eq!(list_fields(&db, &template_id).len(), 1);
    assert_eq!(list_templates_for_keyholder(&db, "kh").len(), 1);
    assert!(list_templates_for_keyholder(&db, "other").is_empty());
}

#[test]
fn fields_keep_the_order_that_they_were_given_in() {
    let mut db = Ledger::new();
    let fields = [field("b", "B", false), field("a", "A", false), field("c", "C", true)];
    let template_id = create_template(&mut db, "kh", "Form", Some("about"), true, &fields, NOW);
    let keys: Vec<String> =
        list_fields(&db, &template_id).into_iter().map(|f| f.field_key).collect();
    assert_eq!(keys, vec!["b", "a", "c"]);
    let positions: Vec<i64> = list_fields(&db, &template_id).iter().map(|f| f.position).collect();
    assert_eq!(positions, vec![0, 1, 2]);
}

#[test]
fn a_checkin_is_made_on_a_form_of_the_links_keyholder() {
    let (mut db, link) = with_link();
    let fields = [field("skin_status", "Skin status", true)];
    let theirs = create_template(&mut db, "another kh", "Theirs", None, true, &fields, NOW);
    let values = r#"{"skin_status":"normal"}"#;
    assert_eq!(
        create_checkin(&mut db, report(&link, &theirs, "red", values), "sub", NOW),
        Err(CreateCheckinError::TemplateNotFound)
    );
    let own = seed_template(&mut db, true);
    assert_eq!(
        create_checkin(&mut db, report("no-such-link", &own, "red", values), "sub", NOW),
        Err(CreateCheckinError::TemplateNotFound)
    );
    assert!(db.checkins.is_empty());
    assert!(db.alerts.is_empty());
    assert!(create_checkin(&mut db, report(&link, &own, "red", values), "sub", NOW).is_ok());
}
