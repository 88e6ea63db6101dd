use owners_ledger::domain::links;
use owners_ledger::domain::proofs::{
    get, get_attachment, list_attachments, list_for_links, list_for_submissive, review, submit,
    NewFile, NewSubmission, ReviewError, StorageError, StoredFile, SubmitError,
};
use owners_ledger::domain::verification::{codes, policy};
use owners_ledger::ledger::Ledger;

const NOW: i64 = 1_700_000_000;

fn setup() -> (Ledger, String) {
    let mut db = Ledger::new();
    let link_id = links::create(&mut db, "kh", "sub", NOW).unwrap();
    (db, link_id)
}

fn note(link_id: &str) -> NewSubmission<'_> {
    NewSubmission {
        submissive_id: "sub",
        link_id,
        verification_code_id: None,
        grace_period_seconds: 600,
        kind: "note",
        metadata: None,
        redo_of_submission_id: None,
        files: vec![],
    }
}

fn photo<'a>() -> NewFile<'a> {
    NewFile {
        content_type: "image/png",
        original_filename: Some("proof.png"),
        stored: Ok(StoredFile {
            storage_path: "ab/cdef.png".into(),
            byte_size: 69,
            sha256: "abcdef".into(),
        }),
    }
}

#[test]
fn submit_with_code_consumes_it_and_snapshots_the_value() {
    let (mut db, link_id) = setup();
    let policy = policy::get_for_link(&db, &link_id).unwrap();
    let code = codes::request_on_demand(&mut db, &policy, NOW).unwrap();

    let submission_id = submit(
        &mut db,
        NewSubmission {
            verification_code_id: Some(&code.id),
            grace_period_seconds: policy.grace_period_seconds,
            kind: "photo",
            files: vec![photo()],
            ..note(&link_id)
        },
        NOW,
    )
    .unwrap();

    let submission = get(&db, &submission_id).unwrap();
    assert_eq!(submission.verification_code_value.as_deref(), Some(code.code.as_str()));
    assert_eq!(submission.status, "pending");

    assert!(codes::current_unconsumed(&db, &link_id, NOW).is_none());

    let attachments = list_attachments(&db, &submission_id);
    assert_eq!(attachments.len(), 1);
    assert_eq!(attachments[0].mime_type, "image/png");
}

#[test]
fn submit_without_code_is_an_unscheduled_note() {
    let (mut db, link_id) = setup();

    let submission_id = submit(
        &mut db,
        NewSubmission { metadata: Some(r#"{"mood":"fine"}"#), ..note(&link_id) },
        NOW,
    )
    .unwrap();

    let submission = get(&db, &submission_id).unwrap();
    assert!(submission.verification_code_value.is_none());
}

#[test]
fn submit_with_invalid_code_is_rejected() {
    let (mut db, link_id) = setup();

    let result = submit(
        &mut db,
        NewSubmission { verification_code_id: Some("not-a-real-code"), ..note(&link_id) },
        NOW,
    );
    assert!(matches!(result, Err(SubmitError::InvalidOrExpiredCode)));
}

#[test]
fn review_then_second_review_is_rejected() {
    let (mut db, link_id) = setup();
    let submission_id = submit(&mut db, note(&link_id), NOW).unwrap();

    review(&mut db, &submission_id, &link_id, "verified", None, "kh", "session", NOW).unwrap();
    let second =
        review(&mut db, &submission_id, &link_id, "verified", None, "kh", "session", NOW);
    assert!(matches!(second, Err(ReviewError::NotReviewable)));

    let submission = get(&db, &submission_id).unwrap();
    assert_eq!(submission.status, "verified");
    assert_eq!(submission.reviewed_via.as_deref(), Some("session"));
}

#[test]
fn redo_chains_to_a_submission_in_redo_status() {
    let (mut db, link_id) = setup();
    let first_id = submit(&mut db, note(&link_id), NOW).unwrap();
    review(&mut db, &first_id, &link_id, "redo", Some("try again"), "kh", "session", NOW).unwrap();

    let redo_id = submit(
        &mut db,
        NewSubmission { redo_of_submission_id: Some(&first_id), ..note(&link_id) },
        NOW,
    )
    .unwrap();

    let redo = get(&db, &redo_id).unwrap();
    assert_eq!(redo.redo_of_submission_id.as_deref(), Some(first_id.as_str()));
}

#[test]
fn redo_against_a_non_redo_submission_is_rejected() {
    let (mut db, link_id) = setup();
    let first_id = submit(&mut db, note(&link_id), NOW).unwrap();

    let result = submit(
        &mut db,
        NewSubmission { redo_of_submission_id: Some(&first_id), ..note(&link_id) },
        NOW,
    );
    assert!(matches!(result, Err(SubmitError::InvalidRedoTarget)));
}

#[test]
fn list_for_links_spans_multiple_links() {
    let (mut db, link_id) = setup();
    submit(&mut db, note(&link_id), NOW).unwrap();

    let results = list_for_links(&db, std::slice::from_ref(&link_id));
    assert_eq!(results.len(), 1);

    let empty = list_for_links(&db, &[]);
    assert!(empty.is_empty());
}

#[test]
fn a_code_proves_one_submission() {
    let (mut db, link_id) = setup();
    let code = codes::issue(&mut db, &link_id, 900, NOW).unwrap();
    let with_code = || NewSubmission { verification_code_id: Some(&code.id), ..note(&link_id) };
    submit(&mut db, with_code(), NOW).unwrap();
    assert_eq!(submit(&mut db, with_code(), NOW), Err(SubmitError::InvalidOrExpiredCode));
}

#[test]
fn a_file_that_was_not_stored_stops_the_submission_and_keeps_the_code() {
    let (mut db, link_id) = setup();
    let code = codes::issue(&mut db, &link_id, 900, NOW).unwrap();
    let failing = |error: StorageError| NewSubmission {
        verification_code_id: Some(&code.id),
        files: vec![photo(), NewFile { stored: Err(error), ..photo() }],
        ..note(&link_id)
    };
    let unsupported = StorageError::UnsupportedContentType("text/html".into());
    assert!(matches!(
        submit(&mut db, failing(unsupported), NOW),
        Err(SubmitError::UnsupportedFile(_))
    ));
    assert_eq!(submit(&mut db, failing(StorageError::Io), NOW), Err(SubmitError::Io));
    assert!(db.submissions.is_empty() && db.attachments.is_empty());
    assert!(codes::current_unconsumed(&db, &link_id, NOW).is_some());
}

#[test]
fn attachments_are_found_by_id_and_keep_their_order() {
    let (mut db, link_id) = setup();
    let second = NewFile { content_type: "video/mp4", ..photo() };
    let id = submit(
        &mut db,
        NewSubmission { files: vec![photo(), second], ..note(&link_id) },
        NOW,
    )
    .unwrap();
    let attachments = list_attachments(&db, &id);
    assert_eq!(attachments[0].mime_type, "image/png");
    assert_eq!(attachments[1].mime_type, "video/mp4");
    assert_eq!(attachments[0].storage_path, "ab/cdef.png");
    assert_eq!(attachments[0].byte_size, 69);
    let found = get_attachment(&db, &attachments[1].id).unwrap();
    assert_eq!(found, attachments[1]);
    assert_eq!(get_attachment(&db, "gone"), None);
    assert_eq!(db.attachments[0].sha256, "abcdef");
}

#[test]
fn submissions_are_listed_newest_first() {
    let (mut db, link_id) = setup();
    let first = submit(&mut db, note(&link_id), NOW).unwrap();
    let second = submit(&mut db, note(&link_id), NOW + 1).unwrap();
    let ids: Vec<String> = list_for_submissive(&db, "sub").into_iter().map(|s| s.id).collect();
    assert_eq!(ids, vec![second, first]);
    assert!(list_for_submissive(&db, "other").is_empty());
}
