//! Proof submissions: submit, then review into verified, redo or failed.

use vstd::prelude::*;

use crate::domain::verification::codes;
use crate::ids::{are_ids, is_id, new_id, new_ids};
use crate::ledger::{Ledger, LedgerView};
use crate::table::{
    any, any_row, find, find_row, insert, lemma_any_same, lemma_find_any, lemma_find_only,
    lemma_listed, lemma_updated_none, only, order, ordered_from, rows, select, update, updated, Row,
};
use crate::text::{dup_opt, listed, own, own_opt, same};

verus! {

/// A proof submission.
#[derive(Debug, PartialEq, Eq)]
pub struct Submission {
    pub id: String,
    pub submissive_id: String,
    pub link_id: String,
    pub purpose: String,
    /// The code it redeemed.
    pub verification_code_id: Option<String>,
    pub verification_code_value: Option<String>,
    /// The assignment it proves completion of.
    pub assignment_id: Option<String>,
    pub kind: String,
    pub metadata: Option<String>,
    pub submitted_at: i64,
    pub status: String,
    pub reviewed_by_user_id: Option<String>,
    pub reviewed_at: Option<i64>,
    pub review_notes: Option<String>,
    pub reviewed_via: Option<String>,
    pub redo_of_submission_id: Option<String>,
}

/// What a `Submission` holds.
#[verifier::ext_equal]
pub struct SubmissionView {
    pub id: Seq<char>,
    pub submissive_id: Seq<char>,
    pub link_id: Seq<char>,
    pub purpose: Seq<char>,
    pub verification_code_id: Option<Seq<char>>,
    pub verification_code_value: Option<Seq<char>>,
    pub assignment_id: Option<Seq<char>>,
    pub kind: Seq<char>,
    pub metadata: Option<Seq<char>>,
    pub submitted_at: i64,
    pub status: Seq<char>,
    pub reviewed_by_user_id: Option<Seq<char>>,
    pub reviewed_at: Option<i64>,
    pub review_notes: Option<Seq<char>>,
    pub reviewed_via: Option<Seq<char>>,
    pub redo_of_submission_id: Option<Seq<char>>,
}

impl View for Submission {
    type V = SubmissionView;

    open spec fn view(&self) -> SubmissionView {
        SubmissionView {
            id: self.id@,
            submissive_id: self.submissive_id@,
            link_id: self.link_id@,
            purpose: self.purpose@,
            verification_code_id: self.verification_code_id.deep_view(),
            verification_code_value: self.verification_code_value.deep_view(),
            assignment_id: self.assignment_id.deep_view(),
            kind: self.kind@,
            metadata: self.metadata.deep_view(),
            submitted_at: self.submitted_at,
            status: self.status@,
            reviewed_by_user_id: self.reviewed_by_user_id.deep_view(),
            reviewed_at: self.reviewed_at,
            review_notes: self.review_notes.deep_view(),
            reviewed_via: self.reviewed_via.deep_view(),
            redo_of_submission_id: self.redo_of_submission_id.deep_view(),
        }
    }
}

impl DeepView for Submission {
    type V = SubmissionView;

    open spec fn deep_view(&self) -> SubmissionView {
        self.view()
    }
}

impl Row for Submission {
    fn dup(&self) -> (r: Self) {
        Submission {
            id: self.id.clone(),
            submissive_id: self.submissive_id.clone(),
            link_id: self.link_id.clone(),
            purpose: self.purpose.clone(),
            verification_code_id: dup_opt(&self.verification_code_id),
            verification_code_value: dup_opt(&self.verification_code_value),
            assignment_id: dup_opt(&self.assignment_id),
            kind: self.kind.clone(),
            metadata: dup_opt(&self.metadata),
            submitted_at: self.submitted_at,
            status: self.status.clone(),
            reviewed_by_user_id: dup_opt(&self.reviewed_by_user_id),
            reviewed_at: self.reviewed_at,
            review_notes: dup_opt(&self.review_notes),
            reviewed_via: dup_opt(&self.reviewed_via),
            redo_of_submission_id: dup_opt(&self.redo_of_submission_id),
        }
    }
}

/// A file of a submission.
#[derive(Debug, PartialEq, Eq)]
pub struct Attachment {
    pub id: String,
    pub storage_path: String,
    pub original_filename: Option<String>,
    pub mime_type: String,
    pub byte_size: i64,
}

/// What an `Attachment` holds.
#[verifier::ext_equal]
pub struct AttachmentView {
    pub id: Seq<char>,
    pub storage_path: Seq<char>,
    pub original_filename: Option<Seq<char>>,
    pub mime_type: Seq<char>,
    pub byte_size: i64,
}

impl View for Attachment {
    type V = AttachmentView;

    open spec fn view(&self) -> AttachmentView {
        AttachmentView {
            id: self.id@,
            storage_path: self.storage_path@,
            original_filename: self.original_filename.deep_view(),
            mime_type: self.mime_type@,
            byte_size: self.byte_size,
        }
    }
}

impl DeepView for Attachment {
    type V = AttachmentView;

    open spec fn deep_view(&self) -> AttachmentView {
        self.view()
    }
}

impl Row for Attachment {
    fn dup(&self) -> (r: Self) {
        Attachment {
            id: self.id.clone(),
            storage_path: self.storage_path.clone(),
            original_filename: dup_opt(&self.original_filename),
            mime_type: self.mime_type.clone(),
            byte_size: self.byte_size,
        }
    }
}

/// A stored file of a submission.
#[derive(Debug, PartialEq, Eq)]
pub struct AttachmentRow {
    pub submission_id: String,
    pub attachment: Attachment,
    pub sha256: String,
    pub uploaded_at: i64,
}

/// What an `AttachmentRow` holds.
#[verifier::ext_equal]
pub struct AttachmentRowView {
    pub submission_id: Seq<char>,
    pub attachment: AttachmentView,
    pub sha256: Seq<char>,
    pub uploaded_at: i64,
}

impl View for AttachmentRow {
    type V = AttachmentRowView;

    open spec fn view(&self) -> AttachmentRowView {
        AttachmentRowView {
            submission_id: self.submission_id@,
            attachment: self.attachment@,
            sha256: self.sha256@,
            uploaded_at: self.uploaded_at,
        }
    }
}

impl DeepView for AttachmentRow {
    type V = AttachmentRowView;

    open spec fn deep_view(&self) -> AttachmentRowView {
        self.view()
    }
}

impl Row for AttachmentRow {
    fn dup(&self) -> (r: Self) {
        AttachmentRow {
            submission_id: self.submission_id.clone(),
            attachment: self.attachment.dup(),
            sha256: self.sha256.clone(),
            uploaded_at: self.uploaded_at,
        }
    }
}

/// Where a file was stored.
#[derive(Debug, PartialEq, Eq)]
pub struct StoredFile {
    pub storage_path: String,
    pub byte_size: i64,
    pub sha256: String,
}

/// What a `StoredFile` holds.
#[verifier::ext_equal]
pub struct StoredFileView {
    pub storage_path: Seq<char>,
    pub byte_size: i64,
    pub sha256: Seq<char>,
}

impl View for StoredFile {
    type V = StoredFileView;

    open spec fn view(&self) -> StoredFileView {
        StoredFileView {
            storage_path: self.storage_path@,
            byte_size: self.byte_size,
            sha256: self.sha256@,
        }
    }
}

impl DeepView for StoredFile {
    type V = StoredFileView;

    open spec fn deep_view(&self) -> StoredFileView {
        self.view()
    }
}

impl Row for StoredFile {
    fn dup(&self) -> (r: Self) {
        StoredFile {
            storage_path: self.storage_path.clone(),
            byte_size: self.byte_size,
            sha256: self.sha256.clone(),
        }
    }
}

/// Why a file could not be stored.
#[derive(Debug, PartialEq, Eq)]
pub enum StorageError {
    /// The content type is not one that is kept.
    UnsupportedContentType(String),
    /// The bytes are not the image that they claim to be.
    InvalidImage,
    /// The disk failed.
    Io,
}

/// What a `StorageError` holds.
#[verifier::ext_equal]
pub enum StorageErrorView {
    UnsupportedContentType(Seq<char>),
    InvalidImage,
    Io,
}

impl View for StorageError {
    type V = StorageErrorView;

    open spec fn view(&self) -> StorageErrorView {
        match self {
            StorageError::UnsupportedContentType(t) => StorageErrorView::UnsupportedContentType(
                t@,
            ),
            StorageError::InvalidImage => StorageErrorView::InvalidImage,
            StorageError::Io => StorageErrorView::Io,
        }
    }
}

impl StorageError {
    /// A copy.
    pub fn dup(&self) -> (r: StorageError)
        ensures
            r@ == self@,
    {
        match self {
            StorageError::UnsupportedContentType(t) => StorageError::UnsupportedContentType(
                t.clone(),
            ),
            StorageError::InvalidImage => StorageError::InvalidImage,
            StorageError::Io => StorageError::Io,
        }
    }
}

/// A file that comes with a submission, and how storing it went.
#[derive(Debug, PartialEq, Eq)]
pub struct NewFile<'a> {
    pub content_type: &'a str,
    pub original_filename: Option<&'a str>,
    pub stored: Result<StoredFile, StorageError>,
}

/// What a `NewFile` holds.
#[verifier::ext_equal]
pub struct NewFileView {
    pub content_type: Seq<char>,
    pub original_filename: Option<Seq<char>>,
    pub stored: Result<StoredFileView, StorageErrorView>,
}

impl<'a> View for NewFile<'a> {
    type V = NewFileView;

    open spec fn view(&self) -> NewFileView {
        NewFileView {
            content_type: self.content_type@,
            original_filename: self.original_filename.deep_view(),
            stored: match self.stored {
                Ok(f) => Ok(f@),
                Err(e) => Err(e@),
            },
        }
    }
}

impl<'a> DeepView for NewFile<'a> {
    type V = NewFileView;

    open spec fn deep_view(&self) -> NewFileView {
        self.view()
    }
}

/// What a new submission is made from.
#[derive(Debug, PartialEq, Eq)]
pub struct NewSubmission<'a> {
    pub submissive_id: &'a str,
    pub link_id: &'a str,
    /// `Some` redeems that code, `None` is an unscheduled note.
    pub verification_code_id: Option<&'a str>,
    pub grace_period_seconds: i64,
    pub kind: &'a str,
    pub metadata: Option<&'a str>,
    pub redo_of_submission_id: Option<&'a str>,
    pub files: Vec<NewFile<'a>>,
}

/// What a `NewSubmission` holds.
#[verifier::ext_equal]
pub struct NewSubmissionView {
    pub submissive_id: Seq<char>,
    pub link_id: Seq<char>,
    pub verification_code_id: Option<Seq<char>>,
    pub grace_period_seconds: i64,
    pub kind: Seq<char>,
    pub metadata: Option<Seq<char>>,
    pub redo_of_submission_id: Option<Seq<char>>,
    pub files: Seq<NewFileView>,
}

impl<'a> View for NewSubmission<'a> {
    type V = NewSubmissionView;

    open spec fn view(&self) -> NewSubmissionView {
        NewSubmissionView {
            submissive_id: self.submissive_id@,
            link_id: self.link_id@,
            verification_code_id: self.verification_code_id.deep_view(),
            grace_period_seconds: self.grace_period_seconds,
            kind: self.kind@,
            metadata: self.metadata.deep_view(),
            redo_of_submission_id: self.redo_of_submission_id.deep_view(),
            files: self.files.deep_view(),
        }
    }
}

/// Why a submission was not taken.
#[derive(Debug, PartialEq, Eq)]
pub enum SubmitError {
    /// The code is missing, expired, consumed, or not this link's.
    InvalidOrExpiredCode,
    /// The submission to redo is not this submissive's, or does not wait for a redo.
    InvalidRedoTarget,
    /// A file cannot be kept.
    UnsupportedFile(String),
    /// The disk failed.
    Io,
}

/// What a `SubmitError` holds.
#[verifier::ext_equal]
pub enum SubmitErrorView {
    InvalidOrExpiredCode,
    InvalidRedoTarget,
    UnsupportedFile(Seq<char>),
    Io,
}

impl View for SubmitError {
    type V = SubmitErrorView;

    open spec fn view(&self) -> SubmitErrorView {
        match self {
            SubmitError::InvalidOrExpiredCode => SubmitErrorView::InvalidOrExpiredCode,
            SubmitError::InvalidRedoTarget => SubmitErrorView::InvalidRedoTarget,
            SubmitError::UnsupportedFile(s) => SubmitErrorView::UnsupportedFile(s@),
            SubmitError::Io => SubmitErrorView::Io,
        }
    }
}

/// How a storage failure is reported.
pub open spec fn submit_error(e: StorageErrorView) -> SubmitErrorView {
    match e {
        StorageErrorView::UnsupportedContentType(t) => SubmitErrorView::UnsupportedFile(t),
        StorageErrorView::InvalidImage => SubmitErrorView::UnsupportedFile(
            "file is not a valid image"@,
        ),
        StorageErrorView::Io => SubmitErrorView::Io,
    }
}

impl SubmitError {
    /// Reports a storage failure.
    pub fn from_storage(e: &StorageError) -> (r: SubmitError)
        ensures
            r@ == submit_error(e@),
    {
        match e {
            StorageError::UnsupportedContentType(t) => SubmitError::UnsupportedFile(t.clone()),
            StorageError::InvalidImage => SubmitError::UnsupportedFile(
                own("file is not a valid image"),
            ),
            StorageError::Io => SubmitError::Io,
        }
    }
}

/// The failure of the first file that could not be stored.
pub open spec fn first_failure(files: Seq<NewFileView>) -> Option<StorageErrorView>
    decreases files.len(),
{
    if files.len() == 0 {
        None
    } else {
        match files[0].stored {
            Err(e) => Some(e),
            Ok(_) => first_failure(files.drop_first()),
        }
    }
}

/// `first_failure` from an index on.
proof fn lemma_first_failure_skip(files: Seq<NewFileView>, i: int)
    requires
        0 <= i < files.len(),
    ensures
        first_failure(files.skip(i)) == (match files[i].stored {
            Err(e) => Some(e),
            Ok(_) => first_failure(files.skip(i + 1)),
        }),
{
    assert(files.skip(i)[0] == files[i]);
    assert(files.skip(i).drop_first() =~= files.skip(i + 1));
}

/// `first_failure` finds nothing exactly when every file was stored.
pub proof fn lemma_all_stored(files: Seq<NewFileView>)
    ensures
        first_failure(files) is None <==> (forall|i: int|
            0 <= i < files.len() ==> (#[trigger] files[i]).stored is Ok),
    decreases files.len(),
{
    if files.len() > 0 {
        let rest = files.drop_first();
        lemma_all_stored(rest);
        if first_failure(files) is None {
            assert forall|i: int| 0 <= i < files.len() implies (#[trigger] files[i]).stored is Ok by {
                if i > 0 {
                    assert(rest[i - 1] == files[i]);
                }
            }
        } else if forall|i: int| 0 <= i < files.len() ==> (#[trigger] files[i]).stored is Ok {
            assert(files[0].stored is Ok);
            assert forall|i: int| 0 <= i < rest.len() implies (#[trigger] rest[i]).stored is Ok by {
                assert(rest[i] == files[i + 1]);
            }
        }
    }
}

/// Looks for a file that could not be stored.
pub(crate) fn find_failure<'a, 'b>(files: &'a Vec<NewFile<'b>>) -> (r: Option<&'a StorageError>)
    ensures
        match r {
            Some(e) => first_failure(files.deep_view()) == Some(e@),
            None => first_failure(files.deep_view()) is None,
        },
{
    let mut i: usize = 0;
    assert(files.deep_view().skip(0) =~= files.deep_view());
    while i < files.len()
        invariant
            i <= files@.len(),
            first_failure(files.deep_view()) == first_failure(files.deep_view().skip(i as int)),
        decreases files@.len() - i,
    {
        proof {
            lemma_first_failure_skip(files.deep_view(), i as int);
            assert(files.deep_view()[i as int] == files@[i as int]@);
        }
        match &files[i].stored {
            Err(e) => {
                return Some(e);
            },
            Ok(_) => {},
        }
        i = i + 1;
    }
    None
}

/// The row that a stored file becomes.
pub open spec fn attachment_row(
    file: NewFileView,
    id: Seq<char>,
    submission_id: Seq<char>,
    now: i64,
) -> AttachmentRowView {
    AttachmentRowView {
        submission_id,
        attachment: AttachmentView {
            id,
            storage_path: file.stored->Ok_0.storage_path,
            original_filename: file.original_filename,
            mime_type: file.content_type,
            byte_size: file.stored->Ok_0.byte_size,
        },
        sha256: file.stored->Ok_0.sha256,
        uploaded_at: now,
    }
}

/// The rows that stored files become, in order.
pub open spec fn attachment_rows(
    files: Seq<NewFileView>,
    ids: Seq<Seq<char>>,
    submission_id: Seq<char>,
    now: i64,
) -> Seq<AttachmentRowView> {
    Seq::new(files.len(), |i: int| attachment_row(files[i], ids[i], submission_id, now))
}

/// Attaches stored files to a submission.
pub(crate) fn attach(
    db: &mut Ledger,
    files: &Vec<NewFile>,
    ids: &Vec<String>,
    submission_id: &str,
    now: i64,
)
    requires
        first_failure(files.deep_view()) is None,
        ids@.len() >= files@.len(),
    ensures
        final(db)@ == (LedgerView {
            attachments: old(db)@.attachments + attachment_rows(
                files.deep_view(),
                ids.deep_view(),
                submission_id@,
                now,
            ),
            ..old(db)@
        }),
{
    proof {
        lemma_all_stored(files.deep_view());
    }
    let ghost new = attachment_rows(files.deep_view(), ids.deep_view(), submission_id@, now);
    let ghost before = db@;
    let mut i: usize = 0;
    assert(before.attachments + new.take(0) =~= before.attachments);
    while i < files.len()
        invariant
            i <= files@.len(),
            ids@.len() >= files@.len(),
            new == attachment_rows(files.deep_view(), ids.deep_view(), submission_id@, now),
            forall|j: int|
                0 <= j < files.deep_view().len() ==> (#[trigger] files.deep_view()[j]).stored is Ok,
            db@ == (LedgerView { attachments: before.attachments + new.take(i as int), ..before }),
        decreases files@.len() - i,
    {
        assert(files.deep_view()[i as int].stored is Ok);
        match &files[i].stored {
            Ok(f) => {
                insert(
                    &mut db.attachments,
                    AttachmentRow {
                        submission_id: own(submission_id),
                        attachment: Attachment {
                            id: ids[i].clone(),
                            storage_path: f.storage_path.clone(),
                            original_filename: own_opt(files[i].original_filename),
                            mime_type: own(files[i].content_type),
                            byte_size: f.byte_size,
                        },
                        sha256: f.sha256.clone(),
                        uploaded_at: now,
                    },
                );
                assert(before.attachments + new.take(i + 1) =~= (before.attachments + new.take(
                    i as int,
                )).push(new[i as int]));
            },
            Err(_) => {},
        }
        i = i + 1;
    }
    assert(new.take(files@.len() as int) =~= new);
}

/// The submission waits for this submissive's redo.
pub open spec fn redo_target(id: Seq<char>, submissive_id: Seq<char>) -> spec_fn(
    SubmissionView,
) -> bool {
    |s: SubmissionView| s.id == id && s.submissive_id == submissive_id && s.status == "redo"@
}

/// Whether a submission may be made, and the code that it redeems.
pub open spec fn admitted(db: LedgerView, new: NewSubmissionView, now: i64) -> Result<
    Option<codes::CodeView>,
    SubmitErrorView,
> {
    let code = match new.verification_code_id {
        Some(id) => find_row(
            db.codes,
            codes::redeemable(id, new.link_id, new.grace_period_seconds, now),
        ),
        None => None,
    };
    if new.verification_code_id is Some && code is None {
        Err(SubmitErrorView::InvalidOrExpiredCode)
    } else if new.redo_of_submission_id matches Some(redo) && !any_row(
        db.submissions,
        redo_target(redo, new.submissive_id),
    ) {
        Err(SubmitErrorView::InvalidRedoTarget)
    } else {
        Ok(code)
    }
}

/// Checks what can be checked before any file is written.
pub fn check(db: &Ledger, new: &NewSubmission, now: i64) -> (r: Result<Option<codes::Code>, SubmitError>)
    ensures
        match admitted(db@, new@, now) {
            Ok(code) => r is Ok && r->Ok_0.deep_view() == code,
            Err(e) => r is Err && r->Err_0@ == e,
        },
{
    let code = match new.verification_code_id {
        Some(id) => match codes::load_for_redemption(
            db,
            id,
            new.link_id,
            new.grace_period_seconds,
            now,
        ) {
            Some(c) => Some(c),
            None => {
                return Err(SubmitError::InvalidOrExpiredCode);
            },
        },
        None => None,
    };
    if let Some(redo) = new.redo_of_submission_id {
        let submissive_id = new.submissive_id;
        let ghost p = redo_target(redo@, submissive_id@);
        let test = |s: &Submission| -> (b: bool)
            ensures
                b == p(s@),
            {
                same(s.id.as_str(), redo) && same(s.submissive_id.as_str(), submissive_id)
                    && same(s.status.as_str(), "redo")
            };
        if !any(&db.submissions, Ghost(p), test) {
            return Err(SubmitError::InvalidRedoTarget);
        }
    }
    Ok(code)
}

/// A submission as it comes in: it waits for review.
pub open spec fn pending_submission(
    id: Seq<char>,
    submissive_id: Seq<char>,
    link_id: Seq<char>,
    purpose: Seq<char>,
    kind: Seq<char>,
    metadata: Option<Seq<char>>,
    now: i64,
) -> SubmissionView {
    SubmissionView {
        id,
        submissive_id,
        link_id,
        purpose,
        verification_code_id: None,
        verification_code_value: None,
        assignment_id: None,
        kind,
        metadata,
        submitted_at: now,
        status: "pending"@,
        reviewed_by_user_id: None,
        reviewed_at: None,
        review_notes: None,
        reviewed_via: None,
        redo_of_submission_id: None,
    }
}

/// The ledger after a submission: the submission and its files are there, and the code that it
/// redeemed is consumed by it.
pub open spec fn submitted(
    db: LedgerView,
    new: NewSubmissionView,
    id: Seq<char>,
    file_ids: Seq<Seq<char>>,
    now: i64,
) -> Result<LedgerView, SubmitErrorView> {
    match admitted(db, new, now) {
        Err(e) => Err(e),
        Ok(code) => match first_failure(new.files) {
            Some(e) => Err(submit_error(e)),
            None => Ok(
                LedgerView {
                    submissions: db.submissions.push(
                        SubmissionView {
                            verification_code_id: new.verification_code_id,
                            verification_code_value: match code {
                                Some(c) => Some(c.code),
                                None => None,
                            },
                            redo_of_submission_id: new.redo_of_submission_id,
                            ..pending_submission(
                                id,
                                new.submissive_id,
                                new.link_id,
                                "verification"@,
                                new.kind,
                                new.metadata,
                                now,
                            )
                        },
                    ),
                    attachments: db.attachments + attachment_rows(new.files, file_ids, id, now),
                    codes: match code {
                        Some(c) => updated(db.codes, codes::by_id(c.id), codes::consumed(id, now)),
                        None => db.codes,
                    },
                    ..db
                },
            ),
        },
    }
}

/// Takes a submission under the ids given, one for it and one for each file.
pub fn submit_as(
    db: &mut Ledger,
    new: NewSubmission,
    id: String,
    file_ids: Vec<String>,
    now: i64,
) -> (r: Result<(), SubmitError>)
    requires
        file_ids@.len() >= new.files@.len(),
    ensures
        match submitted(old(db)@, new@, id@, file_ids.deep_view(), now) {
            Ok(after) => r is Ok && final(db)@ == after,
            Err(e) => r is Err && r->Err_0@ == e && final(db)@ == old(db)@,
        },
{
    let code = match check(db, &new, now) {
        Ok(c) => c,
        Err(e) => {
            return Err(e);
        },
    };
    if let Some(e) = find_failure(&new.files) {
        return Err(SubmitError::from_storage(e));
    }
    let code_value: Option<String> = match &code {
        Some(c) => Some(c.code.clone()),
        None => None,
    };
    insert(
        &mut db.submissions,
        Submission {
            id: id.clone(),
            submissive_id: own(new.submissive_id),
            link_id: own(new.link_id),
            purpose: own("verification"),
            verification_code_id: own_opt(new.verification_code_id),
            verification_code_value: code_value,
            assignment_id: None,
            kind: own(new.kind),
            metadata: own_opt(new.metadata),
            submitted_at: now,
            status: own("pending"),
            reviewed_by_user_id: None,
            reviewed_at: None,
            review_notes: None,
            reviewed_via: None,
            redo_of_submission_id: own_opt(new.redo_of_submission_id),
        },
    );
    attach(db, &new.files, &file_ids, id.as_str(), now);
    if let Some(c) = &code {
        codes::consume(db, c.id.as_str(), id.as_str(), now);
    }
    Ok(())
}

/// Takes a submission.
pub fn submit(db: &mut Ledger, new: NewSubmission, now: i64) -> (r: Result<String, SubmitError>)
    ensures
        exists|id: Seq<char>, file_ids: Seq<Seq<char>>|
            is_id(id) && are_ids(file_ids, new@.files.len())
                && match #[trigger] submitted(old(db)@, new@, id, file_ids, now) {
                Ok(after) => r is Ok && r->Ok_0@ == id && final(db)@ == after,
                Err(e) => r is Err && r->Err_0@ == e && final(db)@ == old(db)@,
            },
{
    let id = new_id();
    let file_ids = new_ids(new.files.len());
    let ghost ids = file_ids.deep_view();
    let ghost given = new@;
    match submit_as(db, new, id.clone(), file_ids, now) {
        Ok(()) => Ok(id),
        Err(e) => {
            assert(submitted(old(db)@, given, id@, ids, now) is Err);
            Err(e)
        },
    }
}

/// The submission has this id.
pub open spec fn by_id(id: Seq<char>) -> spec_fn(SubmissionView) -> bool {
    |s: SubmissionView| s.id == id
}

/// The submission with this id.
pub fn get(db: &Ledger, submission_id: &str) -> (r: Option<Submission>)
    ensures
        r.deep_view() == find_row(db@.submissions, by_id(submission_id@)),
{
    let ghost p = by_id(submission_id@);
    let test = |s: &Submission| -> (b: bool)
        ensures
            b == p(s@),
        { same(s.id.as_str(), submission_id) };
    match find(&db.submissions, Ghost(p), test) {
        Some(s) => Some(s.dup()),
        None => None,
    }
}

/// A file of this submission.
pub open spec fn attached_to(submission_id: Seq<char>) -> spec_fn(AttachmentRowView) -> bool {
    |a: AttachmentRowView| a.submission_id == submission_id
}

/// In the order of upload.
pub open spec fn by_upload() -> spec_fn(AttachmentRowView, AttachmentRowView) -> bool {
    |a: AttachmentRowView, b: AttachmentRowView| a.uploaded_at <= b.uploaded_at
}

/// As listings show it.
pub open spec fn shown() -> spec_fn(AttachmentRowView) -> AttachmentView {
    |a: AttachmentRowView| a.attachment
}

/// The files of a submission, in the order of upload.
pub fn list_attachments(db: &Ledger, submission_id: &str) -> (r: Vec<Attachment>)
    ensures
        exists|found: Seq<AttachmentRowView>|
            ordered_from(
                found,
                db@.attachments.filter(attached_to(submission_id@)),
                by_upload(),
            ) && rows(r@) == #[trigger] found.map_values(shown()),
{
    let ghost p = attached_to(submission_id@);
    let ghost le = by_upload();
    let test = |a: &AttachmentRow| -> (b: bool)
        ensures
            b == p(a@),
        { same(a.submission_id.as_str(), submission_id) };
    let before = |a: &AttachmentRow, b: &AttachmentRow| -> (c: bool)
        ensures
            c == le(a@, b@),
        { a.uploaded_at <= b.uploaded_at };
    let found = order(select(&db.attachments, Ghost(p), test), Ghost(le), before);
    let mut out: Vec<Attachment> = Vec::new();
    let mut i: usize = 0;
    while i < found.len()
        invariant
            i <= found@.len(),
            out@.len() == i,
            forall|j: int| 0 <= j < i ==> #[trigger] out@[j]@ == found@[j]@.attachment,
        decreases found@.len() - i,
    {
        out.push(found[i].attachment.dup());
        i = i + 1;
    }
    assert(rows(out@) =~= rows(found@).map_values(shown()));
    out
}

/// The file has this id.
pub open spec fn attachment_by_id(id: Seq<char>) -> spec_fn(AttachmentRowView) -> bool {
    |a: AttachmentRowView| a.attachment.id == id
}

/// The file with this id.
pub fn get_attachment(db: &Ledger, attachment_id: &str) -> (r: Option<Attachment>)
    ensures
        r.deep_view() == (match find_row(db@.attachments, attachment_by_id(attachment_id@)) {
            Some(a) => Some(a.attachment),
            None => None,
        }),
{
    let ghost p = attachment_by_id(attachment_id@);
    let test = |a: &AttachmentRow| -> (b: bool)
        ensures
            b == p(a@),
        { same(a.attachment.id.as_str(), attachment_id) };
    match find(&db.attachments, Ghost(p), test) {
        Some(a) => Some(a.attachment.dup()),
        None => None,
    }
}

/// Newest first.
pub open spec fn newest_first() -> spec_fn(SubmissionView, SubmissionView) -> bool {
    |a: SubmissionView, b: SubmissionView| a.submitted_at >= b.submitted_at
}

/// A submission of this submissive.
pub open spec fn of_submissive(submissive_id: Seq<char>) -> spec_fn(SubmissionView) -> bool {
    |s: SubmissionView| s.submissive_id == submissive_id
}

/// A submissive's submissions, newest first.
pub fn list_for_submissive(db: &Ledger, submissive_id: &str) -> (r: Vec<Submission>)
    ensures
        ordered_from(
            rows(r@),
            db@.submissions.filter(of_submissive(submissive_id@)),
            newest_first(),
        ),
{
    let ghost p = of_submissive(submissive_id@);
    let ghost le = newest_first();
    let test = |s: &Submission| -> (b: bool)
        ensures
            b == p(s@),
        { same(s.submissive_id.as_str(), submissive_id) };
    let before = |a: &Submission, b: &Submission| -> (c: bool)
        ensures
            c == le(a@, b@),
        { a.submitted_at >= b.submitted_at };
    order(select(&db.submissions, Ghost(p), test), Ghost(le), before)
}

/// A submission on one of these links.
pub open spec fn of_links(link_ids: Seq<Seq<char>>) -> spec_fn(SubmissionView) -> bool {
    |s: SubmissionView| link_ids.contains(s.link_id)
}

/// The submissions on a set of links, newest first.
pub fn list_for_links(db: &Ledger, link_ids: &[String]) -> (r: Vec<Submission>)
    ensures
        ordered_from(
            rows(r@),
            db@.submissions.filter(of_links(link_ids.deep_view())),
            newest_first(),
        ),
{
    let ghost p = of_links(link_ids.deep_view());
    let ghost le = newest_first();
    let test = |s: &Submission| -> (b: bool)
        ensures
            b == p(s@),
        { listed(link_ids, s.link_id.as_str()) };
    let before = |a: &Submission, b: &Submission| -> (c: bool)
        ensures
            c == le(a@, b@),
        { a.submitted_at >= b.submitted_at };
    order(select(&db.submissions, Ghost(p), test), Ghost(le), before)
}

/// Why a submission was not reviewed.
#[derive(Clone, Copy, Debug, PartialEq, Eq, Structural)]
pub enum ReviewError {
    /// It is not on this link, or it does not wait for review.
    NotReviewable,
}

/// A submission on this link that waits for review.
pub open spec fn reviewable(id: Seq<char>, link_id: Seq<char>) -> spec_fn(SubmissionView) -> bool {
    |s: SubmissionView| s.id == id && s.link_id == link_id && s.status == "pending"@
}

/// With a verdict on it.
pub open spec fn with_verdict(
    status: Seq<char>,
    notes: Option<Seq<char>>,
    by: Seq<char>,
    via: Seq<char>,
    now: i64,
) -> spec_fn(SubmissionView) -> SubmissionView {
    |s: SubmissionView|
        SubmissionView {
            status,
            reviewed_by_user_id: Some(by),
            reviewed_at: Some(now),
            review_notes: notes,
            reviewed_via: Some(via),
            ..s
        }
}

/// The ledger after a review: only a submission that waits for one takes a verdict.
pub open spec fn reviewed(
    db: LedgerView,
    id: Seq<char>,
    link_id: Seq<char>,
    status: Seq<char>,
    notes: Option<Seq<char>>,
    by: Seq<char>,
    via: Seq<char>,
    now: i64,
) -> Result<LedgerView, ReviewError> {
    if any_row(db.submissions, reviewable(id, link_id)) {
        Ok(
            LedgerView {
                submissions: updated(
                    db.submissions,
                    reviewable(id, link_id),
                    with_verdict(status, notes, by, via, now),
                ),
                ..db
            },
        )
    } else {
        Err(ReviewError::NotReviewable)
    }
}

/// Reviews a submission.
pub fn review(
    db: &mut Ledger,
    submission_id: &str,
    link_id: &str,
    status: &str,
    review_notes: Option<&str>,
    reviewed_by_user_id: &str,
    reviewed_via: &str,
    now: i64,
) -> (r: Result<(), ReviewError>)
    ensures
        match reviewed(
            old(db)@,
            submission_id@,
            link_id@,
            status@,
            review_notes.deep_view(),
            reviewed_by_user_id@,
            reviewed_via@,
            now,
        ) {
            Ok(after) => r is Ok && final(db)@ == after,
            Err(e) => r == Err::<(), ReviewError>(e) && final(db)@ == old(db)@,
        },
{
    let ghost p = reviewable(submission_id@, link_id@);
    let ghost u = with_verdict(
        status@,
        review_notes.deep_view(),
        reviewed_by_user_id@,
        reviewed_via@,
        now,
    );
    let change = |s: &Submission| -> (n: Option<Submission>)
        ensures
            match n {
                Some(x) => p(s@) && x@ == u(s@),
                None => !p(s@),
            },
        {
            if same(s.id.as_str(), submission_id) && same(s.link_id.as_str(), link_id)
                && same(s.status.as_str(), "pending") {
                let mut n = s.dup();
                n.status = own(status);
                n.reviewed_by_user_id = Some(own(reviewed_by_user_id));
                n.reviewed_at = Some(now);
                n.review_notes = own_opt(review_notes);
                n.reviewed_via = Some(own(reviewed_via));

                Some(n)
            } else {
                None
            }
        };
    if update(&mut db.submissions, Ghost(p), Ghost(u), change) {
        Ok(())
    } else {
        proof {
            lemma_updated_none(old(db)@.submissions, p, u);
        }
        Err(ReviewError::NotReviewable)
    }
}

/// A submission that was reviewed is settled: nobody can review it a second time.
pub proof fn law_reviewed_once(
    db: LedgerView,
    id: Seq<char>,
    link_id: Seq<char>,
    status: Seq<char>,
    notes: Option<Seq<char>>,
    by: Seq<char>,
    via: Seq<char>,
    again: Seq<char>,
    now: i64,
    later: i64,
)
    requires
        status != "pending"@,
        reviewed(db, id, link_id, status, notes, by, via, now) is Ok,
    ensures
        reviewed(
            reviewed(db, id, link_id, status, notes, by, via, now)->Ok_0,
            id,
            link_id,
            again,
            notes,
            by,
            via,
            later,
        ) == Err::<LedgerView, ReviewError>(ReviewError::NotReviewable),
{
    let after = updated(
        db.submissions,
        reviewable(id, link_id),
        with_verdict(status, notes, by, via, now),
    );
    assert forall|i: int| 0 <= i < after.len() implies !reviewable(id, link_id)(
        #[trigger] after[i],
    ) by {}
}

/// A code is good for one submission: the one that redeemed it used it up.
pub proof fn law_code_proves_once(
    db: LedgerView,
    new: NewSubmissionView,
    id: Seq<char>,
    file_ids: Seq<Seq<char>>,
    again: NewSubmissionView,
    second: Seq<char>,
    more: Seq<Seq<char>>,
    now: i64,
    later: i64,
)
    requires
        new.verification_code_id is Some,
        again.verification_code_id == new.verification_code_id,
        submitted(db, new, id, file_ids, now) is Ok,
    ensures
        submitted(submitted(db, new, id, file_ids, now)->Ok_0, again, second, more, later) == Err::<
            LedgerView,
            SubmitErrorView,
        >(SubmitErrorView::InvalidOrExpiredCode),
{
    lemma_find_any(
        db.codes,
        codes::redeemable(
            new.verification_code_id->0,
            new.link_id,
            new.grace_period_seconds,
            now,
        ),
    );
    codes::law_consumed_code_is_spent(
        db.codes,
        new.verification_code_id->0,
        id,
        again.link_id,
        again.grace_period_seconds,
        now,
        later,
    );
}

/// A submission that comes in waits for review, and carries the text of the code that it redeemed.
pub proof fn law_submissions_wait_for_review(
    db: LedgerView,
    new: NewSubmissionView,
    id: Seq<char>,
    file_ids: Seq<Seq<char>>,
    now: i64,
)
    ensures
        submitted(db, new, id, file_ids, now) matches Ok(after) ==> {
            let s = after.submissions.last();
            &&& after.submissions.len() == db.submissions.len() + 1
            &&& s.id == id && s.status == "pending"@ && s.reviewed_at is None
            &&& s.verification_code_value is Some == (new.verification_code_id is Some)
            &&& any_row(after.submissions, reviewable(id, new.link_id))
        },
{
    if let Ok(after) = submitted(db, new, id, file_ids, now) {
        let k = db.submissions.len() as int;
        assert(reviewable(id, new.link_id)(after.submissions[k]));
    }
}

/// A failure is reported exactly where some file could not be stored.
pub(crate) proof fn lemma_first_failure(files: Seq<NewFileView>)
    ensures
        first_failure(files) is Some <==> exists|i: int|
            0 <= i < files.len() && (#[trigger] files[i]).stored is Err,
    decreases files.len(),
{
    if files.len() > 0 {
        let rest = files.drop_first();
        lemma_first_failure(rest);
        if files[0].stored is Err {
            assert(files[0].stored is Err);
        } else {
            if exists|i: int| 0 <= i < rest.len() && (#[trigger] rest[i]).stored is Err {
                let i = choose|i: int| 0 <= i < rest.len() && (#[trigger] rest[i]).stored is Err;
                assert(files[i + 1].stored is Err);
            }
            if exists|i: int| 0 <= i < files.len() && (#[trigger] files[i]).stored is Err {
                let i = choose|i: int| 0 <= i < files.len() && (#[trigger] files[i]).stored is Err;
                assert(rest[i - 1].stored is Err);
            }
        }
    }
}

/// The failure that is reported is that of the first file that could not be stored.
pub proof fn law_the_first_failure_is_reported(files: Seq<NewFileView>, k: int)
    requires
        0 <= k < files.len(),
        files[k].stored is Err,
        forall|i: int| 0 <= i < k ==> (#[trigger] files[i]).stored is Ok,
    ensures
        first_failure(files) == Some(files[k].stored->Err_0),
    decreases k,
{
    if k > 0 {
        let rest = files.drop_first();
        assert forall|i: int| 0 <= i < k - 1 implies (#[trigger] rest[i]).stored is Ok by {
            assert(files[i + 1].stored is Ok);
        }
        assert(files[0].stored is Ok);
        law_the_first_failure_is_reported(rest, k - 1);
    }
}

/// A storage failure is reported for what it is: a type that is not taken by its name, a file that is
/// no image as such, and everything else as a failure to store.
pub proof fn law_failures_are_told_apart(e: StorageErrorView)
    ensures
        match e {
            StorageErrorView::UnsupportedContentType(t) => submit_error(e)
                == SubmitErrorView::UnsupportedFile(t),
            StorageErrorView::InvalidImage => submit_error(e) == SubmitErrorView::UnsupportedFile(
                "file is not a valid image"@,
            ),
            StorageErrorView::Io => submit_error(e) == SubmitErrorView::Io,
        },
{
}

/// A submission redeems the code that it names, in time or within the grace period, on its own link,
/// and uses it up; it comes in pending, as it was sent, with its files in order. Where it names no
/// code, none is used up.
pub proof fn law_submissions_redeem_their_code(
    db: LedgerView,
    new: NewSubmissionView,
    id: Seq<char>,
    file_ids: Seq<Seq<char>>,
    now: i64,
    k: int,
)
    requires
        new.verification_code_id is Some ==> only(
            db.codes,
            k,
            |c: codes::CodeView| c.id == new.verification_code_id->0,
        ),
    ensures
        ({
            let named = new.verification_code_id is Some;
            let c = db.codes[k];
            let good = c.link_id == new.link_id && c.consumed_at is None && now < c.expires_at
                + new.grace_period_seconds;
            let redoes = new.redo_of_submission_id is Some;
            let redoable = any_row(
                db.submissions,
                |s: SubmissionView|
                    Some(s.id) == new.redo_of_submission_id && s.submissive_id == new.submissive_id
                        && s.status == "redo"@,
            );
            match submitted(db, new, id, file_ids, now) {
                Err(SubmitErrorView::InvalidOrExpiredCode) => named && !good,
                Err(SubmitErrorView::InvalidRedoTarget) => (named ==> good) && redoes && !redoable,
                Err(_) => (named ==> good) && (redoes ==> redoable) && exists|i: int|
                    0 <= i < new.files.len() && (#[trigger] new.files[i]).stored is Err,
                Ok(after) => {
                    let s = after.submissions.last();
                    let first = db.attachments.len() as int;
                    &&& named ==> good
                    &&& redoes ==> redoable
                    &&& after == (LedgerView {
                        submissions: db.submissions.push(s),
                        attachments: after.attachments,
                        codes: after.codes,
                        ..db
                    })
                    &&& s.id == id && s.submissive_id == new.submissive_id && s.link_id
                        == new.link_id
                    &&& s.purpose == "verification"@ && s.kind == new.kind && s.metadata
                        == new.metadata
                    &&& s.submitted_at == now && s.status == "pending"@ && s.assignment_id is None
                    &&& s.reviewed_at is None && s.reviewed_by_user_id is None
                    &&& s.review_notes is None && s.reviewed_via is None
                    &&& s.redo_of_submission_id == new.redo_of_submission_id
                    &&& s.verification_code_id == new.verification_code_id
                    &&& s.verification_code_value == (if named {
                        Some(c.code)
                    } else {
                        None
                    })
                    &&& !named ==> after.codes == db.codes
                    &&& named ==> after.codes == db.codes.update(
                        k,
                        codes::CodeView {
                            consumed_at: Some(now),
                            consumed_by_submission_id: Some(id),
                            ..c
                        },
                    )
                    &&& after.attachments.len() == first + new.files.len()
                    &&& forall|i: int|
                        0 <= i < first ==> #[trigger] after.attachments[i] == db.attachments[i]
                    &&& forall|i: int|
                        0 <= i < new.files.len() ==> {
                            let a = #[trigger] after.attachments[first + i];
                            let f = new.files[i];
                            &&& a.submission_id == id && a.uploaded_at == now
                            &&& a.attachment.id == file_ids[i]
                            &&& a.attachment.original_filename == f.original_filename
                            &&& a.attachment.mime_type == f.content_type
                            &&& f.stored is Ok
                            &&& a.attachment.storage_path == f.stored->Ok_0.storage_path
                            &&& a.attachment.byte_size == f.stored->Ok_0.byte_size
                            &&& a.sha256 == f.stored->Ok_0.sha256
                        }
                },
            }
        }),
{
    lemma_first_failure(new.files);
    if new.redo_of_submission_id is Some {
        lemma_any_same(
            db.submissions,
            |s: SubmissionView|
                Some(s.id) == new.redo_of_submission_id && s.submissive_id == new.submissive_id
                    && s.status == "redo"@,
            redo_target(new.redo_of_submission_id->0, new.submissive_id),
        );
    }
    if new.verification_code_id is Some {
        let code_id = new.verification_code_id->0;
        let named = |c: codes::CodeView| c.id == code_id;
        let p = codes::redeemable(code_id, new.link_id, new.grace_period_seconds, now);
        assert forall|j: int| 0 <= j < db.codes.len() && j != k implies (
        #[trigger] db.codes[j]).id != code_id by {
            assert(!named(db.codes[j]));
        }
        if p(db.codes[k]) {
            lemma_find_only(db.codes, k, p, p);
        } else {
            lemma_find_any(db.codes, p);
        }
    }
}

/// A verdict is given on a pending submission of the link it is given on, says by whom, how and when,
/// and changes nothing else of it and no other; there is none to give on any other.
pub proof fn law_verdicts_are_for_pending_submissions(
    db: LedgerView,
    id: Seq<char>,
    link_id: Seq<char>,
    status: Seq<char>,
    notes: Option<Seq<char>>,
    by: Seq<char>,
    via: Seq<char>,
    now: i64,
    k: int,
)
    requires
        only(db.submissions, k, |s: SubmissionView| s.id == id),
    ensures
        ({
            let s = db.submissions[k];
            match reviewed(db, id, link_id, status, notes, by, via, now) {
                Err(_) => s.link_id != link_id || s.status != "pending"@,
                Ok(after) => {
                    &&& s.link_id == link_id && s.status == "pending"@
                    &&& after == (LedgerView {
                        submissions: db.submissions.update(
                            k,
                            SubmissionView {
                                status,
                                reviewed_by_user_id: Some(by),
                                reviewed_at: Some(now),
                                review_notes: notes,
                                reviewed_via: Some(via),
                                ..s
                            },
                        ),
                        ..db
                    })
                },
            }
        }),
{
    let named = |s: SubmissionView| s.id == id;
    assert forall|j: int| 0 <= j < db.submissions.len() && j != k implies (
    #[trigger] db.submissions[j]).id != id by {
        assert(!named(db.submissions[j]));
    }
    let p = reviewable(id, link_id);
    if any_row(db.submissions, p) {
        let j = choose|j: int| 0 <= j < db.submissions.len() && p(#[trigger] db.submissions[j]);
        assert(j == k);
    }
    assert(p(db.submissions[k]) ==> any_row(db.submissions, p));
}

/// Lists hold what they are asked for, whole: a submissive's submissions and those of some links, the
/// latest first, and a submission's files in the order of their upload.
pub proof fn law_submissions_are_listed_whole(
    own: Seq<SubmissionView>,
    linked: Seq<SubmissionView>,
    submissions: Seq<SubmissionView>,
    submissive_id: Seq<char>,
    link_ids: Seq<Seq<char>>,
    files: Seq<AttachmentRowView>,
    attachments: Seq<AttachmentRowView>,
    submission_id: Seq<char>,
)
    requires
        ordered_from(own, submissions.filter(of_submissive(submissive_id)), newest_first()),
        ordered_from(linked, submissions.filter(of_links(link_ids)), newest_first()),
        ordered_from(files, attachments.filter(attached_to(submission_id)), by_upload()),
    ensures
        forall|s: SubmissionView| #[trigger]
            own.contains(s) <==> submissions.contains(s) && s.submissive_id == submissive_id,
        forall|i: int, j: int|
            0 <= i < j < own.len() ==> (#[trigger] own[i]).submitted_at >= (
            #[trigger] own[j]).submitted_at,
        forall|s: SubmissionView| #[trigger]
            linked.contains(s) <==> submissions.contains(s) && link_ids.contains(s.link_id),
        forall|i: int, j: int|
            0 <= i < j < linked.len() ==> (#[trigger] linked[i]).submitted_at >= (
            #[trigger] linked[j]).submitted_at,
        forall|a: AttachmentRowView| #[trigger]
            files.contains(a) <==> attachments.contains(a) && a.submission_id == submission_id,
        forall|i: int, j: int|
            0 <= i < j < files.len() ==> (#[trigger] files[i]).uploaded_at <= (
            #[trigger] files[j]).uploaded_at,
        files.map_values(shown()).len() == files.len(),
        forall|i: int|
            0 <= i < files.len() ==> #[trigger] files.map_values(shown())[i]
                == files[i].attachment,
{
    lemma_listed(own, submissions, of_submissive(submissive_id), newest_first());
    lemma_listed(linked, submissions, of_links(link_ids), newest_first());
    lemma_listed(files, attachments, attached_to(submission_id), by_upload());
}

/// A file is found by its own id.
pub proof fn law_files_are_found_by_their_id(
    attachments: Seq<AttachmentRowView>,
    id: Seq<char>,
    k: int,
)
    requires
        only(attachments, k, |a: AttachmentRowView| a.attachment.id == id),
    ensures
        find_row(attachments, attachment_by_id(id)) == Some(attachments[k]),
{
    lemma_find_only(
        attachments,
        k,
        |a: AttachmentRowView| a.attachment.id == id,
        attachment_by_id(id),
    );
}

/// A submission is found by its id.
pub proof fn law_submissions_are_found_by_their_id(
    submissions: Seq<SubmissionView>,
    id: Seq<char>,
    k: int,
)
    requires
        only(submissions, k, |s: SubmissionView| s.id == id),
    ensures
        find_row(submissions, by_id(id)) == Some(submissions[k]),
{
    lemma_find_only(submissions, k, |s: SubmissionView| s.id == id, by_id(id));
}

} // verus!
