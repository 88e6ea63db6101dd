//! Profile fields of Keyholders and submissives. Every account has a profile row from the moment
//! it is created.

use vstd::prelude::*;

use crate::error::DbError;
use crate::ledger::{Ledger, LedgerView};
use crate::table::{
    find, find_row, lemma_find_any, lemma_find_only, lemma_find_updated, only, update, updated, Row,
};
use crate::text::{dup_opt, edited_opt, or_keep, own, own_opt, same};

verus! {

/// A Keyholder's profile fields.
#[derive(Debug, PartialEq, Eq)]
pub struct KeyholderProfile {
    pub bio: Option<String>,
    pub contact_info: Option<String>,
    pub timezone: Option<String>,
    pub hard_limits: Option<String>,
    pub soft_limits: Option<String>,
    pub okay_limits: Option<String>,
}

/// What a `KeyholderProfile` holds.
#[verifier::ext_equal]
pub struct KeyholderProfileView {
    pub bio: Option<Seq<char>>,
    pub contact_info: Option<Seq<char>>,
    pub timezone: Option<Seq<char>>,
    pub hard_limits: Option<Seq<char>>,
    pub soft_limits: Option<Seq<char>>,
    pub okay_limits: Option<Seq<char>>,
}

impl View for KeyholderProfile {
    type V = KeyholderProfileView;

    open spec fn view(&self) -> KeyholderProfileView {
        KeyholderProfileView {
            bio: self.bio.deep_view(),
            contact_info: self.contact_info.deep_view(),
            timezone: self.timezone.deep_view(),
            hard_limits: self.hard_limits.deep_view(),
            soft_limits: self.soft_limits.deep_view(),
            okay_limits: self.okay_limits.deep_view(),
        }
    }
}

impl DeepView for KeyholderProfile {
    type V = KeyholderProfileView;

    open spec fn deep_view(&self) -> KeyholderProfileView {
        self.view()
    }
}

impl Row for KeyholderProfile {
    fn dup(&self) -> (r: Self) {
        KeyholderProfile {
            bio: dup_opt(&self.bio),
            contact_info: dup_opt(&self.contact_info),
            timezone: dup_opt(&self.timezone),
            hard_limits: dup_opt(&self.hard_limits),
            soft_limits: dup_opt(&self.soft_limits),
            okay_limits: dup_opt(&self.okay_limits),
        }
    }
}

/// A stored Keyholder profile, one per account.
#[derive(Debug, PartialEq, Eq)]
pub struct KeyholderProfileRow {
    pub user_id: String,
    pub profile: KeyholderProfile,
}

/// What a `KeyholderProfileRow` holds.
#[verifier::ext_equal]
pub struct KeyholderProfileRowView {
    pub user_id: Seq<char>,
    pub profile: KeyholderProfileView,
}

impl View for KeyholderProfileRow {
    type V = KeyholderProfileRowView;

    open spec fn view(&self) -> KeyholderProfileRowView {
        KeyholderProfileRowView {
            user_id: self.user_id@,
            profile: self.profile@,
        }
    }
}

impl DeepView for KeyholderProfileRow {
    type V = KeyholderProfileRowView;

    open spec fn deep_view(&self) -> KeyholderProfileRowView {
        self.view()
    }
}

impl Row for KeyholderProfileRow {
    fn dup(&self) -> (r: Self) {
        KeyholderProfileRow {
            user_id: self.user_id.clone(),
            profile: self.profile.dup(),
        }
    }
}

/// A partial edit: a field left `None` keeps its value, `Some(None)` clears it.
#[derive(Debug, PartialEq, Eq)]
pub struct KeyholderProfileEdit<'a> {
    pub bio: Option<Option<&'a str>>,
    pub contact_info: Option<Option<&'a str>>,
    pub timezone: Option<Option<&'a str>>,
    pub hard_limits: Option<Option<&'a str>>,
    pub soft_limits: Option<Option<&'a str>>,
    pub okay_limits: Option<Option<&'a str>>,
}

/// What a `KeyholderProfileEdit` holds.
#[verifier::ext_equal]
pub struct KeyholderProfileEditView {
    pub bio: Option<Option<Seq<char>>>,
    pub contact_info: Option<Option<Seq<char>>>,
    pub timezone: Option<Option<Seq<char>>>,
    pub hard_limits: Option<Option<Seq<char>>>,
    pub soft_limits: Option<Option<Seq<char>>>,
    pub okay_limits: Option<Option<Seq<char>>>,
}

impl<'a> View for KeyholderProfileEdit<'a> {
    type V = KeyholderProfileEditView;

    open spec fn view(&self) -> KeyholderProfileEditView {
        KeyholderProfileEditView {
            bio: self.bio.deep_view(),
            contact_info: self.contact_info.deep_view(),
            timezone: self.timezone.deep_view(),
            hard_limits: self.hard_limits.deep_view(),
            soft_limits: self.soft_limits.deep_view(),
            okay_limits: self.okay_limits.deep_view(),
        }
    }
}

impl KeyholderProfileEditView {
    /// Nothing set.
    pub open spec fn blank() -> KeyholderProfileEditView {
        KeyholderProfileEditView {
            bio: None,
            contact_info: None,
            timezone: None,
            hard_limits: None,
            soft_limits: None,
            okay_limits: None,
        }
    }
}

impl<'a> Default for KeyholderProfileEdit<'a> {
    fn default() -> (r: Self)
        ensures
            r@ == KeyholderProfileEditView::blank(),
    {
        KeyholderProfileEdit {
            bio: None,
            contact_info: None,
            timezone: None,
            hard_limits: None,
            soft_limits: None,
            okay_limits: None,
        }
    }
}

/// A submissive's profile fields.
#[derive(Debug, PartialEq, Eq)]
pub struct SubmissiveProfile {
    pub bio: Option<String>,
    pub safeword: Option<String>,
    pub hard_limits: Option<String>,
    pub soft_limits: Option<String>,
    pub okay_limits: Option<String>,
    pub emergency_contact: Option<String>,
    /// Written by the Keyholder alone.
    pub keyholder_notes: Option<String>,
    pub timezone: Option<String>,
}

/// What a `SubmissiveProfile` holds.
#[verifier::ext_equal]
pub struct SubmissiveProfileView {
    pub bio: Option<Seq<char>>,
    pub safeword: Option<Seq<char>>,
    pub hard_limits: Option<Seq<char>>,
    pub soft_limits: Option<Seq<char>>,
    pub okay_limits: Option<Seq<char>>,
    pub emergency_contact: Option<Seq<char>>,
    pub keyholder_notes: Option<Seq<char>>,
    pub timezone: Option<Seq<char>>,
}

impl View for SubmissiveProfile {
    type V = SubmissiveProfileView;

    open spec fn view(&self) -> SubmissiveProfileView {
        SubmissiveProfileView {
            bio: self.bio.deep_view(),
            safeword: self.safeword.deep_view(),
            hard_limits: self.hard_limits.deep_view(),
            soft_limits: self.soft_limits.deep_view(),
            okay_limits: self.okay_limits.deep_view(),
            emergency_contact: self.emergency_contact.deep_view(),
            keyholder_notes: self.keyholder_notes.deep_view(),
            timezone: self.timezone.deep_view(),
        }
    }
}

impl DeepView for SubmissiveProfile {
    type V = SubmissiveProfileView;

    open spec fn deep_view(&self) -> SubmissiveProfileView {
        self.view()
    }
}

impl Row for SubmissiveProfile {
    fn dup(&self) -> (r: Self) {
        SubmissiveProfile {
            bio: dup_opt(&self.bio),
            safeword: dup_opt(&self.safeword),
            hard_limits: dup_opt(&self.hard_limits),
            soft_limits: dup_opt(&self.soft_limits),
            okay_limits: dup_opt(&self.okay_limits),
            emergency_contact: dup_opt(&self.emergency_contact),
            keyholder_notes: dup_opt(&self.keyholder_notes),
            timezone: dup_opt(&self.timezone),
        }
    }
}

/// A stored submissive profile, one per account.
#[derive(Debug, PartialEq, Eq)]
pub struct SubmissiveProfileRow {
    pub user_id: String,
    pub profile: SubmissiveProfile,
}

/// What a `SubmissiveProfileRow` holds.
#[verifier::ext_equal]
pub struct SubmissiveProfileRowView {
    pub user_id: Seq<char>,
    pub profile: SubmissiveProfileView,
}

impl View for SubmissiveProfileRow {
    type V = SubmissiveProfileRowView;

    open spec fn view(&self) -> SubmissiveProfileRowView {
        SubmissiveProfileRowView {
            user_id: self.user_id@,
            profile: self.profile@,
        }
    }
}

impl DeepView for SubmissiveProfileRow {
    type V = SubmissiveProfileRowView;

    open spec fn deep_view(&self) -> SubmissiveProfileRowView {
        self.view()
    }
}

impl Row for SubmissiveProfileRow {
    fn dup(&self) -> (r: Self) {
        SubmissiveProfileRow {
            user_id: self.user_id.clone(),
            profile: self.profile.dup(),
        }
    }
}

/// A submissive's own partial edit; it has no way to name `keyholder_notes`.
#[derive(Debug, PartialEq, Eq)]
pub struct SubmissiveProfileEdit<'a> {
    pub bio: Option<Option<&'a str>>,
    pub safeword: Option<Option<&'a str>>,
    pub hard_limits: Option<Option<&'a str>>,
    pub soft_limits: Option<Option<&'a str>>,
    pub okay_limits: Option<Option<&'a str>>,
    pub emergency_contact: Option<Option<&'a str>>,
    pub timezone: Option<Option<&'a str>>,
}

/// What a `SubmissiveProfileEdit` holds.
#[verifier::ext_equal]
pub struct SubmissiveProfileEditView {
    pub bio: Option<Option<Seq<char>>>,
    pub safeword: Option<Option<Seq<char>>>,
    pub hard_limits: Option<Option<Seq<char>>>,
    pub soft_limits: Option<Option<Seq<char>>>,
    pub okay_limits: Option<Option<Seq<char>>>,
    pub emergency_contact: Option<Option<Seq<char>>>,
    pub timezone: Option<Option<Seq<char>>>,
}

impl<'a> View for SubmissiveProfileEdit<'a> {
    type V = SubmissiveProfileEditView;

    open spec fn view(&self) -> SubmissiveProfileEditView {
        SubmissiveProfileEditView {
            bio: self.bio.deep_view(),
            safeword: self.safeword.deep_view(),
            hard_limits: self.hard_limits.deep_view(),
            soft_limits: self.soft_limits.deep_view(),
            okay_limits: self.okay_limits.deep_view(),
            emergency_contact: self.emergency_contact.deep_view(),
            timezone: self.timezone.deep_view(),
        }
    }
}

impl SubmissiveProfileEditView {
    /// Nothing set.
    pub open spec fn blank() -> SubmissiveProfileEditView {
        SubmissiveProfileEditView {
            bio: None,
            safeword: None,
            hard_limits: None,
            soft_limits: None,
            okay_limits: None,
            emergency_contact: None,
            timezone: None,
        }
    }
}

impl<'a> Default for SubmissiveProfileEdit<'a> {
    fn default() -> (r: Self)
        ensures
            r@ == SubmissiveProfileEditView::blank(),
    {
        SubmissiveProfileEdit {
            bio: None,
            safeword: None,
            hard_limits: None,
            soft_limits: None,
            okay_limits: None,
            emergency_contact: None,
            timezone: None,
        }
    }
}

/// An empty Keyholder profile.
pub open spec fn empty_keyholder_row(user_id: Seq<char>) -> KeyholderProfileRowView {
    KeyholderProfileRowView {
        user_id,
        profile: KeyholderProfileView {
            bio: None,
            contact_info: None,
            timezone: None,
            hard_limits: None,
            soft_limits: None,
            okay_limits: None,
        },
    }
}

/// An empty Keyholder profile.
pub(crate) fn new_keyholder_row(user_id: &str) -> (r: KeyholderProfileRow)
    ensures
        r@ == empty_keyholder_row(user_id@),
{
    KeyholderProfileRow {
        user_id: own(user_id),
        profile: KeyholderProfile {
            bio: None,
            contact_info: None,
            timezone: None,
            hard_limits: None,
            soft_limits: None,
            okay_limits: None,
        },
    }
}

/// An empty submissive profile.
pub open spec fn empty_submissive_row(user_id: Seq<char>) -> SubmissiveProfileRowView {
    SubmissiveProfileRowView {
        user_id,
        profile: SubmissiveProfileView {
            bio: None,
            safeword: None,
            hard_limits: None,
            soft_limits: None,
            okay_limits: None,
            emergency_contact: None,
            keyholder_notes: None,
            timezone: None,
        },
    }
}

/// An empty submissive profile.
pub(crate) fn new_submissive_row(user_id: &str) -> (r: SubmissiveProfileRow)
    ensures
        r@ == empty_submissive_row(user_id@),
{
    SubmissiveProfileRow {
        user_id: own(user_id),
        profile: SubmissiveProfile {
            bio: None,
            safeword: None,
            hard_limits: None,
            soft_limits: None,
            okay_limits: None,
            emergency_contact: None,
            keyholder_notes: None,
            timezone: None,
        },
    }
}

/// This account's profile.
pub open spec fn keyholder(user_id: Seq<char>) -> spec_fn(KeyholderProfileRowView) -> bool {
    |p: KeyholderProfileRowView| p.user_id == user_id
}

/// A Keyholder's profile.
pub fn get_keyholder_profile(db: &Ledger, user_id: &str) -> (r: Result<KeyholderProfile, DbError>)
    ensures
        match find_row(db@.keyholder_profiles, keyholder(user_id@)) {
            Some(row) => r is Ok && r->Ok_0@ == row.profile,
            None => r == Err::<KeyholderProfile, DbError>(DbError::NoRows),
        },
{
    let ghost p = keyholder(user_id@);
    let test = |k: &KeyholderProfileRow| -> (b: bool)
        ensures
            b == p(k@),
        { same(k.user_id.as_str(), user_id) };
    match find(&db.keyholder_profiles, Ghost(p), test) {
        Some(row) => Ok(row.profile.dup()),
        None => Err(DbError::NoRows),
    }
}

/// The profile after an edit.
pub open spec fn keyholder_edited(
    current: KeyholderProfileView,
    edit: KeyholderProfileEditView,
) -> KeyholderProfileView {
    KeyholderProfileView {
        bio: or_keep(edit.bio, current.bio),
        contact_info: or_keep(edit.contact_info, current.contact_info),
        timezone: or_keep(edit.timezone, current.timezone),
        hard_limits: or_keep(edit.hard_limits, current.hard_limits),
        soft_limits: or_keep(edit.soft_limits, current.soft_limits),
        okay_limits: or_keep(edit.okay_limits, current.okay_limits),
    }
}

/// With this profile.
pub open spec fn with_keyholder_profile(profile: KeyholderProfileView) -> spec_fn(
    KeyholderProfileRowView,
) -> KeyholderProfileRowView {
    |row: KeyholderProfileRowView| KeyholderProfileRowView { profile, ..row }
}

/// Edits a Keyholder's profile.
pub fn update_keyholder_profile(db: &mut Ledger, user_id: &str, edit: KeyholderProfileEdit) -> (r: Result<
    (),
    DbError,
>)
    ensures
        match find_row(old(db)@.keyholder_profiles, keyholder(user_id@)) {
            None => r == Err::<(), DbError>(DbError::NoRows) && final(db)@ == old(db)@,
            Some(row) => r is Ok && final(db)@ == (LedgerView {
                keyholder_profiles: updated(
                    old(db)@.keyholder_profiles,
                    keyholder(user_id@),
                    with_keyholder_profile(keyholder_edited(row.profile, edit@)),
                ),
                ..old(db)@
            }),
        },
{
    let current = match get_keyholder_profile(db, user_id) {
        Ok(c) => c,
        Err(e) => {
            return Err(e);
        },
    };
    let next = KeyholderProfile {
        bio: edited_opt(edit.bio, &current.bio),
        contact_info: edited_opt(edit.contact_info, &current.contact_info),
        timezone: edited_opt(edit.timezone, &current.timezone),
        hard_limits: edited_opt(edit.hard_limits, &current.hard_limits),
        soft_limits: edited_opt(edit.soft_limits, &current.soft_limits),
        okay_limits: edited_opt(edit.okay_limits, &current.okay_limits),
    };
    let ghost p = keyholder(user_id@);
    let ghost u = with_keyholder_profile(next@);
    let change = |k: &KeyholderProfileRow| -> (n: Option<KeyholderProfileRow>)
        ensures
            match n {
                Some(x) => p(k@) && x@ == u(k@),
                None => !p(k@),
            },
        {
            if same(k.user_id.as_str(), user_id) {
                let mut n = k.dup();
                n.profile = next.dup();

                Some(n)
            } else {
                None
            }
        };
    update(&mut db.keyholder_profiles, Ghost(p), Ghost(u), change);
    Ok(())
}

/// This account's profile.
pub open spec fn submissive(user_id: Seq<char>) -> spec_fn(SubmissiveProfileRowView) -> bool {
    |p: SubmissiveProfileRowView| p.user_id == user_id
}

/// A submissive's profile.
pub fn get_submissive_profile(db: &Ledger, user_id: &str) -> (r: Result<SubmissiveProfile, DbError>)
    ensures
        match find_row(db@.submissive_profiles, submissive(user_id@)) {
            Some(row) => r is Ok && r->Ok_0@ == row.profile,
            None => r == Err::<SubmissiveProfile, DbError>(DbError::NoRows),
        },
{
    let ghost p = submissive(user_id@);
    let test = |s: &SubmissiveProfileRow| -> (b: bool)
        ensures
            b == p(s@),
        { same(s.user_id.as_str(), user_id) };
    match find(&db.submissive_profiles, Ghost(p), test) {
        Some(row) => Ok(row.profile.dup()),
        None => Err(DbError::NoRows),
    }
}

/// The profile after the submissive's own edit: the Keyholder's notes stay as they are.
pub open spec fn submissive_edited(
    current: SubmissiveProfileView,
    edit: SubmissiveProfileEditView,
) -> SubmissiveProfileView {
    SubmissiveProfileView {
        bio: or_keep(edit.bio, current.bio),
        safeword: or_keep(edit.safeword, current.safeword),
        hard_limits: or_keep(edit.hard_limits, current.hard_limits),
        soft_limits: or_keep(edit.soft_limits, current.soft_limits),
        okay_limits: or_keep(edit.okay_limits, current.okay_limits),
        emergency_contact: or_keep(edit.emergency_contact, current.emergency_contact),
        keyholder_notes: current.keyholder_notes,
        timezone: or_keep(edit.timezone, current.timezone),
    }
}

/// With this profile.
pub open spec fn with_submissive_profile(profile: SubmissiveProfileView) -> spec_fn(
    SubmissiveProfileRowView,
) -> SubmissiveProfileRowView {
    |row: SubmissiveProfileRowView| SubmissiveProfileRowView { profile, ..row }
}

/// Edits a submissive's profile on the submissive's own behalf.
pub fn update_submissive_profile(db: &mut Ledger, user_id: &str, edit: SubmissiveProfileEdit) -> (r: Result<
    (),
    DbError,
>)
    ensures
        match find_row(old(db)@.submissive_profiles, submissive(user_id@)) {
            None => r == Err::<(), DbError>(DbError::NoRows) && final(db)@ == old(db)@,
            Some(row) => r is Ok && final(db)@ == (LedgerView {
                submissive_profiles: updated(
                    old(db)@.submissive_profiles,
                    submissive(user_id@),
                    with_submissive_profile(submissive_edited(row.profile, edit@)),
                ),
                ..old(db)@
            }),
        },
{
    let current = match get_submissive_profile(db, user_id) {
        Ok(c) => c,
        Err(e) => {
            return Err(e);
        },
    };
    let next = SubmissiveProfile {
        bio: edited_opt(edit.bio, &current.bio),
        safeword: edited_opt(edit.safeword, &current.safeword),
        hard_limits: edited_opt(edit.hard_limits, &current.hard_limits),
        soft_limits: edited_opt(edit.soft_limits, &current.soft_limits),
        okay_limits: edited_opt(edit.okay_limits, &current.okay_limits),
        emergency_contact: edited_opt(edit.emergency_contact, &current.emergency_contact),
        keyholder_notes: current.keyholder_notes,
        timezone: edited_opt(edit.timezone, &current.timezone),
    };
    let ghost p = submissive(user_id@);
    let ghost u = with_submissive_profile(next@);
    let change = |s: &SubmissiveProfileRow| -> (n: Option<SubmissiveProfileRow>)
        ensures
            match n {
                Some(x) => p(s@) && x@ == u(s@),
                None => !p(s@),
            },
        {
            if same(s.user_id.as_str(), user_id) {
                let mut n = s.dup();
                n.profile = next.dup();

                Some(n)
            } else {
                None
            }
        };
    update(&mut db.submissive_profiles, Ghost(p), Ghost(u), change);
    Ok(())
}

/// With these notes of the Keyholder's.
pub open spec fn with_notes(notes: Option<Seq<char>>) -> spec_fn(
    SubmissiveProfileRowView,
) -> SubmissiveProfileRowView {
    |row: SubmissiveProfileRowView|
        SubmissiveProfileRowView {
            profile: SubmissiveProfileView { keyholder_notes: notes, ..row.profile },
            ..row
        }
}

/// Writes the Keyholder's notes, the one field of a submissive's profile that is not their own.
pub fn update_keyholder_notes(db: &mut Ledger, submissive_id: &str, keyholder_notes: Option<&str>)
    ensures
        final(db)@ == (LedgerView {
            submissive_profiles: updated(
                old(db)@.submissive_profiles,
                submissive(submissive_id@),
                with_notes(keyholder_notes.deep_view()),
            ),
            ..old(db)@
        }),
{
    let ghost p = submissive(submissive_id@);
    let ghost u = with_notes(keyholder_notes.deep_view());
    let change = |s: &SubmissiveProfileRow| -> (n: Option<SubmissiveProfileRow>)
        ensures
            match n {
                Some(x) => p(s@) && x@ == u(s@),
                None => !p(s@),
            },
        {
            if same(s.user_id.as_str(), submissive_id) {
                let mut n = s.dup();
                n.profile.keyholder_notes = own_opt(keyholder_notes);

                Some(n)
            } else {
                None
            }
        };
    update(&mut db.submissive_profiles, Ghost(p), Ghost(u), change);
}

/// A profile reads back as it was edited: what the edit sets, and what it leaves alone.
pub proof fn law_edited_profile_is_read(
    profiles: Seq<SubmissiveProfileRowView>,
    user_id: Seq<char>,
    edit: SubmissiveProfileEditView,
)
    requires
        find_row(profiles, submissive(user_id)) is Some,
    ensures
        ({
            let before = find_row(profiles, submissive(user_id))->0;
            let after = find_row(
                updated(
                    profiles,
                    submissive(user_id),
                    with_submissive_profile(submissive_edited(before.profile, edit)),
                ),
                submissive(user_id),
            );
            &&& after is Some
            &&& after->0.profile == submissive_edited(before.profile, edit)
            &&& after->0.profile.keyholder_notes == before.profile.keyholder_notes
        }),
{
    let before = find_row(profiles, submissive(user_id))->0;
    lemma_find_any(profiles, submissive(user_id));
    lemma_find_updated(
        profiles,
        submissive(user_id),
        submissive(user_id),
        with_submissive_profile(submissive_edited(before.profile, edit)),
    );
}

/// The Keyholder's notes read back as written, and writing them leaves the rest of the profile to
/// the submissive.
pub proof fn law_notes_touch_nothing_else(
    profiles: Seq<SubmissiveProfileRowView>,
    user_id: Seq<char>,
    notes: Option<Seq<char>>,
)
    requires
        find_row(profiles, submissive(user_id)) is Some,
    ensures
        ({
            let before = find_row(profiles, submissive(user_id))->0;
            let after = find_row(
                updated(profiles, submissive(user_id), with_notes(notes)),
                submissive(user_id),
            );
            after is Some && after->0.profile == (SubmissiveProfileView {
                keyholder_notes: notes,
                ..before.profile
            })
        }),
{
    lemma_find_any(profiles, submissive(user_id));
    lemma_find_updated(profiles, submissive(user_id), submissive(user_id), with_notes(notes));
}

/// An edit that sets nothing changes nothing.
pub proof fn law_empty_edit_changes_nothing(
    keyholder: KeyholderProfileView,
    submissive: SubmissiveProfileView,
)
    ensures
        keyholder_edited(keyholder, KeyholderProfileEditView::blank()) == keyholder,
        submissive_edited(submissive, SubmissiveProfileEditView::blank()) == submissive,
{
}

/// An edit of a profile replaces what it gives and keeps the rest, of that account alone.
pub proof fn law_keyholder_profiles_are_edited_field_by_field(
    profiles: Seq<KeyholderProfileRowView>,
    user_id: Seq<char>,
    edit: KeyholderProfileEditView,
    k: int,
)
    requires
        only(profiles, k, |p: KeyholderProfileRowView| p.user_id == user_id),
    ensures
        find_row(profiles, keyholder(user_id)) == Some(profiles[k]),
        ({
            let p = profiles[k].profile;
            let after = updated(
                profiles,
                keyholder(user_id),
                with_keyholder_profile(keyholder_edited(p, edit)),
            );
            let e = after[k].profile;
            &&& after == profiles.update(
                k,
                KeyholderProfileRowView { profile: e, ..profiles[k] },
            )
            &&& edit.bio is Some ==> e.bio == edit.bio->0
            &&& edit.bio is None ==> e.bio == p.bio
            &&& edit.contact_info is Some ==> e.contact_info == edit.contact_info->0
            &&& edit.contact_info is None ==> e.contact_info == p.contact_info
            &&& edit.timezone is Some ==> e.timezone == edit.timezone->0
            &&& edit.timezone is None ==> e.timezone == p.timezone
            &&& edit.hard_limits is Some ==> e.hard_limits == edit.hard_limits->0
            &&& edit.hard_limits is None ==> e.hard_limits == p.hard_limits
            &&& edit.soft_limits is Some ==> e.soft_limits == edit.soft_limits->0
            &&& edit.soft_limits is None ==> e.soft_limits == p.soft_limits
            &&& edit.okay_limits is Some ==> e.okay_limits == edit.okay_limits->0
            &&& edit.okay_limits is None ==> e.okay_limits == p.okay_limits
        }),
{
    let mine = |p: KeyholderProfileRowView| p.user_id == user_id;
    lemma_find_only(profiles, k, mine, keyholder(user_id));
    assert forall|j: int| 0 <= j < profiles.len() && j != k implies (
    #[trigger] profiles[j]).user_id != user_id by {
        assert(!mine(profiles[j]));
    }
}

/// A submissive edits their own profile but for the Keyholder's notes; the notes are set apart, and
/// nothing else with them.
pub proof fn law_submissive_profiles_are_edited_field_by_field(
    profiles: Seq<SubmissiveProfileRowView>,
    user_id: Seq<char>,
    edit: SubmissiveProfileEditView,
    notes: Option<Seq<char>>,
    k: int,
)
    requires
        only(profiles, k, |p: SubmissiveProfileRowView| p.user_id == user_id),
    ensures
        find_row(profiles, submissive(user_id)) == Some(profiles[k]),
        ({
            let p = profiles[k].profile;
            let after = updated(
                profiles,
                submissive(user_id),
                with_submissive_profile(submissive_edited(p, edit)),
            );
            let e = after[k].profile;
            &&& after == profiles.update(
                k,
                SubmissiveProfileRowView { profile: e, ..profiles[k] },
            )
            &&& e.keyholder_notes == p.keyholder_notes
            &&& edit.bio is Some ==> e.bio == edit.bio->0
            &&& edit.bio is None ==> e.bio == p.bio
            &&& edit.safeword is Some ==> e.safeword == edit.safeword->0
            &&& edit.safeword is None ==> e.safeword == p.safeword
            &&& edit.emergency_contact is Some ==> e.emergency_contact == edit.emergency_contact->0
            &&& edit.emergency_contact is None ==> e.emergency_contact == p.emergency_contact
            &&& edit.timezone is Some ==> e.timezone == edit.timezone->0
            &&& edit.timezone is None ==> e.timezone == p.timezone
            &&& edit.hard_limits is Some ==> e.hard_limits == edit.hard_limits->0
            &&& edit.hard_limits is None ==> e.hard_limits == p.hard_limits
            &&& edit.soft_limits is Some ==> e.soft_limits == edit.soft_limits->0
            &&& edit.soft_limits is None ==> e.soft_limits == p.soft_limits
            &&& edit.okay_limits is Some ==> e.okay_limits == edit.okay_limits->0
            &&& edit.okay_limits is None ==> e.okay_limits == p.okay_limits
        }),
        updated(profiles, submissive(user_id), with_notes(notes)) == profiles.update(
            k,
            SubmissiveProfileRowView {
                profile: SubmissiveProfileView { keyholder_notes: notes, ..profiles[k].profile },
                ..profiles[k]
            },
        ),
{
    let mine = |p: SubmissiveProfileRowView| p.user_id == user_id;
    lemma_find_only(profiles, k, mine, submissive(user_id));
    assert forall|j: int| 0 <= j < profiles.len() && j != k implies (
    #[trigger] profiles[j]).user_id != user_id by {
        assert(!mine(profiles[j]));
    }
}

} // verus!
