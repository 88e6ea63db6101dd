//! The toy catalog of each submissive. Either party may add or edit; only the Keyholder retires,
//! and a submissive can only ask for it.

use vstd::prelude::*;

use crate::domain::audit;
use crate::ids::{is_id, new_id};
use crate::ledger::{Ledger, LedgerView};
use crate::table::{
    any_row, find, find_row, insert, lemma_find_any, lemma_find_only, lemma_find_updated,
    lemma_listed, lemma_updated_none, only, order, ordered_from, rows, select, updated, Row,
};
use crate::text::{
    at_least, dup_opt, edited, edited_opt, lemma_at_least_order, or_keep, own, own_opt, same,
    text_at_least,
};

verus! {

/// A toy.
#[derive(Debug, PartialEq, Eq)]
pub struct Toy {
    pub id: String,
    pub submissive_id: String,
    pub added_by_user_id: String,
    pub name: String,
    pub category: Option<String>,
    pub material: Option<String>,
    pub brand: Option<String>,
    pub size_notes: Option<String>,
    pub color: Option<String>,
    pub compatible_device_id: Option<String>,
    pub storage_location: Option<String>,
    pub care_instructions: Option<String>,
    pub usage_notes: Option<String>,
    pub tags: Option<String>,
    pub photo_attachment_path: Option<String>,
    pub photo_mime_type: Option<String>,
    pub acquired_at: Option<i64>,
    pub retirement_requested_at: Option<i64>,
    pub retired_at: Option<i64>,
    pub retired_by_user_id: Option<String>,
}

/// What a `Toy` holds.
#[verifier::ext_equal]
pub struct ToyView {
    pub id: Seq<char>,
    pub submissive_id: Seq<char>,
    pub added_by_user_id: Seq<char>,
    pub name: Seq<char>,
    pub category: Option<Seq<char>>,
    pub material: Option<Seq<char>>,
    pub brand: Option<Seq<char>>,
    pub size_notes: Option<Seq<char>>,
    pub color: Option<Seq<char>>,
    pub compatible_device_id: Option<Seq<char>>,
    pub storage_location: Option<Seq<char>>,
    pub care_instructions: Option<Seq<char>>,
    pub usage_notes: Option<Seq<char>>,
    pub tags: Option<Seq<char>>,
    pub photo_attachment_path: Option<Seq<char>>,
    pub photo_mime_type: Option<Seq<char>>,
    pub acquired_at: Option<i64>,
    pub retirement_requested_at: Option<i64>,
    pub retired_at: Option<i64>,
    pub retired_by_user_id: Option<Seq<char>>,
}

impl View for Toy {
    type V = ToyView;

    open spec fn view(&self) -> ToyView {
        ToyView {
            id: self.id@,
            submissive_id: self.submissive_id@,
            added_by_user_id: self.added_by_user_id@,
            name: self.name@,
            category: self.category.deep_view(),
            material: self.material.deep_view(),
            brand: self.brand.deep_view(),
            size_notes: self.size_notes.deep_view(),
            color: self.color.deep_view(),
            compatible_device_id: self.compatible_device_id.deep_view(),
            storage_location: self.storage_location.deep_view(),
            care_instructions: self.care_instructions.deep_view(),
            usage_notes: self.usage_notes.deep_view(),
            tags: self.tags.deep_view(),
            photo_attachment_path: self.photo_attachment_path.deep_view(),
            photo_mime_type: self.photo_mime_type.deep_view(),
            acquired_at: self.acquired_at,
            retirement_requested_at: self.retirement_requested_at,
            retired_at: self.retired_at,
            retired_by_user_id: self.retired_by_user_id.deep_view(),
        }
    }
}

impl DeepView for Toy {
    type V = ToyView;

    open spec fn deep_view(&self) -> ToyView {
        self.view()
    }
}

impl Row for Toy {
    fn dup(&self) -> (r: Self) {
        Toy {
            id: self.id.clone(),
            submissive_id: self.submissive_id.clone(),
            added_by_user_id: self.added_by_user_id.clone(),
            name: self.name.clone(),
            category: dup_opt(&self.category),
            material: dup_opt(&self.material),
            brand: dup_opt(&self.brand),
            size_notes: dup_opt(&self.size_notes),
            color: dup_opt(&self.color),
            compatible_device_id: dup_opt(&self.compatible_device_id),
            storage_location: dup_opt(&self.storage_location),
            care_instructions: dup_opt(&self.care_instructions),
            usage_notes: dup_opt(&self.usage_notes),
            tags: dup_opt(&self.tags),
            photo_attachment_path: dup_opt(&self.photo_attachment_path),
            photo_mime_type: dup_opt(&self.photo_mime_type),
            acquired_at: self.acquired_at,
            retirement_requested_at: self.retirement_requested_at,
            retired_at: self.retired_at,
            retired_by_user_id: dup_opt(&self.retired_by_user_id),
        }
    }
}

/// What a new toy is made from.
#[derive(Debug, PartialEq, Eq)]
pub struct NewToy<'a> {
    pub submissive_id: &'a str,
    pub added_by_user_id: &'a str,
    pub name: &'a str,
    pub category: Option<&'a str>,
    pub material: Option<&'a str>,
    pub brand: Option<&'a str>,
    pub size_notes: Option<&'a str>,
    pub color: Option<&'a str>,
    pub compatible_device_id: Option<&'a str>,
    pub storage_location: Option<&'a str>,
    pub care_instructions: Option<&'a str>,
    pub usage_notes: Option<&'a str>,
    pub tags: Option<&'a str>,
    pub photo_attachment_path: Option<&'a str>,
    pub acquired_at: Option<i64>,
}

/// What a `NewToy` holds.
#[verifier::ext_equal]
pub struct NewToyView {
    pub submissive_id: Seq<char>,
    pub added_by_user_id: Seq<char>,
    pub name: Seq<char>,
    pub category: Option<Seq<char>>,
    pub material: Option<Seq<char>>,
    pub brand: Option<Seq<char>>,
    pub size_notes: Option<Seq<char>>,
    pub color: Option<Seq<char>>,
    pub compatible_device_id: Option<Seq<char>>,
    pub storage_location: Option<Seq<char>>,
    pub care_instructions: Option<Seq<char>>,
    pub usage_notes: Option<Seq<char>>,
    pub tags: Option<Seq<char>>,
    pub photo_attachment_path: Option<Seq<char>>,
    pub acquired_at: Option<i64>,
}

impl<'a> View for NewToy<'a> {
    type V = NewToyView;

    open spec fn view(&self) -> NewToyView {
        NewToyView {
            submissive_id: self.submissive_id@,
            added_by_user_id: self.added_by_user_id@,
            name: self.name@,
            category: self.category.deep_view(),
            material: self.material.deep_view(),
            brand: self.brand.deep_view(),
            size_notes: self.size_notes.deep_view(),
            color: self.color.deep_view(),
            compatible_device_id: self.compatible_device_id.deep_view(),
            storage_location: self.storage_location.deep_view(),
            care_instructions: self.care_instructions.deep_view(),
            usage_notes: self.usage_notes.deep_view(),
            tags: self.tags.deep_view(),
            photo_attachment_path: self.photo_attachment_path.deep_view(),
            acquired_at: self.acquired_at,
        }
    }
}

/// A partial edit: a field left `None` keeps its value, `Some(None)` clears it.
#[derive(Debug, PartialEq, Eq)]
pub struct ToyEdit<'a> {
    pub name: Option<&'a str>,
    pub category: Option<Option<&'a str>>,
    pub material: Option<Option<&'a str>>,
    pub brand: Option<Option<&'a str>>,
    pub size_notes: Option<Option<&'a str>>,
    pub color: Option<Option<&'a str>>,
    pub compatible_device_id: Option<Option<&'a str>>,
    pub storage_location: Option<Option<&'a str>>,
    pub care_instructions: Option<Option<&'a str>>,
    pub usage_notes: Option<Option<&'a str>>,
    pub tags: Option<Option<&'a str>>,
    pub photo_attachment_path: Option<Option<&'a str>>,
    pub photo_mime_type: Option<Option<&'a str>>,
    pub acquired_at: Option<Option<i64>>,
}

/// What a `ToyEdit` holds.
#[verifier::ext_equal]
pub struct ToyEditView {
    pub name: Option<Seq<char>>,
    pub category: Option<Option<Seq<char>>>,
    pub material: Option<Option<Seq<char>>>,
    pub brand: Option<Option<Seq<char>>>,
    pub size_notes: Option<Option<Seq<char>>>,
    pub color: Option<Option<Seq<char>>>,
    pub compatible_device_id: Option<Option<Seq<char>>>,
    pub storage_location: Option<Option<Seq<char>>>,
    pub care_instructions: Option<Option<Seq<char>>>,
    pub usage_notes: Option<Option<Seq<char>>>,
    pub tags: Option<Option<Seq<char>>>,
    pub photo_attachment_path: Option<Option<Seq<char>>>,
    pub photo_mime_type: Option<Option<Seq<char>>>,
    pub acquired_at: Option<Option<i64>>,
}

impl<'a> View for ToyEdit<'a> {
    type V = ToyEditView;

    open spec fn view(&self) -> ToyEditView {
        ToyEditView {
            name: self.name.deep_view(),
            category: self.category.deep_view(),
            material: self.material.deep_view(),
            brand: self.brand.deep_view(),
            size_notes: self.size_notes.deep_view(),
            color: self.color.deep_view(),
            compatible_device_id: self.compatible_device_id.deep_view(),
            storage_location: self.storage_location.deep_view(),
            care_instructions: self.care_instructions.deep_view(),
            usage_notes: self.usage_notes.deep_view(),
            tags: self.tags.deep_view(),
            photo_attachment_path: self.photo_attachment_path.deep_view(),
            photo_mime_type: self.photo_mime_type.deep_view(),
            acquired_at: self.acquired_at,
        }
    }
}

impl ToyEditView {
    /// Nothing set.
    pub open spec fn blank() -> ToyEditView {
        ToyEditView {
            name: None,
            category: None,
            material: None,
            brand: None,
            size_notes: None,
            color: None,
            compatible_device_id: None,
            storage_location: None,
            care_instructions: None,
            usage_notes: None,
            tags: None,
            photo_attachment_path: None,
            photo_mime_type: None,
            acquired_at: None,
        }
    }
}

impl<'a> Default for ToyEdit<'a> {
    fn default() -> (r: Self)
        ensures
            r@ == ToyEditView::blank(),
    {
        ToyEdit {
            name: None,
            category: None,
            material: None,
            brand: None,
            size_notes: None,
            color: None,
            compatible_device_id: None,
            storage_location: None,
            care_instructions: None,
            usage_notes: None,
            tags: None,
            photo_attachment_path: None,
            photo_mime_type: None,
            acquired_at: None,
        }
    }
}

/// The toy has this id.
pub open spec fn by_id(id: Seq<char>) -> spec_fn(ToyView) -> bool {
    |t: ToyView| t.id == id
}

/// The toy with this id.
pub fn get(db: &Ledger, id: &str) -> (r: Option<Toy>)
    ensures
        r.deep_view() == find_row(db@.toys, by_id(id@)),
{
    let ghost p = by_id(id@);
    let test = |t: &Toy| -> (b: bool)
        ensures
            b == p(t@),
        { same(t.id.as_str(), id) };
    match find(&db.toys, Ghost(p), test) {
        Some(t) => Some(t.dup()),
        None => None,
    }
}

/// In this submissive's catalog, and not retired unless those are asked for too.
pub open spec fn in_catalog(submissive_id: Seq<char>, include_retired: bool) -> spec_fn(
    ToyView,
) -> bool {
    |t: ToyView| t.submissive_id == submissive_id && (include_retired || t.retired_at is None)
}

/// Acquired later; a toy without a date comes last.
pub open spec fn acquired_after(a: Option<i64>, b: Option<i64>) -> bool {
    match (a, b) {
        (Some(x), Some(y)) => x > y,
        (Some(_), None) => true,
        (None, _) => false,
    }
}

/// The latest acquisition first, those without a date last, and by name among equals.
pub open spec fn catalog_order() -> spec_fn(ToyView, ToyView) -> bool {
    |a: ToyView, b: ToyView|
        acquired_after(a.acquired_at, b.acquired_at) || (a.acquired_at == b.acquired_at && at_least(
            b.name,
            a.name,
        ))
}

/// Whether one toy was acquired later.
fn later(a: Option<i64>, b: Option<i64>) -> (r: bool)
    ensures
        r == acquired_after(a, b),
{
    match (a, b) {
        (Some(x), Some(y)) => x > y,
        (Some(_), None) => true,
        (None, _) => false,
    }
}

/// Whether two toys were acquired at one time.
fn together(a: Option<i64>, b: Option<i64>) -> (r: bool)
    ensures
        r == (a == b),
{
    match (a, b) {
        (Some(x), Some(y)) => x == y,
        (None, None) => true,
        _ => false,
    }
}

/// A submissive's catalog, the latest acquisition first; retired toys are left out unless asked
/// for.
pub fn list_for_submissive(db: &Ledger, submissive_id: &str, include_retired: bool) -> (r: Vec<Toy>)
    ensures
        ordered_from(
            rows(r@),
            db@.toys.filter(in_catalog(submissive_id@, include_retired)),
            catalog_order(),
        ),
{
    let ghost p = in_catalog(submissive_id@, include_retired);
    let ghost le = catalog_order();
    let test = |t: &Toy| -> (b: bool)
        ensures
            b == p(t@),
        { same(t.submissive_id.as_str(), submissive_id) && (include_retired
            || t.retired_at.is_none()) };
    let before = |a: &Toy, b: &Toy| -> (c: bool)
        ensures
            c == le(a@, b@),
        {
            later(a.acquired_at, b.acquired_at) || (together(a.acquired_at, b.acquired_at)
                && text_at_least(b.name.as_str(), a.name.as_str()))
        };
    proof {
        lemma_at_least_order();
    }
    order(select(&db.toys, Ghost(p), test), Ghost(le), before)
}

/// A toy as it is added.
pub open spec fn new_row(id: Seq<char>, new: NewToyView) -> ToyView {
    ToyView {
        id,
        submissive_id: new.submissive_id,
        added_by_user_id: new.added_by_user_id,
        name: new.name,
        category: new.category,
        material: new.material,
        brand: new.brand,
        size_notes: new.size_notes,
        color: new.color,
        compatible_device_id: new.compatible_device_id,
        storage_location: new.storage_location,
        care_instructions: new.care_instructions,
        usage_notes: new.usage_notes,
        tags: new.tags,
        photo_attachment_path: new.photo_attachment_path,
        photo_mime_type: None,
        acquired_at: new.acquired_at,
        retirement_requested_at: None,
        retired_at: None,
        retired_by_user_id: None,
    }
}

/// Adds a toy.
pub fn create(db: &mut Ledger, new: NewToy) -> (r: String)
    ensures
        is_id(r@),
        final(db)@ == (LedgerView {
            toys: old(db)@.toys.push(new_row(r@, new@)),
            ..old(db)@
        }),
{
    let id = new_id();
    insert(
        &mut db.toys,
        Toy {
            id: id.clone(),
            submissive_id: own(new.submissive_id),
            added_by_user_id: own(new.added_by_user_id),
            name: own(new.name),
            category: own_opt(new.category),
            material: own_opt(new.material),
            brand: own_opt(new.brand),
            size_notes: own_opt(new.size_notes),
            color: own_opt(new.color),
            compatible_device_id: own_opt(new.compatible_device_id),
            storage_location: own_opt(new.storage_location),
            care_instructions: own_opt(new.care_instructions),
            usage_notes: own_opt(new.usage_notes),
            tags: own_opt(new.tags),
            photo_attachment_path: own_opt(new.photo_attachment_path),
            photo_mime_type: None,
            acquired_at: new.acquired_at,
            retirement_requested_at: None,
            retired_at: None,
            retired_by_user_id: None,
        },
    );
    id
}

/// A toy after an edit: whose it is, who added it and whether it is retired stay as they are.
pub open spec fn edited_toy(t: ToyView, edit: ToyEditView) -> ToyView {
    ToyView {
        name: or_keep(edit.name, t.name),
        category: or_keep(edit.category, t.category),
        material: or_keep(edit.material, t.material),
        brand: or_keep(edit.brand, t.brand),
        size_notes: or_keep(edit.size_notes, t.size_notes),
        color: or_keep(edit.color, t.color),
        compatible_device_id: or_keep(edit.compatible_device_id, t.compatible_device_id),
        storage_location: or_keep(edit.storage_location, t.storage_location),
        care_instructions: or_keep(edit.care_instructions, t.care_instructions),
        usage_notes: or_keep(edit.usage_notes, t.usage_notes),
        tags: or_keep(edit.tags, t.tags),
        photo_attachment_path: or_keep(edit.photo_attachment_path, t.photo_attachment_path),
        photo_mime_type: or_keep(edit.photo_mime_type, t.photo_mime_type),
        acquired_at: or_keep(edit.acquired_at, t.acquired_at),
        ..t
    }
}

/// With the fields of an edited toy; an edit touches no others.
pub open spec fn with_fields_of(e: ToyView) -> spec_fn(ToyView) -> ToyView {
    |t: ToyView|
        ToyView {
            name: e.name,
            category: e.category,
            material: e.material,
            brand: e.brand,
            size_notes: e.size_notes,
            color: e.color,
            compatible_device_id: e.compatible_device_id,
            storage_location: e.storage_location,
            care_instructions: e.care_instructions,
            usage_notes: e.usage_notes,
            tags: e.tags,
            photo_attachment_path: e.photo_attachment_path,
            photo_mime_type: e.photo_mime_type,
            acquired_at: e.acquired_at,
            ..t
        }
}

/// Edits a toy; `false` where there is none with this id.
pub fn update(db: &mut Ledger, id: &str, edit: ToyEdit) -> (r: bool)
    ensures
        match find_row(old(db)@.toys, by_id(id@)) {
            None => !r && final(db)@ == old(db)@,
            Some(t) => r && final(db)@ == (LedgerView {
                toys: updated(
                    old(db)@.toys,
                    by_id(id@),
                    with_fields_of(edited_toy(t, edit@)),
                ),
                ..old(db)@
            }),
        },
{
    let current = match get(db, id) {
        Some(t) => t,
        None => {
            return false;
        },
    };
    let e = Toy {
        id: current.id,
        submissive_id: current.submissive_id,
        added_by_user_id: current.added_by_user_id,
        name: edited(edit.name, current.name.as_str()),
        category: edited_opt(edit.category, &current.category),
        material: edited_opt(edit.material, &current.material),
        brand: edited_opt(edit.brand, &current.brand),
        size_notes: edited_opt(edit.size_notes, &current.size_notes),
        color: edited_opt(edit.color, &current.color),
        compatible_device_id: edited_opt(edit.compatible_device_id, &current.compatible_device_id),
        storage_location: edited_opt(edit.storage_location, &current.storage_location),
        care_instructions: edited_opt(edit.care_instructions, &current.care_instructions),
        usage_notes: edited_opt(edit.usage_notes, &current.usage_notes),
        tags: edited_opt(edit.tags, &current.tags),
        photo_attachment_path: edited_opt(
            edit.photo_attachment_path,
            &current.photo_attachment_path,
        ),
        photo_mime_type: edited_opt(edit.photo_mime_type, &current.photo_mime_type),
        acquired_at: match edit.acquired_at {
            Some(at) => at,
            None => current.acquired_at,
        },
        retirement_requested_at: current.retirement_requested_at,
        retired_at: current.retired_at,
        retired_by_user_id: current.retired_by_user_id,
    };
    let ghost p = by_id(id@);
    let ghost u = with_fields_of(e@);
    let change = |t: &Toy| -> (n: Option<Toy>)
        ensures
            match n {
                Some(x) => p(t@) && x@ == u(t@),
                None => !p(t@),
            },
        {
            if same(t.id.as_str(), id) {
                let mut n = t.dup();
                n.name = e.name.clone();
                n.category = dup_opt(&e.category);
                n.material = dup_opt(&e.material);
                n.brand = dup_opt(&e.brand);
                n.size_notes = dup_opt(&e.size_notes);
                n.color = dup_opt(&e.color);
                n.compatible_device_id = dup_opt(&e.compatible_device_id);
                n.storage_location = dup_opt(&e.storage_location);
                n.care_instructions = dup_opt(&e.care_instructions);
                n.usage_notes = dup_opt(&e.usage_notes);
                n.tags = dup_opt(&e.tags);
                n.photo_attachment_path = dup_opt(&e.photo_attachment_path);
                n.photo_mime_type = dup_opt(&e.photo_mime_type);
                n.acquired_at = e.acquired_at;

                Some(n)
            } else {
                None
            }
        };
    crate::table::update(&mut db.toys, Ghost(p), Ghost(u), change);
    true
}

/// Why a removal was not requested.
#[derive(Clone, Copy, Debug, PartialEq, Eq, Structural)]
pub enum RequestRemovalError {
    /// There is no such toy.
    NotFound,
    /// It is retired, or a request is pending.
    Conflict,
}

/// Whether a removal can be requested.
pub open spec fn removable(toy: Option<ToyView>) -> Result<(), RequestRemovalError> {
    match toy {
        None => Err(RequestRemovalError::NotFound),
        Some(t) => if t.retired_at is Some || t.retirement_requested_at is Some {
            Err(RequestRemovalError::Conflict)
        } else {
            Ok(())
        },
    }
}

/// Its removal requested now.
pub open spec fn removal_requested(now: i64) -> spec_fn(ToyView) -> ToyView {
    |t: ToyView| ToyView { retirement_requested_at: Some(now), ..t }
}

/// Asks for a toy's removal; it stays in the catalog until the Keyholder acts.
pub fn request_removal(db: &mut Ledger, id: &str, now: i64) -> (r: Result<(), RequestRemovalError>)
    ensures
        r == removable(find_row(old(db)@.toys, by_id(id@))),
        final(db)@ == (if r is Ok {
            LedgerView {
                toys: updated(old(db)@.toys, by_id(id@), removal_requested(now)),
                ..old(db)@
            }
        } else {
            old(db)@
        }),
{
    let toy = match get(db, id) {
        Some(t) => t,
        None => {
            return Err(RequestRemovalError::NotFound);
        },
    };
    if toy.retired_at.is_some() || toy.retirement_requested_at.is_some() {
        return Err(RequestRemovalError::Conflict);
    }
    let ghost p = by_id(id@);
    let ghost u = removal_requested(now);
    let change = |t: &Toy| -> (n: Option<Toy>)
        ensures
            match n {
                Some(x) => p(t@) && x@ == u(t@),
                None => !p(t@),
            },
        {
            if same(t.id.as_str(), id) {
                let mut n = t.dup();
                n.retirement_requested_at = Some(now);

                Some(n)
            } else {
                None
            }
        };
    crate::table::update(&mut db.toys, Ghost(p), Ghost(u), change);
    Ok(())
}

/// Retired now; a pending request is moot.
pub open spec fn retired(by: Seq<char>, now: i64) -> spec_fn(ToyView) -> ToyView {
    |t: ToyView|
        ToyView {
            retired_at: Some(now),
            retired_by_user_id: Some(by),
            retirement_requested_at: None,
            ..t
        }
}

/// The line that the Keyholder's act on a toy leaves in the log.
pub open spec fn toy_entry(action: Seq<char>, id: Seq<char>, by: Seq<char>) -> audit::EntryView {
    audit::EntryView {
        actor: audit::ActorView::User(by),
        link_id: None,
        action,
        entity_type: "toys"@,
        entity_id: id,
        detail: None,
    }
}

/// The ledger after a toy was retired.
pub open spec fn toy_retired(
    db: LedgerView,
    id: Seq<char>,
    by: Seq<char>,
    log_line_id: Seq<char>,
    now: i64,
) -> LedgerView {
    audit::logged(
        LedgerView { toys: updated(db.toys, by_id(id), retired(by, now)), ..db },
        log_line_id,
        toy_entry("toy.retired"@, id, by),
        now,
    )
}

/// Retires a toy, and logs it.
pub fn retire(db: &mut Ledger, id: &str, retired_by_user_id: &str, now: i64)
    ensures
        exists|log_line_id: Seq<char>|
            is_id(log_line_id) && final(db)@ == #[trigger] toy_retired(
                old(db)@,
                id@,
                retired_by_user_id@,
                log_line_id,
                now,
            ),
{
    let log_line_id = new_id();
    let ghost outcome = toy_retired(db@, id@, retired_by_user_id@, log_line_id@, now);
    let ghost p = by_id(id@);
    let ghost u = retired(retired_by_user_id@, now);
    let change = |t: &Toy| -> (n: Option<Toy>)
        ensures
            match n {
                Some(x) => p(t@) && x@ == u(t@),
                None => !p(t@),
            },
        {
            if same(t.id.as_str(), id) {
                let mut n = t.dup();
                n.retired_at = Some(now);
                n.retired_by_user_id = Some(own(retired_by_user_id));
                n.retirement_requested_at = None;

                Some(n)
            } else {
                None
            }
        };
    crate::table::update(&mut db.toys, Ghost(p), Ghost(u), change);
    let entry = audit::Entry {
        actor: audit::Actor::User(retired_by_user_id),
        link_id: None,
        action: "toy.retired",
        entity_type: "toys",
        entity_id: id,
        detail: None,
    };
    let _ = audit::record_as(db, log_line_id, entry, now);
    assert(db@ == outcome);
}

/// Why a removal was not declined.
#[derive(Clone, Copy, Debug, PartialEq, Eq, Structural)]
pub enum DeclineRemovalError {
    /// No request is pending.
    NotPending,
}

/// The toy with this id, its removal requested.
pub open spec fn removal_pending(id: Seq<char>) -> spec_fn(ToyView) -> bool {
    |t: ToyView| t.id == id && t.retirement_requested_at is Some
}

/// No removal requested.
pub open spec fn without_request() -> spec_fn(ToyView) -> ToyView {
    |t: ToyView| ToyView { retirement_requested_at: None, ..t }
}

/// The ledger after a removal was declined: the request is gone, the toy stays, and the log says
/// so.
pub open spec fn removal_declined(
    db: LedgerView,
    id: Seq<char>,
    by: Seq<char>,
    log_line_id: Seq<char>,
    now: i64,
) -> Result<LedgerView, DeclineRemovalError> {
    if !any_row(db.toys, removal_pending(id)) {
        Err(DeclineRemovalError::NotPending)
    } else {
        Ok(
            audit::logged(
                LedgerView {
                    toys: updated(db.toys, removal_pending(id), without_request()),
                    ..db
                },
                log_line_id,
                toy_entry("toy.removal_declined"@, id, by),
                now,
            ),
        )
    }
}

/// Declines a removal.
pub fn decline_removal(db: &mut Ledger, id: &str, declined_by_user_id: &str, now: i64) -> (r: Result<
    (),
    DeclineRemovalError,
>)
    ensures
        exists|log_line_id: Seq<char>|
            is_id(log_line_id) && match #[trigger] removal_declined(
                old(db)@,
                id@,
                declined_by_user_id@,
                log_line_id,
                now,
            ) {
                Ok(after) => r is Ok && final(db)@ == after,
                Err(e) => r == Err::<(), DeclineRemovalError>(e) && final(db)@ == old(db)@,
            },
{
    let log_line_id = new_id();
    let ghost outcome = removal_declined(db@, id@, declined_by_user_id@, log_line_id@, now);
    let ghost p = removal_pending(id@);
    let ghost u = without_request();
    let change = |t: &Toy| -> (n: Option<Toy>)
        ensures
            match n {
                Some(x) => p(t@) && x@ == u(t@),
                None => !p(t@),
            },
        {
            if same(t.id.as_str(), id) && t.retirement_requested_at.is_some() {
                let mut n = t.dup();
                n.retirement_requested_at = None;

                Some(n)
            } else {
                None
            }
        };
    if !crate::table::update(&mut db.toys, Ghost(p), Ghost(u), change) {
        proof {
            lemma_updated_none(old(db)@.toys, p, u);
        }
        assert(outcome is Err);
        return Err(DeclineRemovalError::NotPending);
    }
    let entry = audit::Entry {
        actor: audit::Actor::User(declined_by_user_id),
        link_id: None,
        action: "toy.removal_declined",
        entity_type: "toys",
        entity_id: id,
        detail: None,
    };
    let _ = audit::record_as(db, log_line_id, entry, now);
    assert(outcome is Ok);
    Ok(())
}

/// A toy that was retired is out of the catalog, unless retired toys are asked for, and no removal
/// can be requested for it.
pub proof fn law_retired_toys_are_hidden(
    db: LedgerView,
    id: Seq<char>,
    by: Seq<char>,
    log_line_id: Seq<char>,
    submissive_id: Seq<char>,
    now: i64,
)
    requires
        find_row(db.toys, by_id(id)) is Some,
    ensures
        ({
            let after = toy_retired(db, id, by, log_line_id, now);
            &&& forall|i: int|
                0 <= i < after.toys.len()
                    && in_catalog(submissive_id, false)(#[trigger] after.toys[i])
                    ==> after.toys[i].id != id
            &&& removable(find_row(after.toys, by_id(id))) == Err::<(), RequestRemovalError>(
                RequestRemovalError::Conflict,
            )
            &&& after.toys.len() == db.toys.len()
        }),
{
    lemma_find_any(db.toys, by_id(id));
    lemma_find_updated(db.toys, by_id(id), by_id(id), retired(by, now));
}

/// A request for removal hides nothing: the toy stays in the catalog, and a second request is
/// refused until the first is decided.
pub proof fn law_requests_hide_nothing(toys: Seq<ToyView>, id: Seq<char>, now: i64)
    requires
        removable(find_row(toys, by_id(id))) is Ok,
    ensures
        ({
            let after = updated(toys, by_id(id), removal_requested(now));
            &&& find_row(after, by_id(id))->0.retired_at is None
            &&& removable(find_row(after, by_id(id))) == Err::<(), RequestRemovalError>(
                RequestRemovalError::Conflict,
            )
        }),
{
    lemma_find_any(toys, by_id(id));
    lemma_find_updated(toys, by_id(id), by_id(id), removal_requested(now));
}

/// A declined request is gone, and can be made again.
pub proof fn law_declined_requests_can_be_made_again(
    db: LedgerView,
    id: Seq<char>,
    by: Seq<char>,
    log_line_id: Seq<char>,
    now: i64,
)
    requires
        find_row(db.toys, by_id(id)) matches Some(t) && t.retired_at is None
            && t.retirement_requested_at is Some,
    ensures
        removal_declined(db, id, by, log_line_id, now) matches Ok(after) && removable(
            find_row(after.toys, by_id(id)),
        ) is Ok,
{
    let t = find_row(db.toys, by_id(id))->0;
    lemma_find_any(db.toys, by_id(id));
    let k = choose|k: int| 0 <= k < db.toys.len() && db.toys[k] == t;
    assert(removal_pending(id)(db.toys[k]));
    lemma_find_updated(db.toys, by_id(id), removal_pending(id), without_request());
}

/// An edit does not change whose a toy is, nor whether it is retired.
pub proof fn law_edits_do_not_retire(t: ToyView, e: ToyView)
    ensures
        with_fields_of(e)(t).id == t.id,
        with_fields_of(e)(t).submissive_id == t.submissive_id,
        with_fields_of(e)(t).retired_at == t.retired_at,
        with_fields_of(e)(t).retirement_requested_at == t.retirement_requested_at,
{
}

/// A toy is added as it was described, in use.
pub proof fn law_toys_start_in_use(id: Seq<char>, new: NewToyView)
    ensures
        ({
            let t = new_row(id, new);
            &&& t.id == id && t.submissive_id == new.submissive_id
            &&& t.added_by_user_id == new.added_by_user_id && t.name == new.name
            &&& t.category == new.category && t.material == new.material && t.brand == new.brand
            &&& t.size_notes == new.size_notes && t.color == new.color
            &&& t.compatible_device_id == new.compatible_device_id
            &&& t.storage_location == new.storage_location
            &&& t.care_instructions == new.care_instructions && t.usage_notes == new.usage_notes
            &&& t.tags == new.tags && t.photo_attachment_path == new.photo_attachment_path
            &&& t.acquired_at == new.acquired_at && t.photo_mime_type is None
            &&& t.retirement_requested_at is None && t.retired_at is None
            &&& t.retired_by_user_id is None
        }),
{
}

/// An edit replaces what it gives and keeps the rest, of the toy it is about alone.
pub proof fn law_toys_are_edited_field_by_field(
    toys: Seq<ToyView>,
    id: Seq<char>,
    edit: ToyEditView,
    k: int,
)
    requires
        only(toys, k, |t: ToyView| t.id == id),
    ensures
        find_row(toys, by_id(id)) == Some(toys[k]),
        ({
            let t = toys[k];
            let after = updated(toys, by_id(id), with_fields_of(edited_toy(t, edit)));
            let e = after[k];
            &&& after == toys.update(k, e)
            &&& e == (ToyView {
                name: e.name,
                category: e.category,
                material: e.material,
                brand: e.brand,
                size_notes: e.size_notes,
                color: e.color,
                compatible_device_id: e.compatible_device_id,
                storage_location: e.storage_location,
                care_instructions: e.care_instructions,
                usage_notes: e.usage_notes,
                tags: e.tags,
                photo_attachment_path: e.photo_attachment_path,
                photo_mime_type: e.photo_mime_type,
                acquired_at: e.acquired_at,
                ..t
            })
            &&& edit.name is Some ==> e.name == edit.name->0
            &&& edit.name is None ==> e.name == t.name
            &&& edit.category is Some ==> e.category == edit.category->0
            &&& edit.category is None ==> e.category == t.category
            &&& edit.material is Some ==> e.material == edit.material->0
            &&& edit.material is None ==> e.material == t.material
            &&& edit.brand is Some ==> e.brand == edit.brand->0
            &&& edit.brand is None ==> e.brand == t.brand
            &&& edit.size_notes is Some ==> e.size_notes == edit.size_notes->0
            &&& edit.size_notes is None ==> e.size_notes == t.size_notes
            &&& edit.color is Some ==> e.color == edit.color->0
            &&& edit.color is None ==> e.color == t.color
            &&& edit.compatible_device_id is Some ==> e.compatible_device_id
                == edit.compatible_device_id->0
            &&& edit.compatible_device_id is None ==> e.compatible_device_id
                == t.compatible_device_id
            &&& edit.storage_location is Some ==> e.storage_location == edit.storage_location->0
            &&& edit.storage_location is None ==> e.storage_location == t.storage_location
            &&& edit.care_instructions is Some ==> e.care_instructions == edit.care_instructions->0
            &&& edit.care_instructions is None ==> e.care_instructions == t.care_instructions
            &&& edit.usage_notes is Some ==> e.usage_notes == edit.usage_notes->0
            &&& edit.usage_notes is None ==> e.usage_notes == t.usage_notes
            &&& edit.tags is Some ==> e.tags == edit.tags->0
            &&& edit.tags is None ==> e.tags == t.tags
            &&& edit.photo_attachment_path is Some ==> e.photo_attachment_path
                == edit.photo_attachment_path->0
            &&& edit.photo_attachment_path is None ==> e.photo_attachment_path
                == t.photo_attachment_path
            &&& edit.photo_mime_type is Some ==> e.photo_mime_type == edit.photo_mime_type->0
            &&& edit.photo_mime_type is None ==> e.photo_mime_type == t.photo_mime_type
            &&& edit.acquired_at is Some ==> e.acquired_at == edit.acquired_at->0
            &&& edit.acquired_at is None ==> e.acquired_at == t.acquired_at
        }),
{
    let named = |t: ToyView| t.id == id;
    lemma_find_only(toys, k, named, by_id(id));
    assert forall|j: int| 0 <= j < toys.len() && j != k implies (#[trigger] toys[j]).id != id by {
        assert(!named(toys[j]));
    }
}

/// A removal is requested of a toy in use that none is requested of; a retirement retires it, names
/// who did, and ends the request; a refusal ends the request and leaves the toy in use. The log tells
/// of the last two.
pub proof fn law_toys_leave_by_the_keyholder(
    db: LedgerView,
    id: Seq<char>,
    by: Seq<char>,
    log_line_id: Seq<char>,
    now: i64,
    k: int,
)
    requires
        only(db.toys, k, |t: ToyView| t.id == id),
    ensures
        ({
            let t = db.toys[k];
            let asked = updated(db.toys, by_id(id), removal_requested(now));
            &&& removable(find_row(db.toys, by_id(id))) == (if t.retired_at is None
                && t.retirement_requested_at is None {
                Ok::<(), RequestRemovalError>(())
            } else {
                Err(RequestRemovalError::Conflict)
            })
            &&& asked == db.toys.update(k, ToyView { retirement_requested_at: Some(now), ..t })
        }),
        ({
            let t = db.toys[k];
            let after = toy_retired(db, id, by, log_line_id, now);
            let line = after.audit_log.last();
            &&& after == (LedgerView {
                toys: db.toys.update(
                    k,
                    ToyView {
                        retired_at: Some(now),
                        retired_by_user_id: Some(by),
                        retirement_requested_at: None,
                        ..t
                    },
                ),
                audit_log: db.audit_log.push(line),
                ..db
            })
            &&& line.action == "toy.retired"@ && line.entity_type == "toys"@ && line.entity_id == id
            &&& line.actor_user_id == Some(by) && line.occurred_at == now
        }),
        ({
            let t = db.toys[k];
            match removal_declined(db, id, by, log_line_id, now) {
                Err(e) => e == DeclineRemovalError::NotPending && t.retirement_requested_at is None,
                Ok(after) => {
                    let line = after.audit_log.last();
                    &&& t.retirement_requested_at is Some
                    &&& after == (LedgerView {
                        toys: db.toys.update(k, ToyView { retirement_requested_at: None, ..t }),
                        audit_log: db.audit_log.push(line),
                        ..db
                    })
                    &&& line.action == "toy.removal_declined"@ && line.entity_type == "toys"@
                    &&& line.entity_id == id && line.actor_user_id == Some(by)
                    &&& line.occurred_at == now
                },
            }
        }),
{
    let named = |t: ToyView| t.id == id;
    lemma_find_only(db.toys, k, named, by_id(id));
    assert forall|j: int| 0 <= j < db.toys.len() && j != k implies (#[trigger] db.toys[j]).id
        != id by {
        assert(!named(db.toys[j]));
    }
    let p = removal_pending(id);
    if any_row(db.toys, p) {
        let j = choose|j: int| 0 <= j < db.toys.len() && p(#[trigger] db.toys[j]);
        assert(j == k);
    }
    assert(p(db.toys[k]) ==> any_row(db.toys, p));
}

/// A toy that is not there has no removal to ask for.
pub proof fn law_no_toy_no_removal(toys: Seq<ToyView>, id: Seq<char>)
    requires
        forall|j: int| 0 <= j < toys.len() ==> (#[trigger] toys[j]).id != id,
    ensures
        removable(find_row(toys, by_id(id))) == Err::<(), RequestRemovalError>(
            RequestRemovalError::NotFound,
        ),
{
    lemma_find_any(toys, by_id(id));
}

/// A catalog holds the submissive's toys, without the retired ones unless they are asked for, the
/// latest acquisition first and those without a date last.
pub proof fn law_catalogs_are_whole(
    listed: Seq<ToyView>,
    toys: Seq<ToyView>,
    submissive_id: Seq<char>,
    include_retired: bool,
)
    requires
        ordered_from(
            listed,
            toys.filter(in_catalog(submissive_id, include_retired)),
            catalog_order(),
        ),
    ensures
        forall|t: ToyView| #[trigger]
            listed.contains(t) <==> toys.contains(t) && t.submissive_id == submissive_id && (
            t.retired_at is Some ==> include_retired),
        forall|i: int, j: int|
            0 <= i < j < listed.len() && (#[trigger] listed[i]).acquired_at is None ==> (
            #[trigger] listed[j]).acquired_at is None,
        forall|i: int, j: int|
            0 <= i < j < listed.len() && (#[trigger] listed[i]).acquired_at is Some && (
            #[trigger] listed[j]).acquired_at is Some ==> listed[i].acquired_at->0
                >= listed[j].acquired_at->0,
        forall|i: int, j: int|
            0 <= i < j < listed.len() && (#[trigger] listed[i]).acquired_at == (
            #[trigger] listed[j]).acquired_at ==> at_least(listed[j].name, listed[i].name),
{
    lemma_listed(listed, toys, in_catalog(submissive_id, include_retired), catalog_order());
}

} // verus!
