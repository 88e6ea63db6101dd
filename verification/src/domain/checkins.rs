//! Check-ins: forms that a Keyholder writes, and what is reported on them. The color is always
//! there; a fresh red one can raise a safety alert.

use vstd::prelude::*;

use crate::domain::{links, safety};
use crate::ids::{are_ids, is_id, new_id, new_ids};
use crate::json::{lookup, member, object_fields, read_object, Field, FieldView};
use crate::ledger::{Ledger, LedgerView};
use crate::table::{
    find, find_row, insert, lemma_filter_contains, lemma_filter_empty, lemma_filter_meets,
    lemma_find_any, lemma_find_only, lemma_find_updated, lemma_listed, only, order, ordered_from,
    remove, rows, select, update, updated, Row,
};
use crate::text::{dup_opt, edited, edited_opt, opt_is, or_keep, own, own_opt, same};

verus! {

/// A check-in form.
#[derive(Debug, PartialEq, Eq)]
pub struct Template {
    pub id: String,
    pub keyholder_id: String,
    pub title: String,
    pub description: Option<String>,
    pub active: bool,
    pub auto_escalate_on_red: bool,
    pub created_at: i64,
}

/// What a `Template` holds.
#[verifier::ext_equal]
pub struct TemplateView {
    pub id: Seq<char>,
    pub keyholder_id: Seq<char>,
    pub title: Seq<char>,
    pub description: Option<Seq<char>>,
    pub active: bool,
    pub auto_escalate_on_red: bool,
    pub created_at: i64,
}

impl View for Template {
    type V = TemplateView;

    open spec fn view(&self) -> TemplateView {
        TemplateView {
            id: self.id@,
            keyholder_id: self.keyholder_id@,
            title: self.title@,
            description: self.description.deep_view(),
            active: self.active,
            auto_escalate_on_red: self.auto_escalate_on_red,
            created_at: self.created_at,
        }
    }
}

impl DeepView for Template {
    type V = TemplateView;

    open spec fn deep_view(&self) -> TemplateView {
        self.view()
    }
}

impl Row for Template {
    fn dup(&self) -> (r: Self) {
        Template {
            id: self.id.clone(),
            keyholder_id: self.keyholder_id.clone(),
            title: self.title.clone(),
            description: dup_opt(&self.description),
            active: self.active,
            auto_escalate_on_red: self.auto_escalate_on_red,
            created_at: self.created_at,
        }
    }
}

/// A field of a check-in form.
#[derive(Debug, PartialEq, Eq)]
pub struct TemplateField {
    pub id: String,
    pub position: i64,
    pub field_key: String,
    pub label: String,
    pub description: Option<String>,
    pub field_type: String,
    pub config: String,
    pub required: bool,
}

/// What a `TemplateField` holds.
#[verifier::ext_equal]
pub struct TemplateFieldView {
    pub id: Seq<char>,
    pub position: i64,
    pub field_key: Seq<char>,
    pub label: Seq<char>,
    pub description: Option<Seq<char>>,
    pub field_type: Seq<char>,
    pub config: Seq<char>,
    pub required: bool,
}

impl View for TemplateField {
    type V = TemplateFieldView;

    open spec fn view(&self) -> TemplateFieldView {
        TemplateFieldView {
            id: self.id@,
            position: self.position,
            field_key: self.field_key@,
            label: self.label@,
            description: self.description.deep_view(),
            field_type: self.field_type@,
            config: self.config@,
            required: self.required,
        }
    }
}

impl DeepView for TemplateField {
    type V = TemplateFieldView;

    open spec fn deep_view(&self) -> TemplateFieldView {
        self.view()
    }
}

impl Row for TemplateField {
    fn dup(&self) -> (r: Self) {
        TemplateField {
            id: self.id.clone(),
            position: self.position,
            field_key: self.field_key.clone(),
            label: self.label.clone(),
            description: dup_opt(&self.description),
            field_type: self.field_type.clone(),
            config: self.config.clone(),
            required: self.required,
        }
    }
}

/// A stored field and its form.
#[derive(Debug, PartialEq, Eq)]
pub struct FieldRow {
    pub template_id: String,
    pub field: TemplateField,
}

/// What a `FieldRow` holds.
#[verifier::ext_equal]
pub struct FieldRowView {
    pub template_id: Seq<char>,
    pub field: TemplateFieldView,
}

impl View for FieldRow {
    type V = FieldRowView;

    open spec fn view(&self) -> FieldRowView {
        FieldRowView {
            template_id: self.template_id@,
            field: self.field@,
        }
    }
}

impl DeepView for FieldRow {
    type V = FieldRowView;

    open spec fn deep_view(&self) -> FieldRowView {
        self.view()
    }
}

impl Row for FieldRow {
    fn dup(&self) -> (r: Self) {
        FieldRow {
            template_id: self.template_id.clone(),
            field: self.field.dup(),
        }
    }
}

/// What a new field is made from.
#[derive(Debug, PartialEq, Eq)]
pub struct NewField<'a> {
    pub field_key: &'a str,
    pub label: &'a str,
    pub description: Option<&'a str>,
    pub field_type: &'a str,
    pub config: &'a str,
    pub required: bool,
}

/// What a `NewField` holds.
#[verifier::ext_equal]
pub struct NewFieldView {
    pub field_key: Seq<char>,
    pub label: Seq<char>,
    pub description: Option<Seq<char>>,
    pub field_type: Seq<char>,
    pub config: Seq<char>,
    pub required: bool,
}

impl<'a> View for NewField<'a> {
    type V = NewFieldView;

    open spec fn view(&self) -> NewFieldView {
        NewFieldView {
            field_key: self.field_key@,
            label: self.label@,
            description: self.description.deep_view(),
            field_type: self.field_type@,
            config: self.config@,
            required: self.required,
        }
    }
}

impl<'a> DeepView for NewField<'a> {
    type V = NewFieldView;

    open spec fn deep_view(&self) -> NewFieldView {
        self.view()
    }
}

/// A check-in.
#[derive(Debug, PartialEq, Eq)]
pub struct Checkin {
    pub id: String,
    pub link_id: String,
    pub template_id: String,
    pub color: String,
    pub field_values: String,
    pub related_confinement_session_id: Option<String>,
    pub related_assignment_id: Option<String>,
    pub related_play_session_id: Option<String>,
    pub created_by_user_id: String,
    pub updated_by_user_id: Option<String>,
    pub created_at: i64,
    pub updated_at: i64,
}

/// What a `Checkin` holds.
#[verifier::ext_equal]
pub struct CheckinView {
    pub id: Seq<char>,
    pub link_id: Seq<char>,
    pub template_id: Seq<char>,
    pub color: Seq<char>,
    pub field_values: Seq<char>,
    pub related_confinement_session_id: Option<Seq<char>>,
    pub related_assignment_id: Option<Seq<char>>,
    pub related_play_session_id: Option<Seq<char>>,
    pub created_by_user_id: Seq<char>,
    pub updated_by_user_id: Option<Seq<char>>,
    pub created_at: i64,
    pub updated_at: i64,
}

impl View for Checkin {
    type V = CheckinView;

    open spec fn view(&self) -> CheckinView {
        CheckinView {
            id: self.id@,
            link_id: self.link_id@,
            template_id: self.template_id@,
            color: self.color@,
            field_values: self.field_values@,
            related_confinement_session_id: self.related_confinement_session_id.deep_view(),
            related_assignment_id: self.related_assignment_id.deep_view(),
            related_play_session_id: self.related_play_session_id.deep_view(),
            created_by_user_id: self.created_by_user_id@,
            updated_by_user_id: self.updated_by_user_id.deep_view(),
            created_at: self.created_at,
            updated_at: self.updated_at,
        }
    }
}

impl DeepView for Checkin {
    type V = CheckinView;

    open spec fn deep_view(&self) -> CheckinView {
        self.view()
    }
}

impl Row for Checkin {
    fn dup(&self) -> (r: Self) {
        Checkin {
            id: self.id.clone(),
            link_id: self.link_id.clone(),
            template_id: self.template_id.clone(),
            color: self.color.clone(),
            field_values: self.field_values.clone(),
            related_confinement_session_id: dup_opt(&self.related_confinement_session_id),
            related_assignment_id: dup_opt(&self.related_assignment_id),
            related_play_session_id: dup_opt(&self.related_play_session_id),
            created_by_user_id: self.created_by_user_id.clone(),
            updated_by_user_id: dup_opt(&self.updated_by_user_id),
            created_at: self.created_at,
            updated_at: self.updated_at,
        }
    }
}

/// Which check-ins to list; an unset field does not filter.
#[derive(Debug, PartialEq, Eq)]
pub struct CheckinFilter<'a> {
    pub color: Option<&'a str>,
    pub related_assignment_id: Option<&'a str>,
    pub related_confinement_session_id: Option<&'a str>,
    pub related_play_session_id: Option<&'a str>,
}

/// What a `CheckinFilter` holds.
#[verifier::ext_equal]
pub struct CheckinFilterView {
    pub color: Option<Seq<char>>,
    pub related_assignment_id: Option<Seq<char>>,
    pub related_confinement_session_id: Option<Seq<char>>,
    pub related_play_session_id: Option<Seq<char>>,
}

impl<'a> View for CheckinFilter<'a> {
    type V = CheckinFilterView;

    open spec fn view(&self) -> CheckinFilterView {
        CheckinFilterView {
            color: self.color.deep_view(),
            related_assignment_id: self.related_assignment_id.deep_view(),
            related_confinement_session_id: self.related_confinement_session_id.deep_view(),
            related_play_session_id: self.related_play_session_id.deep_view(),
        }
    }
}

/// What a new check-in is made from.
#[derive(Debug, PartialEq, Eq)]
pub struct NewCheckin<'a> {
    pub link_id: &'a str,
    pub template_id: &'a str,
    pub color: &'a str,
    pub field_values: &'a str,
    pub related_confinement_session_id: Option<&'a str>,
    pub related_assignment_id: Option<&'a str>,
    pub related_play_session_id: Option<&'a str>,
    pub created_by_user_id: &'a str,
}

/// What a `NewCheckin` holds.
#[verifier::ext_equal]
pub struct NewCheckinView {
    pub link_id: Seq<char>,
    pub template_id: Seq<char>,
    pub color: Seq<char>,
    pub field_values: Seq<char>,
    pub related_confinement_session_id: Option<Seq<char>>,
    pub related_assignment_id: Option<Seq<char>>,
    pub related_play_session_id: Option<Seq<char>>,
    pub created_by_user_id: Seq<char>,
}

impl<'a> View for NewCheckin<'a> {
    type V = NewCheckinView;

    open spec fn view(&self) -> NewCheckinView {
        NewCheckinView {
            link_id: self.link_id@,
            template_id: self.template_id@,
            color: self.color@,
            field_values: self.field_values@,
            related_confinement_session_id: self.related_confinement_session_id.deep_view(),
            related_assignment_id: self.related_assignment_id.deep_view(),
            related_play_session_id: self.related_play_session_id.deep_view(),
            created_by_user_id: self.created_by_user_id@,
        }
    }
}

/// A partial edit.
#[derive(Debug, PartialEq, Eq)]
pub struct CheckinEdit<'a> {
    pub color: Option<&'a str>,
    pub field_values: Option<&'a str>,
}

/// What a `CheckinEdit` holds.
#[verifier::ext_equal]
pub struct CheckinEditView {
    pub color: Option<Seq<char>>,
    pub field_values: Option<Seq<char>>,
}

impl<'a> View for CheckinEdit<'a> {
    type V = CheckinEditView;

    open spec fn view(&self) -> CheckinEditView {
        CheckinEditView {
            color: self.color.deep_view(),
            field_values: self.field_values.deep_view(),
        }
    }
}

impl CheckinEditView {
    /// Nothing set.
    pub open spec fn blank() -> CheckinEditView {
        CheckinEditView {
            color: None,
            field_values: None,
        }
    }
}

impl<'a> Default for CheckinEdit<'a> {
    fn default() -> (r: Self)
        ensures
            r@ == CheckinEditView::blank(),
    {
        CheckinEdit {
            color: None,
            field_values: None,
        }
    }
}

/// A partial edit of a form; `fields` replaces the whole list of fields.
#[derive(Debug, PartialEq, Eq)]
pub struct TemplateEdit<'a> {
    pub title: Option<&'a str>,
    pub description: Option<Option<&'a str>>,
    pub auto_escalate_on_red: Option<bool>,
    pub active: Option<bool>,
    /// `Some` replaces every field, `None` leaves them.
    pub fields: Option<Vec<NewField<'a>>>,
}

/// What a `TemplateEdit` holds.
#[verifier::ext_equal]
pub struct TemplateEditView {
    pub title: Option<Seq<char>>,
    pub description: Option<Option<Seq<char>>>,
    pub auto_escalate_on_red: Option<bool>,
    pub active: Option<bool>,
    pub fields: Option<Seq<NewFieldView>>,
}

impl<'a> View for TemplateEdit<'a> {
    type V = TemplateEditView;

    open spec fn view(&self) -> TemplateEditView {
        TemplateEditView {
            title: self.title.deep_view(),
            description: self.description.deep_view(),
            auto_escalate_on_red: self.auto_escalate_on_red,
            active: self.active,
            fields: self.fields.deep_view(),
        }
    }
}

impl TemplateEditView {
    /// Nothing set.
    pub open spec fn blank() -> TemplateEditView {
        TemplateEditView {
            title: None,
            description: None,
            auto_escalate_on_red: None,
            active: None,
            fields: None,
        }
    }
}

impl<'a> Default for TemplateEdit<'a> {
    fn default() -> (r: Self)
        ensures
            r@ == TemplateEditView::blank(),
    {
        TemplateEdit {
            title: None,
            description: None,
            auto_escalate_on_red: None,
            active: None,
            fields: None,
        }
    }
}

/// The form has this id.
pub open spec fn template_by_id(id: Seq<char>) -> spec_fn(TemplateView) -> bool {
    |t: TemplateView| t.id == id
}

/// The form with this id.
pub fn get_template(db: &Ledger, id: &str) -> (r: Option<Template>)
    ensures
        r.deep_view() == find_row(db@.checkin_templates, template_by_id(id@)),
{
    let ghost p = template_by_id(id@);
    let test = |t: &Template| -> (b: bool)
        ensures
            b == p(t@),
        { same(t.id.as_str(), id) };
    match find(&db.checkin_templates, Ghost(p), test) {
        Some(t) => Some(t.dup()),
        None => None,
    }
}

/// A field of this form.
pub open spec fn of_template(template_id: Seq<char>) -> spec_fn(FieldRowView) -> bool {
    |f: FieldRowView| f.template_id == template_id
}

/// The fields of a form.
pub open spec fn fields_of(db: LedgerView, template_id: Seq<char>) -> Seq<TemplateFieldView> {
    db.checkin_fields.filter(of_template(template_id)).map_values(|f: FieldRowView| f.field)
}

/// The fields of a form, in no particular order.
fn collect_fields(db: &Ledger, template_id: &str) -> (r: Vec<TemplateField>)
    ensures
        rows(r@) == fields_of(db@, template_id@),
{
    let ghost p = of_template(template_id@);
    let test = |f: &FieldRow| -> (b: bool)
        ensures
            b == p(f@),
        { same(f.template_id.as_str(), template_id) };
    let found = select(&db.checkin_fields, Ghost(p), test);
    let mut out: Vec<TemplateField> = Vec::new();
    let mut i: usize = 0;
    while i < found.len()
        invariant
            i <= found@.len(),
            out@.len() == i,
            forall|j: int| 0 <= j < i ==> #[trigger] out@[j]@ == found@[j]@.field,
        decreases found@.len() - i,
    {
        out.push(found[i].field.dup());
        i = i + 1;
    }
    assert(rows(out@) =~= rows(found@).map_values(|f: FieldRowView| f.field));
    out
}

/// In the order of their positions.
pub open spec fn by_position() -> spec_fn(TemplateFieldView, TemplateFieldView) -> bool {
    |a: TemplateFieldView, b: TemplateFieldView| a.position <= b.position
}

/// The fields of a form, in the order of their positions.
pub fn list_fields(db: &Ledger, template_id: &str) -> (r: Vec<TemplateField>)
    ensures
        ordered_from(rows(r@), fields_of(db@, template_id@), by_position()),
{
    let ghost le = by_position();
    let before = |a: &TemplateField, b: &TemplateField| -> (c: bool)
        ensures
            c == le(a@, b@),
        { a.position <= b.position };
    order(collect_fields(db, template_id), Ghost(le), before)
}

/// A form of this Keyholder.
pub open spec fn of_keyholder(keyholder_id: Seq<char>) -> spec_fn(TemplateView) -> bool {
    |t: TemplateView| t.keyholder_id == keyholder_id
}

/// Newest first.
pub open spec fn newest_template_first() -> spec_fn(TemplateView, TemplateView) -> bool {
    |a: TemplateView, b: TemplateView| a.created_at >= b.created_at
}

/// A Keyholder's forms, newest first.
pub fn list_templates_for_keyholder(db: &Ledger, keyholder_id: &str) -> (r: Vec<Template>)
    ensures
        ordered_from(
            rows(r@),
            db@.checkin_templates.filter(of_keyholder(keyholder_id@)),
            newest_template_first(),
        ),
{
    let ghost p = of_keyholder(keyholder_id@);
    let ghost le = newest_template_first();
    let test = |t: &Template| -> (b: bool)
        ensures
            b == p(t@),
        { same(t.keyholder_id.as_str(), keyholder_id) };
    let before = |a: &Template, b: &Template| -> (c: bool)
        ensures
            c == le(a@, b@),
        { a.created_at >= b.created_at };
    order(select(&db.checkin_templates, Ghost(p), test), Ghost(le), before)
}

/// The rows that new fields become, numbered as they come.
pub open spec fn field_rows(
    template_id: Seq<char>,
    fields: Seq<NewFieldView>,
    ids: Seq<Seq<char>>,
) -> Seq<FieldRowView> {
    Seq::new(
        fields.len(),
        |i: int|
            FieldRowView {
                template_id,
                field: TemplateFieldView {
                    id: ids[i],
                    position: i as i64,
                    field_key: fields[i].field_key,
                    label: fields[i].label,
                    description: fields[i].description,
                    field_type: fields[i].field_type,
                    config: fields[i].config,
                    required: fields[i].required,
                },
            },
    )
}

/// The ledger with the fields of a form replaced.
pub open spec fn fields_replaced(
    db: LedgerView,
    template_id: Seq<char>,
    fields: Seq<NewFieldView>,
    ids: Seq<Seq<char>>,
) -> LedgerView {
    LedgerView {
        checkin_fields: db.checkin_fields.filter(
            |f: FieldRowView| !of_template(template_id)(f),
        ) + field_rows(template_id, fields, ids),
        ..db
    }
}

/// Replaces the fields of a form.
fn replace_fields(db: &mut Ledger, template_id: &str, fields: &[NewField], ids: &Vec<String>)
    requires
        ids@.len() >= fields@.len(),
    ensures
        final(db)@ == fields_replaced(
            old(db)@,
            template_id@,
            fields.deep_view(),
            ids.deep_view(),
        ),
{
    let ghost p = of_template(template_id@);
    let test = |f: &FieldRow| -> (b: bool)
        ensures
            b == p(f@),
        { same(f.template_id.as_str(), template_id) };
    remove(&mut db.checkin_fields, Ghost(p), test);
    let ghost q = |f: FieldRowView| !p(f);
    let ghost kept = db@;
    assert(kept.checkin_fields == old(db)@.checkin_fields.filter(q));
    assert(q =~= |f: FieldRowView| !of_template(template_id@)(f));
    let ghost new = field_rows(template_id@, fields.deep_view(), ids.deep_view());
    let mut i: usize = 0;
    assert(kept.checkin_fields + new.take(0) =~= kept.checkin_fields);
    while i < fields.len()
        invariant
            i <= fields@.len(),
            ids@.len() >= fields@.len(),
            new == field_rows(template_id@, fields.deep_view(), ids.deep_view()),
            db@ == (LedgerView {
                checkin_fields: kept.checkin_fields + new.take(i as int),
                ..kept
            }),
        decreases fields@.len() - i,
    {
        let f = &fields[i];
        assert(fields.deep_view()[i as int] == f@);
        insert(
            &mut db.checkin_fields,
            FieldRow {
                template_id: own(template_id),
                field: TemplateField {
                    id: ids[i].clone(),
                    position: i as i64,
                    field_key: own(f.field_key),
                    label: own(f.label),
                    description: own_opt(f.description),
                    field_type: own(f.field_type),
                    config: own(f.config),
                    required: f.required,
                },
            },
        );
        assert(kept.checkin_fields + new.take(i + 1) =~= (kept.checkin_fields + new.take(
            i as int,
        )).push(new[i as int]));
        i = i + 1;
    }
    assert(new.take(new.len() as int) =~= new);
}

/// The ledger with one more form.
pub open spec fn template_created(
    db: LedgerView,
    id: Seq<char>,
    field_ids: Seq<Seq<char>>,
    keyholder_id: Seq<char>,
    title: Seq<char>,
    description: Option<Seq<char>>,
    auto_escalate_on_red: bool,
    fields: Seq<NewFieldView>,
    now: i64,
) -> LedgerView {
    fields_replaced(
        LedgerView {
            checkin_templates: db.checkin_templates.push(
                TemplateView {
                    id,
                    keyholder_id,
                    title,
                    description,
                    active: true,
                    auto_escalate_on_red,
                    created_at: now,
                },
            ),
            ..db
        },
        id,
        fields,
        field_ids,
    )
}

/// Creates a form; its id.
pub fn create_template(
    db: &mut Ledger,
    keyholder_id: &str,
    title: &str,
    description: Option<&str>,
    auto_escalate_on_red: bool,
    fields: &[NewField],
    now: i64,
) -> (r: String)
    ensures
        is_id(r@),
        exists|field_ids: Seq<Seq<char>>|
            are_ids(field_ids, fields@.len()) && final(db)@ == #[trigger] template_created(
                old(db)@,
                r@,
                field_ids,
                keyholder_id@,
                title@,
                description.deep_view(),
                auto_escalate_on_red,
                fields.deep_view(),
                now,
            ),
{
    let id = new_id();
    let field_ids = new_ids(fields.len());
    let ghost outcome = template_created(
        db@,
        id@,
        field_ids.deep_view(),
        keyholder_id@,
        title@,
        description.deep_view(),
        auto_escalate_on_red,
        fields.deep_view(),
        now,
    );
    insert(
        &mut db.checkin_templates,
        Template {
            id: id.clone(),
            keyholder_id: own(keyholder_id),
            title: own(title),
            description: own_opt(description),
            active: true,
            auto_escalate_on_red,
            created_at: now,
        },
    );
    replace_fields(db, id.as_str(), fields, &field_ids);
    assert(db@ == outcome);
    id
}

/// With these terms.
pub open spec fn with_terms(
    title: Seq<char>,
    description: Option<Seq<char>>,
    auto_escalate_on_red: bool,
    active: bool,
) -> spec_fn(TemplateView) -> TemplateView {
    |t: TemplateView| TemplateView { title, description, auto_escalate_on_red, active, ..t }
}

/// The ledger after an edit of a form, or nothing where it is not this Keyholder's. What was
/// reported on the form stays as it is.
pub open spec fn template_edited(
    db: LedgerView,
    id: Seq<char>,
    keyholder_id: Seq<char>,
    edit: TemplateEditView,
    field_ids: Seq<Seq<char>>,
) -> Option<LedgerView> {
    match find_row(db.checkin_templates, template_by_id(id)) {
        None => None,
        Some(t) => if t.keyholder_id != keyholder_id {
            None
        } else {
            let after = LedgerView {
                checkin_templates: updated(
                    db.checkin_templates,
                    template_by_id(id),
                    with_terms(
                        or_keep(edit.title, t.title),
                        or_keep(edit.description, t.description),
                        or_keep(edit.auto_escalate_on_red, t.auto_escalate_on_red),
                        or_keep(edit.active, t.active),
                    ),
                ),
                ..db
            };
            Some(
                match edit.fields {
                    None => after,
                    Some(fields) => fields_replaced(after, id, fields, field_ids),
                },
            )
        },
    }
}

/// How many fields an edit gives a form.
pub open spec fn fields_given(edit: TemplateEditView) -> nat {
    match edit.fields {
        Some(fields) => fields.len(),
        None => 0,
    }
}

/// Edits a form; `false` where it is not this Keyholder's.
pub fn update_template(db: &mut Ledger, id: &str, keyholder_id: &str, edit: TemplateEdit) -> (r: bool)
    ensures
        exists|field_ids: Seq<Seq<char>>|
            are_ids(field_ids, fields_given(edit@))
                && match #[trigger] template_edited(old(db)@, id@, keyholder_id@, edit@, field_ids) {
                Some(after) => r && final(db)@ == after,
                None => !r && final(db)@ == old(db)@,
            },
{
    let field_ids = match &edit.fields {
        Some(fields) => new_ids(fields.len()),
        None => Vec::new(),
    };
    let ghost outcome = template_edited(db@, id@, keyholder_id@, edit@, field_ids.deep_view());
    let current = match get_template(db, id) {
        Some(t) => t,
        None => {
            assert(outcome is None);
            return false;
        },
    };
    if !same(current.keyholder_id.as_str(), keyholder_id) {
        assert(outcome is None);
        return false;
    }
    let title = edited(edit.title, current.title.as_str());
    let description = edited_opt(edit.description, &current.description);
    let auto_escalate_on_red = match edit.auto_escalate_on_red {
        Some(b) => b,
        None => current.auto_escalate_on_red,
    };
    let active = match edit.active {
        Some(b) => b,
        None => current.active,
    };
    let ghost p = template_by_id(id@);
    let ghost u = with_terms(title@, description.deep_view(), auto_escalate_on_red, active);
    let change = |t: &Template| -> (n: Option<Template>)
        ensures
            match n {
                Some(x) => p(t@) && x@ == u(t@),
                None => !p(t@),
            },
        {
            if same(t.id.as_str(), id) {
                let mut n = t.dup();
                n.title = title.clone();
                n.description = dup_opt(&description);
                n.auto_escalate_on_red = auto_escalate_on_red;
                n.active = active;

                Some(n)
            } else {
                None
            }
        };
    update(&mut db.checkin_templates, Ghost(p), Ghost(u), change);
    if let Some(fields) = &edit.fields {
        replace_fields(db, id, fields.as_slice(), &field_ids);
    }
    assert(outcome is Some);
    true
}

/// The check-in has this id.
pub open spec fn by_id(id: Seq<char>) -> spec_fn(CheckinView) -> bool {
    |c: CheckinView| c.id == id
}

/// The check-in with this id.
pub fn get_checkin(db: &Ledger, id: &str) -> (r: Option<Checkin>)
    ensures
        r.deep_view() == find_row(db@.checkins, by_id(id@)),
{
    let ghost p = by_id(id@);
    let test = |c: &Checkin| -> (b: bool)
        ensures
            b == p(c@),
        { same(c.id.as_str(), id) };
    match find(&db.checkins, Ghost(p), test) {
        Some(c) => Some(c.dup()),
        None => None,
    }
}

/// On this link, and as the filter asks.
pub open spec fn matching(link_id: Seq<char>, filter: CheckinFilterView) -> spec_fn(
    CheckinView,
) -> bool {
    |c: CheckinView|
        {
            &&& c.link_id == link_id
            &&& filter.color matches Some(x) ==> c.color == x
            &&& filter.related_assignment_id matches Some(x) ==> c.related_assignment_id == Some(x)
            &&& filter.related_confinement_session_id matches Some(x)
                ==> c.related_confinement_session_id == Some(x)
            &&& filter.related_play_session_id matches Some(x) ==> c.related_play_session_id
                == Some(x)
        }
}

/// Newest first.
pub open spec fn newest_first() -> spec_fn(CheckinView, CheckinView) -> bool {
    |a: CheckinView, b: CheckinView| a.created_at >= b.created_at
}

/// Whether a text that may be absent is the one asked for, where one is.
fn agrees(value: &Option<String>, asked: Option<&str>) -> (r: bool)
    ensures
        r == (asked.deep_view() matches Some(x) ==> value.deep_view() == Some(x)),
{
    match asked {
        Some(x) => opt_is(value, x),
        None => true,
    }
}

/// The check-ins on a link that a filter asks for, newest first.
pub fn list_for_link(db: &Ledger, link_id: &str, filter: CheckinFilter) -> (r: Vec<Checkin>)
    ensures
        ordered_from(rows(r@), db@.checkins.filter(matching(link_id@, filter@)), newest_first()),
{
    let ghost p = matching(link_id@, filter@);
    let ghost le = newest_first();
    let test = |c: &Checkin| -> (b: bool)
        ensures
            b == p(c@),
        {
            same(c.link_id.as_str(), link_id) && match filter.color {
                Some(x) => same(c.color.as_str(), x),
                None => true,
            } && agrees(&c.related_assignment_id, filter.related_assignment_id) && agrees(
                &c.related_confinement_session_id,
                filter.related_confinement_session_id,
            ) && agrees(&c.related_play_session_id, filter.related_play_session_id)
        };
    let before = |a: &Checkin, b: &Checkin| -> (c: bool)
        ensures
            c == le(a@, b@),
        { a.created_at >= b.created_at };
    order(select(&db.checkins, Ghost(p), test), Ghost(le), before)
}

/// A required field has no value: its key is missing, or null.
pub open spec fn unanswered(f: TemplateFieldView, members: Seq<(Seq<char>, FieldView)>) -> bool {
    f.required && (member(members, f.field_key) is None || member(members, f.field_key)
        == Some(FieldView::Null))
}

/// Some required field has no value.
pub open spec fn lacks_answer(
    fields: Seq<TemplateFieldView>,
    members: Seq<(Seq<char>, FieldView)>,
) -> bool {
    exists|i: int| 0 <= i < fields.len() && unanswered(#[trigger] fields[i], members)
}

/// Whether some required field has no value among the members of an object.
pub fn check_answers(fields: &Vec<TemplateField>, members: &Vec<(String, Field)>) -> (r: bool)
    ensures
        r == lacks_answer(rows(fields@), members.deep_view()),
{
    let mut i: usize = 0;
    while i < fields.len()
        invariant
            i <= fields@.len(),
            forall|j: int|
                0 <= j < i ==> !unanswered(#[trigger] rows(fields@)[j], members.deep_view()),
        decreases fields@.len() - i,
    {
        let f = &fields[i];
        assert(rows(fields@)[i as int] == f@);
        if f.required {
            let answered = match lookup(members, f.field_key.as_str()) {
                None => false,
                Some(Field::Null) => false,
                Some(_) => true,
            };
            if !answered {
                assert(unanswered(rows(fields@)[i as int], members.deep_view()));
                return true;
            }
        }
        i = i + 1;
    }
    false
}

/// The values lack a required field, or are not an object at all.
pub open spec fn missing(values: Seq<char>, fields: Seq<TemplateFieldView>) -> bool {
    match object_fields(values) {
        None => true,
        Some(members) => lacks_answer(fields, members),
    }
}

/// Whether the values lack a required field, or are not an object at all.
pub fn missing_required_field(field_values: &str, fields: &Vec<TemplateField>) -> (r: bool)
    ensures
        r == missing(field_values@, rows(fields@)),
{
    match read_object(field_values) {
        None => true,
        Some(members) => check_answers(fields, &members),
    }
}

/// Why a check-in was not taken.
#[derive(Clone, Copy, Debug, PartialEq, Eq, Structural)]
pub enum CreateCheckinError {
    /// There is no such form, or it is not one of the link's Keyholder.
    TemplateNotFound,
    /// A required field has no value.
    MissingRequiredField,
}

/// A check-in as it comes in.
pub open spec fn new_row(id: Seq<char>, new: NewCheckinView, now: i64) -> CheckinView {
    CheckinView {
        id,
        link_id: new.link_id,
        template_id: new.template_id,
        color: new.color,
        field_values: new.field_values,
        related_confinement_session_id: new.related_confinement_session_id,
        related_assignment_id: new.related_assignment_id,
        related_play_session_id: new.related_play_session_id,
        created_by_user_id: new.created_by_user_id,
        updated_by_user_id: None,
        created_at: now,
        updated_at: now,
    }
}

/// The message of the alert that a red check-in raises.
pub open spec fn red_message(title: Seq<char>) -> Seq<char> {
    "Auto-raised: RED on '"@ + title + "'"@
}

/// The alert that a red check-in raises.
pub open spec fn red_alert(
    submissive_id: Seq<char>,
    link_id: Seq<char>,
    checkin_id: Seq<char>,
    title: Seq<char>,
) -> safety::RaiseView {
    safety::RaiseView {
        submissive_id,
        link_id,
        raised_via: safety::RaisedVia::System,
        related_checkin_id: Some(checkin_id),
        message: Some(red_message(title)),
    }
}

/// Raises the alert of a red check-in.
fn raise_red(
    db: &mut Ledger,
    submissive_id: &str,
    link_id: &str,
    checkin_id: &str,
    title: &str,
    alert_id: String,
    log_line_id: String,
    now: i64,
)
    ensures
        final(db)@ == safety::raised(
            old(db)@,
            alert_id@,
            log_line_id@,
            red_alert(submissive_id@, link_id@, checkin_id@, title@),
            now,
        ),
{
    let message = own("Auto-raised: RED on '").concat(title).concat("'");
    safety::raise_as(
        db,
        alert_id,
        log_line_id,
        safety::Raise {
            submissive_id,
            link_id,
            raised_via: safety::RaisedVia::System,
            related_checkin_id: Some(checkin_id),
            message: Some(message.as_str()),
        },
        now,
    );
}

/// The ids that a check-in may need: its own, that of the alert it raises, and that of the line
/// which the alert leaves in the log.
#[derive(Debug, PartialEq, Eq)]
pub struct CheckinIds {
    pub checkin: String,
    pub alert: String,
    pub log_line: String,
}

/// What `CheckinIds` hold.
#[verifier::ext_equal]
pub struct CheckinIdsView {
    pub checkin: Seq<char>,
    pub alert: Seq<char>,
    pub log_line: Seq<char>,
}

impl CheckinIdsView {
    /// All of them are row identifiers.
    pub open spec fn are_ids(self) -> bool {
        &&& is_id(self.checkin)
        &&& is_id(self.alert)
        &&& is_id(self.log_line)
    }
}

impl View for CheckinIds {
    type V = CheckinIdsView;

    open spec fn view(&self) -> CheckinIdsView {
        CheckinIdsView { checkin: self.checkin@, alert: self.alert@, log_line: self.log_line@ }
    }
}

/// The form is one of the Keyholder on this link.
pub open spec fn links_own(links: Seq<links::LinkView>, t: TemplateView, link_id: Seq<char>) -> bool {
    find_row(links, links::by_id(link_id)) matches Some(l) && t.keyholder_id == l.keyholder_id
}

/// The ledger after a check-in, and the alert that it raised: a red one raises one where the form
/// asks for that. The form has to be one of the link's Keyholder.
pub open spec fn checkin_created(
    db: LedgerView,
    new: NewCheckinView,
    submissive_id: Seq<char>,
    ids: CheckinIdsView,
    now: i64,
) -> Result<(LedgerView, Option<Seq<char>>), CreateCheckinError> {
    match find_row(db.checkin_templates, template_by_id(new.template_id)) {
        None => Err(CreateCheckinError::TemplateNotFound),
        Some(t) => if !links_own(db.links, t, new.link_id) {
            Err(CreateCheckinError::TemplateNotFound)
        } else if missing(new.field_values, fields_of(db, new.template_id)) {
            Err(CreateCheckinError::MissingRequiredField)
        } else {
            let after = LedgerView {
                checkins: db.checkins.push(new_row(ids.checkin, new, now)),
                ..db
            };
            if new.color == "red"@ && t.auto_escalate_on_red {
                Ok(
                    (
                        safety::raised(
                            after,
                            ids.alert,
                            ids.log_line,
                            red_alert(submissive_id, new.link_id, ids.checkin, t.title),
                            now,
                        ),
                        Some(ids.alert),
                    ),
                )
            } else {
                Ok((after, None))
            }
        },
    }
}

/// Takes a check-in under the ids given; the id of the alert that it raised.
pub fn create_checkin_as(
    db: &mut Ledger,
    new: NewCheckin,
    submissive_id: &str,
    ids: CheckinIds,
    now: i64,
) -> (r: Result<Option<String>, CreateCheckinError>)
    ensures
        match checkin_created(old(db)@, new@, submissive_id@, ids@, now) {
            Ok((after, alert)) => r is Ok && r->Ok_0.deep_view() == alert && final(db)@ == after,
            Err(e) => r == Err::<Option<String>, CreateCheckinError>(e) && final(db)@ == old(db)@,
        },
{
    let template = match get_template(db, new.template_id) {
        Some(t) => t,
        None => {
            return Err(CreateCheckinError::TemplateNotFound);
        },
    };
    let own_form = match links::get(db, new.link_id) {
        Some(l) => same(template.keyholder_id.as_str(), l.keyholder_id.as_str()),
        None => false,
    };
    if !own_form {
        return Err(CreateCheckinError::TemplateNotFound);
    }
    let fields = collect_fields(db, new.template_id);
    if missing_required_field(new.field_values, &fields) {
        return Err(CreateCheckinError::MissingRequiredField);
    }
    insert(
        &mut db.checkins,
        Checkin {
            id: ids.checkin.clone(),
            link_id: own(new.link_id),
            template_id: own(new.template_id),
            color: own(new.color),
            field_values: own(new.field_values),
            related_confinement_session_id: own_opt(new.related_confinement_session_id),
            related_assignment_id: own_opt(new.related_assignment_id),
            related_play_session_id: own_opt(new.related_play_session_id),
            created_by_user_id: own(new.created_by_user_id),
            updated_by_user_id: None,
            created_at: now,
            updated_at: now,
        },
    );
    if same(new.color, "red") && template.auto_escalate_on_red {
        let alert = ids.alert.clone();
        raise_red(
            db,
            submissive_id,
            new.link_id,
            ids.checkin.as_str(),
            template.title.as_str(),
            ids.alert,
            ids.log_line,
            now,
        );
        return Ok(Some(alert));
    }
    Ok(None)
}

/// Takes a check-in; its id, and that of the alert that it raised.
pub fn create_checkin(db: &mut Ledger, new: NewCheckin, submissive_id: &str, now: i64) -> (r: Result<
    (String, Option<String>),
    CreateCheckinError,
>)
    ensures
        exists|ids: CheckinIdsView|
            ids.are_ids()
                && match #[trigger] checkin_created(old(db)@, new@, submissive_id@, ids, now) {
                Ok((after, alert)) => r is Ok && r->Ok_0.0@ == ids.checkin
                    && r->Ok_0.1.deep_view() == alert && final(db)@ == after,
                Err(e) => r == Err::<(String, Option<String>), CreateCheckinError>(e)
                    && final(db)@ == old(db)@,
            },
{
    let ids = CheckinIds { checkin: new_id(), alert: new_id(), log_line: new_id() };
    let id = ids.checkin.clone();
    let ghost outcome = checkin_created(db@, new@, submissive_id@, ids@, now);
    match create_checkin_as(db, new, submissive_id, ids, now) {
        Ok(alert) => {
            assert(outcome is Ok);
            Ok((id, alert))
        },
        Err(e) => {
            assert(outcome is Err);
            Err(e)
        },
    }
}

/// Why a check-in was not edited.
#[derive(Clone, Copy, Debug, PartialEq, Eq, Structural)]
pub enum UpdateCheckinError {
    /// There is no such check-in.
    NotFound,
}

/// With this color and these values.
pub open spec fn with_report(
    color: Seq<char>,
    field_values: Seq<char>,
    by: Seq<char>,
    now: i64,
) -> spec_fn(CheckinView) -> CheckinView {
    |c: CheckinView|
        CheckinView { color, field_values, updated_by_user_id: Some(by), updated_at: now, ..c }
}

/// The ledger after an edit, and the alert that it raised: only a check-in that turns red raises
/// one, where its form asks for that.
pub open spec fn checkin_edited(
    db: LedgerView,
    id: Seq<char>,
    edit: CheckinEditView,
    submissive_id: Seq<char>,
    by: Seq<char>,
    ids: CheckinIdsView,
    now: i64,
) -> Result<(LedgerView, Option<Seq<char>>), UpdateCheckinError> {
    match find_row(db.checkins, by_id(id)) {
        None => Err(UpdateCheckinError::NotFound),
        Some(c) => {
            let color = or_keep(edit.color, c.color);
            let after = LedgerView {
                checkins: updated(
                    db.checkins,
                    by_id(id),
                    with_report(color, or_keep(edit.field_values, c.field_values), by, now),
                ),
                ..db
            };
            match find_row(db.checkin_templates, template_by_id(c.template_id)) {
                Some(t) if color == "red"@ && c.color != "red"@ && t.auto_escalate_on_red => Ok(
                    (
                        safety::raised(
                            after,
                            ids.alert,
                            ids.log_line,
                            red_alert(submissive_id, c.link_id, id, t.title),
                            now,
                        ),
                        Some(ids.alert),
                    ),
                ),
                _ => Ok((after, None)),
            }
        },
    }
}

/// Edits a check-in under the ids given; the id of the alert that it raised.
pub fn update_checkin_as(
    db: &mut Ledger,
    id: &str,
    edit: CheckinEdit,
    submissive_id: &str,
    updated_by_user_id: &str,
    ids: CheckinIds,
    now: i64,
) -> (r: Result<Option<String>, UpdateCheckinError>)
    ensures
        match checkin_edited(
            old(db)@,
            id@,
            edit@,
            submissive_id@,
            updated_by_user_id@,
            ids@,
            now,
        ) {
            Ok((after, alert)) => r is Ok && r->Ok_0.deep_view() == alert && final(db)@ == after,
            Err(e) => r == Err::<Option<String>, UpdateCheckinError>(e) && final(db)@ == old(db)@,
        },
{
    let current = match get_checkin(db, id) {
        Some(c) => c,
        None => {
            return Err(UpdateCheckinError::NotFound);
        },
    };
    let color = edited(edit.color, current.color.as_str());
    let field_values = edited(edit.field_values, current.field_values.as_str());
    let template = get_template(db, current.template_id.as_str());
    let ghost p = by_id(id@);
    let ghost u = with_report(color@, field_values@, updated_by_user_id@, now);
    let change = |c: &Checkin| -> (n: Option<Checkin>)
        ensures
            match n {
                Some(x) => p(c@) && x@ == u(c@),
                None => !p(c@),
            },
        {
            if same(c.id.as_str(), id) {
                let mut n = c.dup();
                n.color = color.clone();
                n.field_values = field_values.clone();
                n.updated_by_user_id = Some(own(updated_by_user_id));
                n.updated_at = now;

                Some(n)
            } else {
                None
            }
        };
    update(&mut db.checkins, Ghost(p), Ghost(u), change);
    let turned_red = same(color.as_str(), "red") && !same(current.color.as_str(), "red");
    if let Some(t) = template {
        if turned_red && t.auto_escalate_on_red {
            let alert = ids.alert.clone();
            raise_red(
                db,
                submissive_id,
                current.link_id.as_str(),
                id,
                t.title.as_str(),
                ids.alert,
                ids.log_line,
                now,
            );
            return Ok(Some(alert));
        }
    }
    Ok(None)
}

/// Edits a check-in; the id of the alert that it raised.
pub fn update_checkin(
    db: &mut Ledger,
    id: &str,
    edit: CheckinEdit,
    submissive_id: &str,
    updated_by_user_id: &str,
    now: i64,
) -> (r: Result<Option<String>, UpdateCheckinError>)
    ensures
        exists|ids: CheckinIdsView|
            is_id(ids.alert) && is_id(ids.log_line) && match #[trigger] checkin_edited(
                old(db)@,
                id@,
                edit@,
                submissive_id@,
                updated_by_user_id@,
                ids,
                now,
            ) {
                Ok((after, alert)) => r is Ok && r->Ok_0.deep_view() == alert && final(db)@
                    == after,
                Err(e) => r == Err::<Option<String>, UpdateCheckinError>(e) && final(db)@
                    == old(db)@,
            },
{
    let ids = CheckinIds { checkin: own(id), alert: new_id(), log_line: new_id() };
    update_checkin_as(db, id, edit, submissive_id, updated_by_user_id, ids, now)
}

/// Only a turn to red raises an alert: an edit of a check-in that is red already raises none, nor
/// does one to another color.
pub proof fn law_only_a_turn_to_red_alerts(
    db: LedgerView,
    id: Seq<char>,
    edit: CheckinEditView,
    submissive_id: Seq<char>,
    by: Seq<char>,
    ids: CheckinIdsView,
    now: i64,
)
    requires
        find_row(db.checkins, by_id(id)) matches Some(c) && (c.color == "red"@ || or_keep(
            edit.color,
            c.color,
        ) != "red"@),
    ensures
        checkin_edited(db, id, edit, submissive_id, by, ids, now) matches Ok((after, alert))
            && alert is None && after.alerts == db.alerts && after.audit_log == db.audit_log,
{
}

/// Saving a check-in red twice raises one alert: the second save finds it red.
pub proof fn law_red_alerts_once(
    db: LedgerView,
    id: Seq<char>,
    edit: CheckinEditView,
    again: CheckinEditView,
    submissive_id: Seq<char>,
    by: Seq<char>,
    ids: CheckinIdsView,
    fresh: CheckinIdsView,
    now: i64,
    later: i64,
)
    requires
        checkin_edited(db, id, edit, submissive_id, by, ids, now) is Ok,
        edit.color == Some("red"@),
    ensures
        ({
            let once = checkin_edited(db, id, edit, submissive_id, by, ids, now)->Ok_0.0;
            &&& checkin_edited(once, id, again, submissive_id, by, fresh, later) is Ok
            &&& checkin_edited(once, id, again, submissive_id, by, fresh, later)->Ok_0.1 is None
        }),
{
    let c = find_row(db.checkins, by_id(id))->0;
    lemma_find_any(db.checkins, by_id(id));
    lemma_find_updated(
        db.checkins,
        by_id(id),
        by_id(id),
        with_report("red"@, or_keep(edit.field_values, c.field_values), by, now),
    );
}

/// An alert that a check-in raises names the check-in, and the check-in is stored with it.
pub proof fn law_red_alert_names_its_checkin(
    db: LedgerView,
    new: NewCheckinView,
    submissive_id: Seq<char>,
    ids: CheckinIdsView,
    now: i64,
)
    ensures
        checkin_created(db, new, submissive_id, ids, now) matches Ok((after, alert)) ==> {
            &&& after.checkins == db.checkins.push(new_row(ids.checkin, new, now))
            &&& alert is Some ==> new.color == "red"@ && after.alerts.len() == db.alerts.len() + 1
                && after.alerts.last().related_checkin_id == Some(ids.checkin)
                && after.alerts.last().id == alert->0
            &&& alert is None ==> after.alerts == db.alerts
        },
{
}

/// Editing a form rewrites no check-in that was made on it.
pub proof fn law_forms_do_not_rewrite_reports(
    db: LedgerView,
    id: Seq<char>,
    keyholder_id: Seq<char>,
    edit: TemplateEditView,
    field_ids: Seq<Seq<char>>,
)
    ensures
        template_edited(db, id, keyholder_id, edit, field_ids) matches Some(after)
            ==> after.checkins == db.checkins,
{
}

/// A new list of fields replaces the old one whole, and touches no other form's.
pub proof fn law_fields_are_replaced_whole(
    db: LedgerView,
    id: Seq<char>,
    other: Seq<char>,
    fields: Seq<NewFieldView>,
    ids: Seq<Seq<char>>,
)
    requires
        id != other,
    ensures
        ({
            let after = fields_replaced(db, id, fields, ids).checkin_fields;
            &&& after.filter(of_template(id)) == field_rows(id, fields, ids)
            &&& after.filter(of_template(other)) == db.checkin_fields.filter(of_template(other))
        }),
{
    let keep = |f: FieldRowView| !of_template(id)(f);
    let kept = db.checkin_fields.filter(keep);
    let new = field_rows(id, fields, ids);
    lemma_filter_meets(db.checkin_fields, keep);
    lemma_filter_of_sum(kept, new, of_template(id));
    lemma_filter_of_sum(kept, new, of_template(other));
    lemma_filter_all(new, of_template(id));
    lemma_filter_none(kept, of_template(id));
    lemma_filter_none(new, of_template(other));
    lemma_filter_twice(db.checkin_fields, keep, of_template(other));
    assert(kept.filter(of_template(id)) + new =~= new);
    assert(kept.filter(of_template(other)) + new.filter(of_template(other)) =~= kept.filter(
        of_template(other),
    ));
}

/// A filter of two lists in a row.
proof fn lemma_filter_of_sum<V>(a: Seq<V>, b: Seq<V>, p: spec_fn(V) -> bool)
    ensures
        (a + b).filter(p) == a.filter(p) + b.filter(p),
    decreases b.len(),
{
    reveal(Seq::filter);
    if b.len() == 0 {
        assert(a + b =~= a);
        assert(a.filter(p) + b.filter(p) =~= a.filter(p));
    } else {
        assert((a + b).drop_last() =~= a + b.drop_last());
        lemma_filter_of_sum(a, b.drop_last(), p);
        assert((a + b).filter(p) =~= a.filter(p) + b.filter(p));
    }
}

/// A filter that all rows meet.
proof fn lemma_filter_all<V>(s: Seq<V>, p: spec_fn(V) -> bool)
    requires
        forall|i: int| 0 <= i < s.len() ==> p(#[trigger] s[i]),
    ensures
        s.filter(p) == s,
    decreases s.len(),
{
    reveal(Seq::filter);
    if s.len() > 0 {
        let t = s.drop_last();
        assert forall|i: int| 0 <= i < t.len() implies p(#[trigger] t[i]) by {
            assert(t[i] == s[i]);
        }
        lemma_filter_all(t, p);
        assert(p(s[s.len() - 1]));
        assert(t.push(s.last()) =~= s);
    } else {
        assert(s.filter(p) =~= s);
    }
}

/// A filter that no row meets.
proof fn lemma_filter_none<V>(s: Seq<V>, p: spec_fn(V) -> bool)
    requires
        forall|i: int| 0 <= i < s.len() ==> !p(#[trigger] s[i]),
    ensures
        s.filter(p) == Seq::<V>::empty(),
{
    lemma_filter_empty(s, p);
    assert(s.filter(p) =~= Seq::<V>::empty());
}

/// A filter after one that keeps all of its rows.
proof fn lemma_filter_twice<V>(s: Seq<V>, keep: spec_fn(V) -> bool, p: spec_fn(V) -> bool)
    requires
        forall|x: V| #[trigger] p(x) ==> keep(x),
    ensures
        s.filter(keep).filter(p) == s.filter(p),
    decreases s.len(),
{
    reveal(Seq::filter);
    if s.len() > 0 {
        lemma_filter_twice(s.drop_last(), keep, p);
        if keep(s.last()) {
            assert(s.filter(keep).drop_last() =~= s.drop_last().filter(keep));
        }
    } else {
        assert(s.filter(keep) =~= s);
    }
}

/// The form and the link of a check-in, found by their ids.
proof fn lemma_form_and_link(
    db: LedgerView,
    template_id: Seq<char>,
    link_id: Seq<char>,
    k: int,
    n: int,
)
    requires
        only(db.checkin_templates, k, |t: TemplateView| t.id == template_id),
        only(db.links, n, |l: links::LinkView| l.id == link_id),
    ensures
        find_row(db.checkin_templates, template_by_id(template_id)) == Some(
            db.checkin_templates[k],
        ),
        find_row(db.links, links::by_id(link_id)) == Some(db.links[n]),
{
    lemma_find_only(
        db.checkin_templates,
        k,
        |t: TemplateView| t.id == template_id,
        template_by_id(template_id),
    );
    lemma_find_only(db.links, n, |l: links::LinkView| l.id == link_id, links::by_id(link_id));
}

/// A check-in is taken on a form of its link's Keyholder, with every required field answered, as it
/// was reported. A red one raises an alert, by the system, about itself, where the form asks for
/// that; nothing else does.
pub proof fn law_red_check_ins_raise_alerts(
    db: LedgerView,
    new: NewCheckinView,
    submissive_id: Seq<char>,
    ids: CheckinIdsView,
    now: i64,
    k: int,
    n: int,
)
    requires
        only(db.checkin_templates, k, |t: TemplateView| t.id == new.template_id),
        only(db.links, n, |l: links::LinkView| l.id == new.link_id),
    ensures
        ({
            let t = db.checkin_templates[k];
            let own = t.keyholder_id == db.links[n].keyholder_id;
            let lacking = missing(new.field_values, fields_of(db, new.template_id));
            match checkin_created(db, new, submissive_id, ids, now) {
                Err(CreateCheckinError::TemplateNotFound) => !own,
                Err(CreateCheckinError::MissingRequiredField) => own && lacking,
                Ok((after, alert)) => {
                    let c = after.checkins.last();
                    let raises = new.color == "red"@ && t.auto_escalate_on_red;
                    &&& own && !lacking
                    &&& after.checkins == db.checkins.push(c)
                    &&& c.id == ids.checkin && c.link_id == new.link_id
                    &&& c.template_id == new.template_id && c.color == new.color
                    &&& c.field_values == new.field_values
                    &&& c.related_confinement_session_id == new.related_confinement_session_id
                    &&& c.related_assignment_id == new.related_assignment_id
                    &&& c.related_play_session_id == new.related_play_session_id
                    &&& c.created_by_user_id == new.created_by_user_id
                    &&& c.updated_by_user_id is None && c.created_at == now && c.updated_at == now
                    &&& !raises ==> alert is None && after == (LedgerView {
                        checkins: after.checkins,
                        ..db
                    })
                    &&& raises ==> {
                        let a = after.alerts.last();
                        &&& alert == Some(ids.alert)
                        &&& after.alerts == db.alerts.push(a)
                        &&& a.id == ids.alert && a.submissive_id == submissive_id
                        &&& a.link_id == new.link_id && a.raised_via == "system"@
                        &&& a.related_checkin_id == Some(ids.checkin) && a.raised_at == now
                        &&& a.message == Some("Auto-raised: RED on '"@ + t.title + "'"@)
                        &&& a.resolved_at is None && a.acknowledged_at is None
                    }
                },
            }
        }),
{
    lemma_form_and_link(db, new.template_id, new.link_id, k, n);
}

/// A form that is not there takes no check-in.
pub proof fn law_no_form_no_check_in(
    db: LedgerView,
    new: NewCheckinView,
    submissive_id: Seq<char>,
    ids: CheckinIdsView,
    now: i64,
)
    requires
        forall|j: int|
            0 <= j < db.checkin_templates.len() ==> (#[trigger] db.checkin_templates[j]).id
                != new.template_id,
    ensures
        checkin_created(db, new, submissive_id, ids, now) == Err::<
            (LedgerView, Option<Seq<char>>),
            CreateCheckinError,
        >(CreateCheckinError::TemplateNotFound),
{
    lemma_find_any(db.checkin_templates, template_by_id(new.template_id));
}

/// An edit of a check-in replaces what it gives and keeps the rest, and says by whom and when; it
/// raises an alert exactly where it turns the check-in red and the form asks for that.
pub proof fn law_edits_alert_on_turning_red(
    db: LedgerView,
    id: Seq<char>,
    edit: CheckinEditView,
    submissive_id: Seq<char>,
    by: Seq<char>,
    ids: CheckinIdsView,
    now: i64,
    i: int,
    k: int,
)
    requires
        only(db.checkins, i, |c: CheckinView| c.id == id),
        only(db.checkin_templates, k, |t: TemplateView| t.id == db.checkins[i].template_id),
    ensures
        ({
            let c = db.checkins[i];
            let t = db.checkin_templates[k];
            let color = if edit.color is Some {
                edit.color->0
            } else {
                c.color
            };
            let raises = color == "red"@ && c.color != "red"@ && t.auto_escalate_on_red;
            match checkin_edited(db, id, edit, submissive_id, by, ids, now) {
                Err(_) => false,
                Ok((after, alert)) => {
                    &&& after.checkins == db.checkins.update(
                        i,
                        CheckinView {
                            color,
                            field_values: if edit.field_values is Some {
                                edit.field_values->0
                            } else {
                                c.field_values
                            },
                            updated_by_user_id: Some(by),
                            updated_at: now,
                            ..c
                        },
                    )
                    &&& !raises ==> alert is None && after == (LedgerView {
                        checkins: after.checkins,
                        ..db
                    })
                    &&& raises ==> {
                        let a = after.alerts.last();
                        &&& alert == Some(ids.alert)
                        &&& after.alerts == db.alerts.push(a)
                        &&& a.id == ids.alert && a.submissive_id == submissive_id
                        &&& a.link_id == c.link_id && a.raised_via == "system"@
                        &&& a.related_checkin_id == Some(id) && a.raised_at == now
                        &&& a.message == Some("Auto-raised: RED on '"@ + t.title + "'"@)
                    }
                },
            }
        }),
{
    let named = |c: CheckinView| c.id == id;
    lemma_find_only(db.checkins, i, named, by_id(id));
    assert forall|j: int| 0 <= j < db.checkins.len() && j != i implies (
    #[trigger] db.checkins[j]).id != id by {
        assert(!named(db.checkins[j]));
    }
    let form = db.checkins[i].template_id;
    lemma_find_only(
        db.checkin_templates,
        k,
        |t: TemplateView| t.id == form,
        template_by_id(form),
    );
}

/// A report lacks something where it is no object at all, or where a required field has no answer,
/// or none but a null; a field that is not required may be left out.
pub proof fn law_required_fields_are_answered(
    values: Seq<char>,
    fields: Seq<TemplateFieldView>,
)
    ensures
        missing(values, fields) <==> object_fields(values) is None || exists|i: int|
            0 <= i < fields.len() && (#[trigger] fields[i]).required && (member(
                object_fields(values)->0,
                fields[i].field_key,
            ) is None || member(object_fields(values)->0, fields[i].field_key) == Some(
                FieldView::Null,
            )),
{
    if object_fields(values) is Some {
        let members = object_fields(values)->0;
        if lacks_answer(fields, members) {
            let i = choose|i: int| 0 <= i < fields.len()
                && unanswered(#[trigger] fields[i], members);
            assert(fields[i].required);
        }
        if exists|i: int|
            0 <= i < fields.len() && (#[trigger] fields[i]).required && (member(
                members,
                fields[i].field_key,
            ) is None || member(members, fields[i].field_key) == Some(FieldView::Null)) {
            let i = choose|i: int|
                0 <= i < fields.len() && (#[trigger] fields[i]).required && (member(
                    members,
                    fields[i].field_key,
                ) is None || member(members, fields[i].field_key) == Some(FieldView::Null));
            assert(unanswered(fields[i], members));
        }
    }
}

/// The fields of a form are those of its rows, and no others.
pub proof fn law_a_forms_fields_are_its_own(
    db: LedgerView,
    template_id: Seq<char>,
    f: TemplateFieldView,
)
    ensures
        fields_of(db, template_id).contains(f) <==> exists|k: int|
            0 <= k < db.checkin_fields.len() && (#[trigger] db.checkin_fields[k]).template_id
                == template_id && db.checkin_fields[k].field == f,
{
    let rows = db.checkin_fields;
    let p = of_template(template_id);
    let own = rows.filter(p);
    let fields = fields_of(db, template_id);
    if fields.contains(f) {
        let i = choose|i: int| 0 <= i < fields.len() && fields[i] == f;
        assert(own.contains(own[i]));
        lemma_filter_contains(rows, p, own[i]);
        let k = choose|k: int| 0 <= k < rows.len() && rows[k] == own[i];
        assert(rows[k].template_id == template_id);
    }
    if exists|k: int|
        0 <= k < rows.len() && (#[trigger] rows[k]).template_id == template_id && rows[k].field
            == f {
        let k = choose|k: int|
            0 <= k < rows.len() && (#[trigger] rows[k]).template_id == template_id && rows[k].field
                == f;
        lemma_filter_contains(rows, p, rows[k]);
        let i = choose|i: int| 0 <= i < own.len() && own[i] == rows[k];
        assert(fields[i] == f);
    }
}

/// A form starts active, as it was described, with its fields numbered from nought as they came;
/// what other forms ask for stays.
pub proof fn law_forms_start_as_described(
    db: LedgerView,
    id: Seq<char>,
    field_ids: Seq<Seq<char>>,
    keyholder_id: Seq<char>,
    title: Seq<char>,
    description: Option<Seq<char>>,
    auto_escalate_on_red: bool,
    fields: Seq<NewFieldView>,
    now: i64,
)
    requires
        fields.len() <= i64::MAX,
    ensures
        ({
            let after = template_created(
                db,
                id,
                field_ids,
                keyholder_id,
                title,
                description,
                auto_escalate_on_red,
                fields,
                now,
            );
            let t = after.checkin_templates.last();
            let kept = after.checkin_fields.len() - fields.len();
            &&& after == (LedgerView {
                checkin_templates: db.checkin_templates.push(t),
                checkin_fields: after.checkin_fields,
                ..db
            })
            &&& t.id == id && t.keyholder_id == keyholder_id && t.title == title
            &&& t.description == description && t.active
            &&& t.auto_escalate_on_red == auto_escalate_on_red && t.created_at == now
            &&& fields_follow(after.checkin_fields, kept, id, field_ids, fields)
            &&& forall|f: FieldRowView| #[trigger]
                after.checkin_fields.take(kept).contains(f) <==> db.checkin_fields.contains(f)
                    && f.template_id != id
        }),
{
    lemma_fields_follow(db, id, field_ids, fields);
}

/// The rows from `kept` on are these fields of a form, numbered as they came.
pub open spec fn fields_follow(
    rows: Seq<FieldRowView>,
    kept: int,
    template_id: Seq<char>,
    ids: Seq<Seq<char>>,
    fields: Seq<NewFieldView>,
) -> bool {
    &&& kept >= 0
    &&& rows.len() == kept + fields.len()
    &&& forall|i: int|
        0 <= i < fields.len() ==> {
            let row = #[trigger] rows[kept + i];
            &&& row.template_id == template_id && row.field.id == ids[i]
            &&& row.field.position == i && row.field.field_key == fields[i].field_key
            &&& row.field.label == fields[i].label
            &&& row.field.description == fields[i].description
            &&& row.field.field_type == fields[i].field_type
            &&& row.field.config == fields[i].config && row.field.required == fields[i].required
        }
}

proof fn lemma_fields_follow(
    db: LedgerView,
    id: Seq<char>,
    ids: Seq<Seq<char>>,
    fields: Seq<NewFieldView>,
)
    requires
        fields.len() <= i64::MAX,
    ensures
        ({
            let rows = fields_replaced(db, id, fields, ids).checkin_fields;
            let kept = rows.len() - fields.len();
            &&& fields_follow(rows, kept, id, ids, fields)
            &&& forall|f: FieldRowView| #[trigger]
                rows.take(kept).contains(f) <==> db.checkin_fields.contains(f) && f.template_id
                    != id
        }),
{
    let p = |f: FieldRowView| !of_template(id)(f);
    let old = db.checkin_fields.filter(p);
    let rows = fields_replaced(db, id, fields, ids).checkin_fields;
    assert(rows.take(old.len() as int) =~= old);
    assert forall|f: FieldRowView| #[trigger]
        old.contains(f) <==> db.checkin_fields.contains(f) && f.template_id != id by {
        lemma_filter_contains(db.checkin_fields, p, f);
    }
}

/// An edit of a form, by its Keyholder, replaces what it gives and keeps the rest; new fields take
/// the place of all the old ones, and where none are given the old ones stay.
pub proof fn law_forms_are_edited_field_by_field(
    db: LedgerView,
    id: Seq<char>,
    keyholder_id: Seq<char>,
    edit: TemplateEditView,
    field_ids: Seq<Seq<char>>,
    k: int,
)
    requires
        only(db.checkin_templates, k, |t: TemplateView| t.id == id),
        edit.fields is Some ==> edit.fields->0.len() <= i64::MAX,
    ensures
        ({
            let t = db.checkin_templates[k];
            match template_edited(db, id, keyholder_id, edit, field_ids) {
                None => t.keyholder_id != keyholder_id,
                Some(after) => {
                    let e = after.checkin_templates[k];
                    &&& t.keyholder_id == keyholder_id
                    &&& after == (LedgerView {
                        checkin_templates: db.checkin_templates.update(k, e),
                        checkin_fields: after.checkin_fields,
                        ..db
                    })
                    &&& e.id == t.id && e.keyholder_id == t.keyholder_id && e.created_at
                        == t.created_at
                    &&& edit.title is Some ==> e.title == edit.title->0
                    &&& edit.title is None ==> e.title == t.title
                    &&& edit.description is Some ==> e.description == edit.description->0
                    &&& edit.description is None ==> e.description == t.description
                    &&& edit.auto_escalate_on_red is Some ==> e.auto_escalate_on_red
                        == edit.auto_escalate_on_red->0
                    &&& edit.auto_escalate_on_red is None ==> e.auto_escalate_on_red
                        == t.auto_escalate_on_red
                    &&& edit.active is Some ==> e.active == edit.active->0
                    &&& edit.active is None ==> e.active == t.active
                    &&& edit.fields is None ==> after.checkin_fields == db.checkin_fields
                    &&& edit.fields is Some ==> {
                        let kept = after.checkin_fields.len() - edit.fields->0.len();
                        &&& fields_follow(
                            after.checkin_fields,
                            kept,
                            id,
                            field_ids,
                            edit.fields->0,
                        )
                        &&& forall|f: FieldRowView| #[trigger]
                            after.checkin_fields.take(kept).contains(f)
                                <==> db.checkin_fields.contains(f) && f.template_id != id
                    }
                },
            }
        }),
{
    let named = |t: TemplateView| t.id == id;
    lemma_find_only(db.checkin_templates, k, named, template_by_id(id));
    assert forall|j: int| 0 <= j < db.checkin_templates.len() && j != k implies (
    #[trigger] db.checkin_templates[j]).id != id by {
        assert(!named(db.checkin_templates[j]));
    }
    if edit.fields is Some {
        lemma_fields_follow(db, id, field_ids, edit.fields->0);
    }
}

/// A link's check-ins are listed as the filter asks, all of them, the latest first; a Keyholder's
/// forms whole, the latest first.
pub proof fn law_check_ins_are_listed_as_asked(
    listed: Seq<CheckinView>,
    checkins: Seq<CheckinView>,
    link_id: Seq<char>,
    filter: CheckinFilterView,
    own: Seq<TemplateView>,
    forms: Seq<TemplateView>,
    keyholder_id: Seq<char>,
)
    requires
        ordered_from(listed, checkins.filter(matching(link_id, filter)), newest_first()),
        ordered_from(own, forms.filter(of_keyholder(keyholder_id)), newest_template_first()),
    ensures
        forall|c: CheckinView| #[trigger]
            listed.contains(c) <==> checkins.contains(c) && c.link_id == link_id && (
            filter.color is Some ==> c.color == filter.color->0) && (
            filter.related_assignment_id is Some ==> c.related_assignment_id
                == filter.related_assignment_id) && (
            filter.related_confinement_session_id is Some ==> c.related_confinement_session_id
                == filter.related_confinement_session_id) && (
            filter.related_play_session_id is Some ==> c.related_play_session_id
                == filter.related_play_session_id),
        forall|i: int, j: int|
            0 <= i < j < listed.len() ==> (#[trigger] listed[i]).created_at >= (
            #[trigger] listed[j]).created_at,
        forall|t: TemplateView| #[trigger]
            own.contains(t) <==> forms.contains(t) && t.keyholder_id == keyholder_id,
        forall|i: int, j: int|
            0 <= i < j < own.len() ==> (#[trigger] own[i]).created_at >= (
            #[trigger] own[j]).created_at,
{
    lemma_listed(listed, checkins, matching(link_id, filter), newest_first());
    lemma_listed(own, forms, of_keyholder(keyholder_id), newest_template_first());
}

/// The fields of a form are listed whole, by position.
pub proof fn law_fields_are_listed_by_position(
    listed: Seq<TemplateFieldView>,
    db: LedgerView,
    template_id: Seq<char>,
    f: TemplateFieldView,
)
    requires
        ordered_from(listed, fields_of(db, template_id), by_position()),
    ensures
        listed.contains(f) <==> exists|k: int|
            0 <= k < db.checkin_fields.len() && (#[trigger] db.checkin_fields[k]).template_id
                == template_id && db.checkin_fields[k].field == f,
        forall|i: int, j: int|
            0 <= i < j < listed.len() ==> (#[trigger] listed[i]).position <= (
            #[trigger] listed[j]).position,
{
    broadcast use vstd::seq_lib::group_to_multiset_ensures;

    law_a_forms_fields_are_its_own(db, template_id, f);
    let all = fields_of(db, template_id);
    assert(listed.contains(f) <==> listed.to_multiset().count(f) > 0);
    assert(all.contains(f) <==> all.to_multiset().count(f) > 0);
}

} // verus!
