//! The catalog of rewards, punishments and tasks that a Keyholder builds up once.

use vstd::prelude::*;

use crate::ids::{is_id, new_id};
use crate::ledger::{Ledger, LedgerView};
use crate::table::{
    any_row, find, find_row, insert, lemma_any_same, lemma_find_any, lemma_find_updated,
    lemma_listed, order, ordered_from, rows, select, update, updated, Row,
};
use crate::text::{dup_opt, own, own_opt, same};

verus! {

/// A reusable reward, punishment or task.
#[derive(Debug, PartialEq, Eq)]
pub struct Template {
    pub id: String,
    pub keyholder_id: String,
    pub kind: String,
    pub title: String,
    pub description: Option<String>,
    pub severity: Option<i64>,
    pub active: bool,
    pub created_at: i64,
    pub effect_kind: Option<String>,
    pub completion_type: Option<String>,
    pub proof_media_types: Option<String>,
    pub default_deadline_seconds: Option<i64>,
    pub time_extension_seconds: Option<i64>,
    pub time_reduction_seconds: Option<i64>,
    pub on_success_template_id: Option<String>,
    pub on_failure_template_id: Option<String>,
    pub points_delta: Option<i64>,
    pub points_cost: Option<i64>,
}

/// What a `Template` holds.
#[verifier::ext_equal]
pub struct TemplateView {
    pub id: Seq<char>,
    pub keyholder_id: Seq<char>,
    pub kind: Seq<char>,
    pub title: Seq<char>,
    pub description: Option<Seq<char>>,
    pub severity: Option<i64>,
    pub active: bool,
    pub created_at: i64,
    pub effect_kind: Option<Seq<char>>,
    pub completion_type: Option<Seq<char>>,
    pub proof_media_types: Option<Seq<char>>,
    pub default_deadline_seconds: Option<i64>,
    pub time_extension_seconds: Option<i64>,
    pub time_reduction_seconds: Option<i64>,
    pub on_success_template_id: Option<Seq<char>>,
    pub on_failure_template_id: Option<Seq<char>>,
    pub points_delta: Option<i64>,
    pub points_cost: Option<i64>,
}

impl View for Template {
    type V = TemplateView;

    open spec fn view(&self) -> TemplateView {
        TemplateView {
            id: self.id@,
            keyholder_id: self.keyholder_id@,
            kind: self.kind@,
            title: self.title@,
            description: self.description.deep_view(),
            severity: self.severity,
            active: self.active,
            created_at: self.created_at,
            effect_kind: self.effect_kind.deep_view(),
            completion_type: self.completion_type.deep_view(),
            proof_media_types: self.proof_media_types.deep_view(),
            default_deadline_seconds: self.default_deadline_seconds,
            time_extension_seconds: self.time_extension_seconds,
            time_reduction_seconds: self.time_reduction_seconds,
            on_success_template_id: self.on_success_template_id.deep_view(),
            on_failure_template_id: self.on_failure_template_id.deep_view(),
            points_delta: self.points_delta,
            points_cost: self.points_cost,
        }
    }
}

impl DeepView for Template {
    type V = TemplateView;

    open spec fn deep_view(&self) -> TemplateView {
        self.view()
    }
}

impl Row for Template {
    fn dup(&self) -> (r: Self) {
        Template {
            id: self.id.clone(),
            keyholder_id: self.keyholder_id.clone(),
            kind: self.kind.clone(),
            title: self.title.clone(),
            description: dup_opt(&self.description),
            severity: self.severity,
            active: self.active,
            created_at: self.created_at,
            effect_kind: dup_opt(&self.effect_kind),
            completion_type: dup_opt(&self.completion_type),
            proof_media_types: dup_opt(&self.proof_media_types),
            default_deadline_seconds: self.default_deadline_seconds,
            time_extension_seconds: self.time_extension_seconds,
            time_reduction_seconds: self.time_reduction_seconds,
            on_success_template_id: dup_opt(&self.on_success_template_id),
            on_failure_template_id: dup_opt(&self.on_failure_template_id),
            points_delta: self.points_delta,
            points_cost: self.points_cost,
        }
    }
}

/// What a new template is made from.
#[derive(Debug, PartialEq, Eq)]
pub struct NewTemplate<'a> {
    pub kind: &'a str,
    pub title: &'a str,
    pub description: Option<&'a str>,
    pub severity: Option<i64>,
    pub effect_kind: Option<&'a str>,
    pub completion_type: Option<&'a str>,
    pub proof_media_types: Option<&'a str>,
    pub default_deadline_seconds: Option<i64>,
    pub time_extension_seconds: Option<i64>,
    pub time_reduction_seconds: Option<i64>,
    pub on_success_template_id: Option<&'a str>,
    pub on_failure_template_id: Option<&'a str>,
    pub points_delta: Option<i64>,
    pub points_cost: Option<i64>,
}

/// What a `NewTemplate` holds.
#[verifier::ext_equal]
pub struct NewTemplateView {
    pub kind: Seq<char>,
    pub title: Seq<char>,
    pub description: Option<Seq<char>>,
    pub severity: Option<i64>,
    pub effect_kind: Option<Seq<char>>,
    pub completion_type: Option<Seq<char>>,
    pub proof_media_types: Option<Seq<char>>,
    pub default_deadline_seconds: Option<i64>,
    pub time_extension_seconds: Option<i64>,
    pub time_reduction_seconds: Option<i64>,
    pub on_success_template_id: Option<Seq<char>>,
    pub on_failure_template_id: Option<Seq<char>>,
    pub points_delta: Option<i64>,
    pub points_cost: Option<i64>,
}

impl<'a> View for NewTemplate<'a> {
    type V = NewTemplateView;

    open spec fn view(&self) -> NewTemplateView {
        NewTemplateView {
            kind: self.kind@,
            title: self.title@,
            description: self.description.deep_view(),
            severity: self.severity,
            effect_kind: self.effect_kind.deep_view(),
            completion_type: self.completion_type.deep_view(),
            proof_media_types: self.proof_media_types.deep_view(),
            default_deadline_seconds: self.default_deadline_seconds,
            time_extension_seconds: self.time_extension_seconds,
            time_reduction_seconds: self.time_reduction_seconds,
            on_success_template_id: self.on_success_template_id.deep_view(),
            on_failure_template_id: self.on_failure_template_id.deep_view(),
            points_delta: self.points_delta,
            points_cost: self.points_cost,
        }
    }
}

/// Why a template cannot be made.
#[derive(Clone, Copy, Debug, PartialEq, Eq, Structural)]
pub enum ValidationError {
    /// The kind is none of reward, punishment and task.
    InvalidKind,
    /// A reward or punishment needs an effect.
    MissingEffectKind,
    /// An extension needs its seconds.
    MissingTimeExtensionSeconds,
    /// A reduction needs its seconds.
    MissingTimeReductionSeconds,
    /// A task needs a way to be completed.
    MissingCompletionType,
    /// A task needs a default deadline.
    MissingDefaultDeadlineSeconds,
    /// A task completed by proof needs to say which media it takes.
    MissingProofMediaTypes,
}

/// Which fields a new template has to have, by kind and effect.
pub open spec fn validity(new: NewTemplateView) -> Result<(), ValidationError> {
    if new.kind == "reward"@ || new.kind == "punishment"@ {
        match new.effect_kind {
            None => Err(ValidationError::MissingEffectKind),
            Some(effect) => if effect == "time_extension"@ && new.time_extension_seconds is None {
                Err(ValidationError::MissingTimeExtensionSeconds)
            } else if effect == "time_reduction"@ && new.time_reduction_seconds is None {
                Err(ValidationError::MissingTimeReductionSeconds)
            } else {
                Ok(())
            },
        }
    } else if new.kind == "task"@ {
        match new.completion_type {
            None => Err(ValidationError::MissingCompletionType),
            Some(completion) => if new.default_deadline_seconds is None {
                Err(ValidationError::MissingDefaultDeadlineSeconds)
            } else if completion == "proof_required"@ && new.proof_media_types is None {
                Err(ValidationError::MissingProofMediaTypes)
            } else {
                Ok(())
            },
        }
    } else {
        Err(ValidationError::InvalidKind)
    }
}

/// Checks a new template.
pub fn validate(new: &NewTemplate) -> (r: Result<(), ValidationError>)
    ensures
        r == validity(new@),
{
    if same(new.kind, "reward") || same(new.kind, "punishment") {
        match new.effect_kind {
            None => Err(ValidationError::MissingEffectKind),
            Some(effect) => {
                if same(effect, "time_extension") && new.time_extension_seconds.is_none() {
                    return Err(ValidationError::MissingTimeExtensionSeconds);
                }
                if same(effect, "time_reduction") && new.time_reduction_seconds.is_none() {
                    return Err(ValidationError::MissingTimeReductionSeconds);
                }
                Ok(())
            },
        }
    } else if same(new.kind, "task") {
        match new.completion_type {
            None => Err(ValidationError::MissingCompletionType),
            Some(completion) => {
                if new.default_deadline_seconds.is_none() {
                    return Err(ValidationError::MissingDefaultDeadlineSeconds);
                }
                if same(completion, "proof_required") && new.proof_media_types.is_none() {
                    return Err(ValidationError::MissingProofMediaTypes);
                }
                Ok(())
            },
        }
    } else {
        Err(ValidationError::InvalidKind)
    }
}

/// Why a template was not created.
#[derive(Clone, Copy, Debug, PartialEq, Eq, Structural)]
pub enum CreateError {
    /// The fields do not fit together.
    Validation(ValidationError),
}

/// The row that a new template becomes: active from the start.
pub open spec fn new_row(
    id: Seq<char>,
    keyholder_id: Seq<char>,
    new: NewTemplateView,
    now: i64,
) -> TemplateView {
    TemplateView {
        id,
        keyholder_id,
        kind: new.kind,
        title: new.title,
        description: new.description,
        severity: new.severity,
        active: true,
        created_at: now,
        effect_kind: new.effect_kind,
        completion_type: new.completion_type,
        proof_media_types: new.proof_media_types,
        default_deadline_seconds: new.default_deadline_seconds,
        time_extension_seconds: new.time_extension_seconds,
        time_reduction_seconds: new.time_reduction_seconds,
        on_success_template_id: new.on_success_template_id,
        on_failure_template_id: new.on_failure_template_id,
        points_delta: new.points_delta,
        points_cost: new.points_cost,
    }
}

/// Adds a valid template to a Keyholder's catalog.
pub fn create(db: &mut Ledger, keyholder_id: &str, new: NewTemplate, now: i64) -> (r: Result<
    String,
    CreateError,
>)
    ensures
        match validity(new@) {
            Err(e) => r == Err::<String, CreateError>(CreateError::Validation(e)) && final(db)@
                == old(db)@,
            Ok(()) => r is Ok && is_id(r->Ok_0@) && final(db)@ == (LedgerView {
                templates: old(db)@.templates.push(new_row(r->Ok_0@, keyholder_id@, new@, now)),
                ..old(db)@
            }),
        },
{
    match validate(&new) {
        Err(e) => {
            return Err(CreateError::Validation(e));
        },
        Ok(()) => {},
    }
    let id = new_id();
    insert(
        &mut db.templates,
        Template {
            id: id.clone(),
            keyholder_id: own(keyholder_id),
            kind: own(new.kind),
            title: own(new.title),
            description: own_opt(new.description),
            severity: new.severity,
            active: true,
            created_at: now,
            effect_kind: own_opt(new.effect_kind),
            completion_type: own_opt(new.completion_type),
            proof_media_types: own_opt(new.proof_media_types),
            default_deadline_seconds: new.default_deadline_seconds,
            time_extension_seconds: new.time_extension_seconds,
            time_reduction_seconds: new.time_reduction_seconds,
            on_success_template_id: own_opt(new.on_success_template_id),
            on_failure_template_id: own_opt(new.on_failure_template_id),
            points_delta: new.points_delta,
            points_cost: new.points_cost,
        },
    );
    Ok(id)
}

/// The template has this id.
pub open spec fn by_id(id: Seq<char>) -> spec_fn(TemplateView) -> bool {
    |t: TemplateView| t.id == id
}

/// The template with this id, active or not: deactivating a template does not sever a chain that
/// is already wired to it.
pub fn get(db: &Ledger, id: &str) -> (r: Option<Template>)
    ensures
        r.deep_view() == find_row(db@.templates, by_id(id@)),
{
    let ghost p = by_id(id@);
    let test = |t: &Template| -> (b: bool)
        ensures
            b == p(t@),
        { same(t.id.as_str(), id) };
    match find(&db.templates, Ghost(p), test) {
        Some(t) => Some(t.dup()),
        None => None,
    }
}

/// In this Keyholder's catalog, and of this kind where one is asked for.
pub open spec fn listed_for(
    keyholder_id: Seq<char>,
    kind: Option<Seq<char>>,
) -> spec_fn(TemplateView) -> bool {
    |t: TemplateView|
        t.keyholder_id == keyholder_id && match kind {
            Some(k) => t.kind == k,
            None => true,
        }
}

/// Newest first.
pub open spec fn newest_first() -> spec_fn(TemplateView, TemplateView) -> bool {
    |a: TemplateView, b: TemplateView| a.created_at >= b.created_at
}

/// A Keyholder's catalog, newest first.
pub fn list_for_keyholder(db: &Ledger, keyholder_id: &str, kind_filter: Option<&str>) -> (r: Vec<
    Template,
>)
    ensures
        ordered_from(
            rows(r@),
            db@.templates.filter(listed_for(keyholder_id@, kind_filter.deep_view())),
            newest_first(),
        ),
{
    let ghost p = listed_for(keyholder_id@, kind_filter.deep_view());
    let ghost le = newest_first();
    let test = |t: &Template| -> (b: bool)
        ensures
            b == p(t@),
        {
            same(t.keyholder_id.as_str(), keyholder_id) && match kind_filter {
                Some(k) => same(t.kind.as_str(), k),
                None => true,
            }
        };
    let before = |a: &Template, b: &Template| -> (c: bool)
        ensures
            c == le(a@, b@),
        { a.created_at >= b.created_at };
    order(select(&db.templates, Ghost(p), test), Ghost(le), before)
}

/// Why a template was not changed.
#[derive(Clone, Copy, Debug, PartialEq, Eq, Structural)]
pub enum UpdateError {
    /// There is no such template in this Keyholder's catalog.
    NotFound,
}

/// This Keyholder's template with this id.
pub open spec fn owned(id: Seq<char>, keyholder_id: Seq<char>) -> spec_fn(TemplateView) -> bool {
    |t: TemplateView| t.id == id && t.keyholder_id == keyholder_id
}

/// No longer offered.
pub open spec fn inactive() -> spec_fn(TemplateView) -> TemplateView {
    |t: TemplateView| TemplateView { active: false, ..t }
}

/// Takes a template out of the offer.
pub fn deactivate(db: &mut Ledger, id: &str, keyholder_id: &str) -> (r: Result<(), UpdateError>)
    ensures
        final(db)@ == (LedgerView {
            templates: updated(old(db)@.templates, owned(id@, keyholder_id@), inactive()),
            ..old(db)@
        }),
        r == (if any_row(old(db)@.templates, owned(id@, keyholder_id@)) {
            Ok::<(), UpdateError>(())
        } else {
            Err(UpdateError::NotFound)
        }),
{
    let ghost p = owned(id@, keyholder_id@);
    let ghost u = inactive();
    let change = |t: &Template| -> (n: Option<Template>)
        ensures
            match n {
                Some(x) => p(t@) && x@ == u(t@),
                None => !p(t@),
            },
        {
            if same(t.id.as_str(), id) && same(t.keyholder_id.as_str(), keyholder_id) {
                let mut n = t.dup();
                n.active = false;
                Some(n)
            } else {
                None
            }
        };
    if update(&mut db.templates, Ghost(p), Ghost(u), change) {
        Ok(())
    } else {
        Err(UpdateError::NotFound)
    }
}

/// A template that was deactivated is still there to be read, with everything but its being
/// offered as it was.
pub proof fn law_deactivated_is_still_read(
    templates: Seq<TemplateView>,
    id: Seq<char>,
    keyholder_id: Seq<char>,
)
    requires
        find_row(templates, by_id(id)) matches Some(t) && t.keyholder_id == keyholder_id,
    ensures
        find_row(updated(templates, owned(id, keyholder_id), inactive()), by_id(id)) == Some(
            TemplateView { active: false, ..find_row(templates, by_id(id))->0 },
        ),
{
    lemma_find_any(templates, by_id(id));
    lemma_find_updated(templates, by_id(id), owned(id, keyholder_id), inactive());
}

/// Nobody deactivates another Keyholder's template.
pub proof fn law_others_templates_stay(
    templates: Seq<TemplateView>,
    id: Seq<char>,
    keyholder_id: Seq<char>,
)
    requires
        find_row(templates, by_id(id)) matches Some(t) && t.keyholder_id != keyholder_id,
    ensures
        find_row(updated(templates, owned(id, keyholder_id), inactive()), by_id(id)) == find_row(
            templates,
            by_id(id),
        ),
{
    lemma_find_any(templates, by_id(id));
    lemma_find_updated(templates, by_id(id), owned(id, keyholder_id), inactive());
}

/// A template is one of three kinds and has what its kind asks for: a reward or a punishment an
/// effect, and a time where the effect is one on the clock; a task how it is completed, a deadline,
/// and what proof it takes where it takes one. What is missing is said, and only what is missing.
pub proof fn law_templates_have_what_their_kind_asks_for(new: NewTemplateView)
    ensures
        ({
            let consequence = new.kind == "reward"@ || new.kind == "punishment"@;
            let is_task = new.kind == "task"@;
            match validity(new) {
                Err(ValidationError::InvalidKind) => !consequence && !is_task,
                Err(ValidationError::MissingEffectKind) => consequence && new.effect_kind is None,
                Err(ValidationError::MissingTimeExtensionSeconds) => consequence && new.effect_kind
                    == Some("time_extension"@) && new.time_extension_seconds is None,
                Err(ValidationError::MissingTimeReductionSeconds) => consequence && new.effect_kind
                    == Some("time_reduction"@) && new.time_reduction_seconds is None,
                Err(ValidationError::MissingCompletionType) => is_task
                    && new.completion_type is None,
                Err(ValidationError::MissingDefaultDeadlineSeconds) => is_task
                    && new.default_deadline_seconds is None,
                Err(ValidationError::MissingProofMediaTypes) => is_task && new.completion_type
                    == Some("proof_required"@) && new.proof_media_types is None,
                Ok(()) => {
                    &&& consequence || is_task
                    &&& consequence ==> new.effect_kind is Some
                    &&& consequence && new.effect_kind == Some("time_extension"@)
                        ==> new.time_extension_seconds is Some
                    &&& consequence && new.effect_kind == Some("time_reduction"@)
                        ==> new.time_reduction_seconds is Some
                    &&& is_task ==> new.completion_type is Some
                        && new.default_deadline_seconds is Some
                    &&& is_task && new.completion_type == Some("proof_required"@)
                        ==> new.proof_media_types is Some
                },
            }
        }),
{
    reveal_strlit("reward");
    reveal_strlit("punishment");
    reveal_strlit("task");
    assert("reward"@.len() == 6 && "punishment"@.len() == 10 && "task"@.len() == 4);
}

/// A template is stored as it was described, active.
pub proof fn law_templates_start_active(
    id: Seq<char>,
    keyholder_id: Seq<char>,
    new: NewTemplateView,
    now: i64,
)
    ensures
        ({
            let t = new_row(id, keyholder_id, new, now);
            &&& t.id == id && t.keyholder_id == keyholder_id && t.kind == new.kind
            &&& t.title == new.title && t.description == new.description
            &&& t.severity == new.severity && t.active && t.created_at == now
            &&& t.effect_kind == new.effect_kind && t.completion_type == new.completion_type
            &&& t.proof_media_types == new.proof_media_types
            &&& t.default_deadline_seconds == new.default_deadline_seconds
            &&& t.time_extension_seconds == new.time_extension_seconds
            &&& t.time_reduction_seconds == new.time_reduction_seconds
            &&& t.on_success_template_id == new.on_success_template_id
            &&& t.on_failure_template_id == new.on_failure_template_id
            &&& t.points_delta == new.points_delta && t.points_cost == new.points_cost
        }),
{
}

/// A Keyholder takes their own template out of use, and nothing else of it or of any other changes.
pub proof fn law_deactivating_is_for_ones_own(
    templates: Seq<TemplateView>,
    id: Seq<char>,
    keyholder_id: Seq<char>,
    k: int,
)
    requires
        0 <= k < templates.len(),
    ensures
        ({
            let t = templates[k];
            let after = updated(templates, owned(id, keyholder_id), inactive());
            &&& after.len() == templates.len()
            &&& after[k] == (if t.id == id && t.keyholder_id == keyholder_id {
                TemplateView { active: false, ..t }
            } else {
                t
            })
        }),
        any_row(templates, owned(id, keyholder_id)) == any_row(
            templates,
            |t: TemplateView| t.id == id && t.keyholder_id == keyholder_id,
        ),
{
    lemma_any_same(
        templates,
        |t: TemplateView| t.id == id && t.keyholder_id == keyholder_id,
        owned(id, keyholder_id),
    );
}

/// A catalog holds the Keyholder's templates, of one kind where one is asked for, the latest first.
pub proof fn law_templates_are_listed_whole(
    listed: Seq<TemplateView>,
    templates: Seq<TemplateView>,
    keyholder_id: Seq<char>,
    kind: Option<Seq<char>>,
)
    requires
        ordered_from(listed, templates.filter(listed_for(keyholder_id, kind)), newest_first()),
    ensures
        forall|t: TemplateView| #[trigger]
            listed.contains(t) <==> templates.contains(t) && t.keyholder_id == keyholder_id && (
            kind is Some ==> t.kind == kind->0),
        forall|i: int, j: int|
            0 <= i < j < listed.len() ==> (#[trigger] listed[i]).created_at >= (
            #[trigger] listed[j]).created_at,
{
    lemma_listed(listed, templates, listed_for(keyholder_id, kind), newest_first());
}

} // verus!
