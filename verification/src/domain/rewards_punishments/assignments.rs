//! Assignments: rewards, punishments and tasks given to one submissive. Creation, the state
//! machines, escalation, and the deadline sweep.

use vstd::prelude::*;

use crate::arith::{minus, plus, stored};
use crate::domain::{audit, links, notifications, points, proofs};
use crate::domain::chastity::confinement;
use crate::error::DbError;
use crate::ids::{are_ids, is_id, new_id, new_ids};
use crate::ledger::{Ledger, LedgerView};
use crate::table::{
    any_row, distinct, find, find_row, insert, lemma_any_same, lemma_filter_contains,
    lemma_filter_meets, lemma_find_any, lemma_find_at, lemma_find_only, lemma_find_updated,
    lemma_listed, only, order, ordered_from, rows, select, update, updated, Row,
};
use crate::text::{dup_opt, given_or, listed, number_or, opt_is, or_else, own, own_opt, same};
use super::templates;

verus! {

/// A reward, punishment or task given to one submissive.
#[derive(Clone, Debug, PartialEq, Eq)]
pub struct Assignment {
    pub id: String,
    pub link_id: String,
    pub template_id: Option<String>,
    pub kind: String,
    pub title: String,
    pub description: Option<String>,
    pub effect_kind: Option<String>,
    pub completion_type: Option<String>,
    pub proof_media_types: Option<String>,
    pub deadline_at: Option<i64>,
    pub time_extension_seconds: Option<i64>,
    pub time_reduction_seconds: Option<i64>,
    pub proof_submission_id: Option<String>,
    pub on_success_template_id: Option<String>,
    pub on_failure_template_id: Option<String>,
    pub escalated_from_assignment_id: Option<String>,
    pub triggered_by_submission_id: Option<String>,
    pub triggered_by_play_session_id: Option<String>,
    pub spawned_by_recurring_task_rule_id: Option<String>,
    pub points_delta: Option<i64>,
    pub assigned_at: i64,
    pub assigned_by_user_id: Option<String>,
    pub assigned_via: String,
    pub status: String,
    pub status_updated_at: i64,
    pub notes: Option<String>,
}

/// What an `Assignment` holds.
#[verifier::ext_equal]
pub struct AssignmentView {
    pub id: Seq<char>,
    pub link_id: Seq<char>,
    pub template_id: Option<Seq<char>>,
    pub kind: Seq<char>,
    pub title: Seq<char>,
    pub description: Option<Seq<char>>,
    pub effect_kind: Option<Seq<char>>,
    pub completion_type: Option<Seq<char>>,
    pub proof_media_types: Option<Seq<char>>,
    pub deadline_at: Option<i64>,
    pub time_extension_seconds: Option<i64>,
    pub time_reduction_seconds: Option<i64>,
    pub proof_submission_id: Option<Seq<char>>,
    pub on_success_template_id: Option<Seq<char>>,
    pub on_failure_template_id: Option<Seq<char>>,
    pub escalated_from_assignment_id: Option<Seq<char>>,
    pub triggered_by_submission_id: Option<Seq<char>>,
    pub triggered_by_play_session_id: Option<Seq<char>>,
    pub spawned_by_recurring_task_rule_id: Option<Seq<char>>,
    pub points_delta: Option<i64>,
    pub assigned_at: i64,
    pub assigned_by_user_id: Option<Seq<char>>,
    pub assigned_via: Seq<char>,
    pub status: Seq<char>,
    pub status_updated_at: i64,
    pub notes: Option<Seq<char>>,
}

impl View for Assignment {
    type V = AssignmentView;

    open spec fn view(&self) -> AssignmentView {
        AssignmentView {
            id: self.id@,
            link_id: self.link_id@,
            template_id: self.template_id.deep_view(),
            kind: self.kind@,
            title: self.title@,
            description: self.description.deep_view(),
            effect_kind: self.effect_kind.deep_view(),
            completion_type: self.completion_type.deep_view(),
            proof_media_types: self.proof_media_types.deep_view(),
            deadline_at: self.deadline_at,
            time_extension_seconds: self.time_extension_seconds,
            time_reduction_seconds: self.time_reduction_seconds,
            proof_submission_id: self.proof_submission_id.deep_view(),
            on_success_template_id: self.on_success_template_id.deep_view(),
            on_failure_template_id: self.on_failure_template_id.deep_view(),
            escalated_from_assignment_id: self.escalated_from_assignment_id.deep_view(),
            triggered_by_submission_id: self.triggered_by_submission_id.deep_view(),
            triggered_by_play_session_id: self.triggered_by_play_session_id.deep_view(),
            spawned_by_recurring_task_rule_id: self.spawned_by_recurring_task_rule_id.deep_view(),
            points_delta: self.points_delta,
            assigned_at: self.assigned_at,
            assigned_by_user_id: self.assigned_by_user_id.deep_view(),
            assigned_via: self.assigned_via@,
            status: self.status@,
            status_updated_at: self.status_updated_at,
            notes: self.notes.deep_view(),
        }
    }
}

impl DeepView for Assignment {
    type V = AssignmentView;

    open spec fn deep_view(&self) -> AssignmentView {
        self.view()
    }
}

impl Row for Assignment {
    fn dup(&self) -> (r: Self) {
        Assignment {
            id: self.id.clone(),
            link_id: self.link_id.clone(),
            template_id: dup_opt(&self.template_id),
            kind: self.kind.clone(),
            title: self.title.clone(),
            description: dup_opt(&self.description),
            effect_kind: dup_opt(&self.effect_kind),
            completion_type: dup_opt(&self.completion_type),
            proof_media_types: dup_opt(&self.proof_media_types),
            deadline_at: self.deadline_at,
            time_extension_seconds: self.time_extension_seconds,
            time_reduction_seconds: self.time_reduction_seconds,
            proof_submission_id: dup_opt(&self.proof_submission_id),
            on_success_template_id: dup_opt(&self.on_success_template_id),
            on_failure_template_id: dup_opt(&self.on_failure_template_id),
            escalated_from_assignment_id: dup_opt(&self.escalated_from_assignment_id),
            triggered_by_submission_id: dup_opt(&self.triggered_by_submission_id),
            triggered_by_play_session_id: dup_opt(&self.triggered_by_play_session_id),
            spawned_by_recurring_task_rule_id: dup_opt(&self.spawned_by_recurring_task_rule_id),
            points_delta: self.points_delta,
            assigned_at: self.assigned_at,
            assigned_by_user_id: dup_opt(&self.assigned_by_user_id),
            assigned_via: self.assigned_via.clone(),
            status: self.status.clone(),
            status_updated_at: self.status_updated_at,
            notes: dup_opt(&self.notes),
        }
    }
}

/// What a new assignment is made from; what is left unset comes from the template.
#[derive(Debug, PartialEq, Eq)]
pub struct NewAssignment<'a> {
    pub kind: Option<&'a str>,
    pub template_id: Option<&'a str>,
    /// `true` for a Keyholder's fresh choice, `false` for an escalation, which
    /// honors a chain wired to a template deactivated since.
    pub require_active_template: bool,
    pub title: Option<&'a str>,
    pub description: Option<&'a str>,
    pub effect_kind: Option<&'a str>,
    pub time_extension_seconds: Option<i64>,
    pub time_reduction_seconds: Option<i64>,
    pub completion_type: Option<&'a str>,
    pub proof_media_types: Option<&'a str>,
    pub default_deadline_seconds: Option<i64>,
    pub deadline_at: Option<i64>,
    pub on_success_template_id: Option<&'a str>,
    pub on_failure_template_id: Option<&'a str>,
    pub points_delta: Option<i64>,
    pub notes: Option<&'a str>,
    pub triggered_by_submission_id: Option<&'a str>,
    pub triggered_by_play_session_id: Option<&'a str>,
    pub spawned_by_recurring_task_rule_id: Option<&'a str>,
    pub escalated_from_assignment_id: Option<&'a str>,
    pub assigned_by_user_id: Option<&'a str>,
    pub assigned_via: &'a str,
}

/// What a `NewAssignment` holds.
#[verifier::ext_equal]
pub struct NewAssignmentView {
    pub kind: Option<Seq<char>>,
    pub template_id: Option<Seq<char>>,
    pub require_active_template: bool,
    pub title: Option<Seq<char>>,
    pub description: Option<Seq<char>>,
    pub effect_kind: Option<Seq<char>>,
    pub time_extension_seconds: Option<i64>,
    pub time_reduction_seconds: Option<i64>,
    pub completion_type: Option<Seq<char>>,
    pub proof_media_types: Option<Seq<char>>,
    pub default_deadline_seconds: Option<i64>,
    pub deadline_at: Option<i64>,
    pub on_success_template_id: Option<Seq<char>>,
    pub on_failure_template_id: Option<Seq<char>>,
    pub points_delta: Option<i64>,
    pub notes: Option<Seq<char>>,
    pub triggered_by_submission_id: Option<Seq<char>>,
    pub triggered_by_play_session_id: Option<Seq<char>>,
    pub spawned_by_recurring_task_rule_id: Option<Seq<char>>,
    pub escalated_from_assignment_id: Option<Seq<char>>,
    pub assigned_by_user_id: Option<Seq<char>>,
    pub assigned_via: Seq<char>,
}

impl<'a> View for NewAssignment<'a> {
    type V = NewAssignmentView;

    open spec fn view(&self) -> NewAssignmentView {
        NewAssignmentView {
            kind: self.kind.deep_view(),
            template_id: self.template_id.deep_view(),
            require_active_template: self.require_active_template,
            title: self.title.deep_view(),
            description: self.description.deep_view(),
            effect_kind: self.effect_kind.deep_view(),
            time_extension_seconds: self.time_extension_seconds,
            time_reduction_seconds: self.time_reduction_seconds,
            completion_type: self.completion_type.deep_view(),
            proof_media_types: self.proof_media_types.deep_view(),
            default_deadline_seconds: self.default_deadline_seconds,
            deadline_at: self.deadline_at,
            on_success_template_id: self.on_success_template_id.deep_view(),
            on_failure_template_id: self.on_failure_template_id.deep_view(),
            points_delta: self.points_delta,
            notes: self.notes.deep_view(),
            triggered_by_submission_id: self.triggered_by_submission_id.deep_view(),
            triggered_by_play_session_id: self.triggered_by_play_session_id.deep_view(),
            spawned_by_recurring_task_rule_id: self.spawned_by_recurring_task_rule_id.deep_view(),
            escalated_from_assignment_id: self.escalated_from_assignment_id.deep_view(),
            assigned_by_user_id: self.assigned_by_user_id.deep_view(),
            assigned_via: self.assigned_via@,
        }
    }
}

impl NewAssignmentView {
    /// Nothing set.
    pub open spec fn blank() -> NewAssignmentView {
        NewAssignmentView {
            kind: None,
            template_id: None,
            require_active_template: false,
            title: None,
            description: None,
            effect_kind: None,
            time_extension_seconds: None,
            time_reduction_seconds: None,
            completion_type: None,
            proof_media_types: None,
            default_deadline_seconds: None,
            deadline_at: None,
            on_success_template_id: None,
            on_failure_template_id: None,
            points_delta: None,
            notes: None,
            triggered_by_submission_id: None,
            triggered_by_play_session_id: None,
            spawned_by_recurring_task_rule_id: None,
            escalated_from_assignment_id: None,
            assigned_by_user_id: None,
            assigned_via: ""@,
        }
    }
}

impl<'a> Default for NewAssignment<'a> {
    fn default() -> (r: Self)
        ensures
            r@ == NewAssignmentView::blank(),
    {
        NewAssignment {
            kind: None,
            template_id: None,
            require_active_template: false,
            title: None,
            description: None,
            effect_kind: None,
            time_extension_seconds: None,
            time_reduction_seconds: None,
            completion_type: None,
            proof_media_types: None,
            default_deadline_seconds: None,
            deadline_at: None,
            on_success_template_id: None,
            on_failure_template_id: None,
            points_delta: None,
            notes: None,
            triggered_by_submission_id: None,
            triggered_by_play_session_id: None,
            spawned_by_recurring_task_rule_id: None,
            escalated_from_assignment_id: None,
            assigned_by_user_id: None,
            assigned_via: "",
        }
    }
}

/// What a template hands down to an assignment made from it.
#[derive(Debug, PartialEq, Eq)]
pub struct Inherited {
    pub kind: Option<String>,
    pub title: Option<String>,
    pub description: Option<String>,
    pub effect_kind: Option<String>,
    pub completion_type: Option<String>,
    pub proof_media_types: Option<String>,
    pub default_deadline_seconds: Option<i64>,
    pub time_extension_seconds: Option<i64>,
    pub time_reduction_seconds: Option<i64>,
    pub on_success_template_id: Option<String>,
    pub on_failure_template_id: Option<String>,
    pub points_delta: Option<i64>,
}

/// What an `Inherited` holds.
#[verifier::ext_equal]
pub struct InheritedView {
    pub kind: Option<Seq<char>>,
    pub title: Option<Seq<char>>,
    pub description: Option<Seq<char>>,
    pub effect_kind: Option<Seq<char>>,
    pub completion_type: Option<Seq<char>>,
    pub proof_media_types: Option<Seq<char>>,
    pub default_deadline_seconds: Option<i64>,
    pub time_extension_seconds: Option<i64>,
    pub time_reduction_seconds: Option<i64>,
    pub on_success_template_id: Option<Seq<char>>,
    pub on_failure_template_id: Option<Seq<char>>,
    pub points_delta: Option<i64>,
}

impl View for Inherited {
    type V = InheritedView;

    open spec fn view(&self) -> InheritedView {
        InheritedView {
            kind: self.kind.deep_view(),
            title: self.title.deep_view(),
            description: self.description.deep_view(),
            effect_kind: self.effect_kind.deep_view(),
            completion_type: self.completion_type.deep_view(),
            proof_media_types: self.proof_media_types.deep_view(),
            default_deadline_seconds: self.default_deadline_seconds,
            time_extension_seconds: self.time_extension_seconds,
            time_reduction_seconds: self.time_reduction_seconds,
            on_success_template_id: self.on_success_template_id.deep_view(),
            on_failure_template_id: self.on_failure_template_id.deep_view(),
            points_delta: self.points_delta,
        }
    }
}

/// What a proof review resolved.
#[derive(Debug, PartialEq, Eq)]
pub struct ReviewProofOutcome {
    /// The assignment that the reviewed submission proved or failed to prove.
    pub resolved_assignment: Option<Assignment>,
    /// The assignment that this resolution escalated into.
    pub escalated: Option<Assignment>,
}

/// What a `ReviewProofOutcome` holds.
#[verifier::ext_equal]
pub struct ReviewProofOutcomeView {
    pub resolved_assignment: Option<AssignmentView>,
    pub escalated: Option<AssignmentView>,
}

impl View for ReviewProofOutcome {
    type V = ReviewProofOutcomeView;

    open spec fn view(&self) -> ReviewProofOutcomeView {
        ReviewProofOutcomeView {
            resolved_assignment: self.resolved_assignment.deep_view(),
            escalated: self.escalated.deep_view(),
        }
    }
}

/// A task that failed on its deadline.
#[derive(Debug, PartialEq, Eq)]
pub struct AutoFailedTask {
    pub assignment_id: String,
    pub link_id: String,
    pub keyholder_id: String,
    pub submissive_id: String,
    /// The assignment that the failure escalated into.
    pub escalated: Option<Assignment>,
}

/// What an `AutoFailedTask` holds.
#[verifier::ext_equal]
pub struct AutoFailedTaskView {
    pub assignment_id: Seq<char>,
    pub link_id: Seq<char>,
    pub keyholder_id: Seq<char>,
    pub submissive_id: Seq<char>,
    pub escalated: Option<AssignmentView>,
}

impl View for AutoFailedTask {
    type V = AutoFailedTaskView;

    open spec fn view(&self) -> AutoFailedTaskView {
        AutoFailedTaskView {
            assignment_id: self.assignment_id@,
            link_id: self.link_id@,
            keyholder_id: self.keyholder_id@,
            submissive_id: self.submissive_id@,
            escalated: self.escalated.deep_view(),
        }
    }
}

impl DeepView for AutoFailedTask {
    type V = AutoFailedTaskView;

    open spec fn deep_view(&self) -> AutoFailedTaskView {
        self.view()
    }
}

/// A task whose deadline-approaching reminder is due.
#[derive(Debug, PartialEq, Eq)]
pub struct DeadlineReminder {
    pub assignment_id: String,
    pub submissive_id: String,
    pub title: String,
}

/// What a `DeadlineReminder` holds.
#[verifier::ext_equal]
pub struct DeadlineReminderView {
    pub assignment_id: Seq<char>,
    pub submissive_id: Seq<char>,
    pub title: Seq<char>,
}

impl View for DeadlineReminder {
    type V = DeadlineReminderView;

    open spec fn view(&self) -> DeadlineReminderView {
        DeadlineReminderView {
            assignment_id: self.assignment_id@,
            submissive_id: self.submissive_id@,
            title: self.title@,
        }
    }
}

impl DeepView for DeadlineReminder {
    type V = DeadlineReminderView;

    open spec fn deep_view(&self) -> DeadlineReminderView {
        self.view()
    }
}

impl Row for DeadlineReminder {
    fn dup(&self) -> (r: Self) {
        DeadlineReminder {
            assignment_id: self.assignment_id.clone(),
            submissive_id: self.submissive_id.clone(),
            title: self.title.clone(),
        }
    }
}

/// What one sweep did.
#[derive(Debug, PartialEq, Eq)]
pub struct SweepOutcome {
    pub auto_failed: Vec<AutoFailedTask>,
    pub reminders: Vec<DeadlineReminder>,
}

/// What a `SweepOutcome` holds.
#[verifier::ext_equal]
pub struct SweepOutcomeView {
    pub auto_failed: Seq<AutoFailedTaskView>,
    pub reminders: Seq<DeadlineReminderView>,
}

impl View for SweepOutcome {
    type V = SweepOutcomeView;

    open spec fn view(&self) -> SweepOutcomeView {
        SweepOutcomeView {
            auto_failed: self.auto_failed.deep_view(),
            reminders: self.reminders.deep_view(),
        }
    }
}

/// The assignment has this id.
pub open spec fn by_id(id: Seq<char>) -> spec_fn(AssignmentView) -> bool {
    |a: AssignmentView| a.id == id
}

/// The assignment with this id.
pub fn get(db: &Ledger, id: &str) -> (r: Option<Assignment>)
    ensures
        r.deep_view() == find_row(db@.assignments, by_id(id@)),
{
    let ghost p = by_id(id@);
    let test = |a: &Assignment| -> (b: bool)
        ensures
            b == p(a@),
        { same(a.id.as_str(), id) };
    match find(&db.assignments, Ghost(p), test) {
        Some(a) => Some(a.dup()),
        None => None,
    }
}

/// An assignment on one of these links.
pub open spec fn of_links(link_ids: Seq<Seq<char>>) -> spec_fn(AssignmentView) -> bool {
    |a: AssignmentView| link_ids.contains(a.link_id)
}

/// Newest first.
pub open spec fn newest_first() -> spec_fn(AssignmentView, AssignmentView) -> bool {
    |a: AssignmentView, b: AssignmentView| a.assigned_at >= b.assigned_at
}

/// The assignments on a set of links, newest first.
pub fn list_for_links(db: &Ledger, link_ids: &[String]) -> (r: Vec<Assignment>)
    ensures
        ordered_from(
            rows(r@),
            db@.assignments.filter(of_links(link_ids.deep_view())),
            newest_first(),
        ),
{
    let ghost p = of_links(link_ids.deep_view());
    let ghost le = newest_first();
    let test = |a: &Assignment| -> (b: bool)
        ensures
            b == p(a@),
        { listed(link_ids, a.link_id.as_str()) };
    let before = |a: &Assignment, b: &Assignment| -> (c: bool)
        ensures
            c == le(a@, b@),
        { a.assigned_at >= b.assigned_at };
    order(select(&db.assignments, Ghost(p), test), Ghost(le), before)
}

/// Why an assignment was not created.
#[derive(Clone, Copy, Debug, PartialEq, Eq, Structural)]
pub enum CreateError {
    /// There is no such template.
    TemplateNotFound,
    /// The template is no longer offered.
    TemplateInactive,
    /// Neither the request nor a template says which kind.
    MissingKind,
    /// Neither the request nor a template has a title.
    MissingTitle,
    /// A reward or punishment needs an effect.
    MissingEffectKind,
    /// An extension needs its seconds.
    MissingTimeExtensionSeconds,
    /// A reduction needs its seconds.
    MissingTimeReductionSeconds,
    /// A task needs a way to be completed.
    MissingCompletionType,
    /// A task completed by proof needs to say which media it takes.
    MissingProofMediaTypes,
    /// The ledger failed.
    Db(DbError),
}

/// What a template hands down; nothing where there is none.
pub open spec fn inherited(t: Option<templates::TemplateView>) -> InheritedView {
    match t {
        Some(t) => InheritedView {
            kind: Some(t.kind),
            title: Some(t.title),
            description: t.description,
            effect_kind: t.effect_kind,
            completion_type: t.completion_type,
            proof_media_types: t.proof_media_types,
            default_deadline_seconds: t.default_deadline_seconds,
            time_extension_seconds: t.time_extension_seconds,
            time_reduction_seconds: t.time_reduction_seconds,
            on_success_template_id: t.on_success_template_id,
            on_failure_template_id: t.on_failure_template_id,
            points_delta: t.points_delta,
        },
        None => InheritedView {
            kind: None,
            title: None,
            description: None,
            effect_kind: None,
            completion_type: None,
            proof_media_types: None,
            default_deadline_seconds: None,
            time_extension_seconds: None,
            time_reduction_seconds: None,
            on_success_template_id: None,
            on_failure_template_id: None,
            points_delta: None,
        },
    }
}

/// Takes a template apart.
fn inherit(t: Option<templates::Template>) -> (r: Inherited)
    ensures
        r@ == inherited(t.deep_view()),
{
    match t {
        Some(t) => Inherited {
            kind: Some(t.kind),
            title: Some(t.title),
            description: t.description,
            effect_kind: t.effect_kind,
            completion_type: t.completion_type,
            proof_media_types: t.proof_media_types,
            default_deadline_seconds: t.default_deadline_seconds,
            time_extension_seconds: t.time_extension_seconds,
            time_reduction_seconds: t.time_reduction_seconds,
            on_success_template_id: t.on_success_template_id,
            on_failure_template_id: t.on_failure_template_id,
            points_delta: t.points_delta,
        },
        None => Inherited {
            kind: None,
            title: None,
            description: None,
            effect_kind: None,
            completion_type: None,
            proof_media_types: None,
            default_deadline_seconds: None,
            time_extension_seconds: None,
            time_reduction_seconds: None,
            on_success_template_id: None,
            on_failure_template_id: None,
            points_delta: None,
        },
    }
}

/// The template that a new assignment is made from.
pub open spec fn chosen_template(db: LedgerView, new: NewAssignmentView) -> Result<
    Option<templates::TemplateView>,
    CreateError,
> {
    match new.template_id {
        None => Ok(None),
        Some(id) => match find_row(db.templates, templates::by_id(id)) {
            None => Err(CreateError::TemplateNotFound),
            Some(t) => if new.require_active_template && !t.active {
                Err(CreateError::TemplateInactive)
            } else {
                Ok(Some(t))
            },
        },
    }
}

/// The effect moves the release time at once.
pub open spec fn immediate(effect_kind: Option<Seq<char>>) -> bool {
    effect_kind == Some("time_extension"@) || effect_kind == Some("time_reduction"@)
}

/// Which fields an assignment has to have, by kind and effect.
pub open spec fn requirements(
    kind: Seq<char>,
    effect_kind: Option<Seq<char>>,
    time_extension_seconds: Option<i64>,
    time_reduction_seconds: Option<i64>,
    completion_type: Option<Seq<char>>,
    proof_media_types: Option<Seq<char>>,
) -> Result<(), CreateError> {
    if kind == "reward"@ || kind == "punishment"@ {
        if effect_kind is None {
            Err(CreateError::MissingEffectKind)
        } else if effect_kind == Some("time_extension"@) && time_extension_seconds is None {
            Err(CreateError::MissingTimeExtensionSeconds)
        } else if effect_kind == Some("time_reduction"@) && time_reduction_seconds is None {
            Err(CreateError::MissingTimeReductionSeconds)
        } else {
            Ok(())
        }
    } else if kind == "task"@ {
        if completion_type is None {
            Err(CreateError::MissingCompletionType)
        } else if completion_type == Some("proof_required"@) && proof_media_types is None {
            Err(CreateError::MissingProofMediaTypes)
        } else {
            Ok(())
        }
    } else {
        Ok(())
    }
}

/// Checks the fields of an assignment.
fn check_requirements(
    kind: &str,
    effect_kind: &Option<String>,
    time_extension_seconds: Option<i64>,
    time_reduction_seconds: Option<i64>,
    completion_type: &Option<String>,
    proof_media_types: &Option<String>,
) -> (r: Result<(), CreateError>)
    ensures
        r == requirements(
            kind@,
            effect_kind.deep_view(),
            time_extension_seconds,
            time_reduction_seconds,
            completion_type.deep_view(),
            proof_media_types.deep_view(),
        ),
{
    if same(kind, "reward") || same(kind, "punishment") {
        if effect_kind.is_none() {
            Err(CreateError::MissingEffectKind)
        } else if opt_is(effect_kind, "time_extension") && time_extension_seconds.is_none() {
            Err(CreateError::MissingTimeExtensionSeconds)
        } else if opt_is(effect_kind, "time_reduction") && time_reduction_seconds.is_none() {
            Err(CreateError::MissingTimeReductionSeconds)
        } else {
            Ok(())
        }
    } else if same(kind, "task") {
        if completion_type.is_none() {
            Err(CreateError::MissingCompletionType)
        } else if opt_is(completion_type, "proof_required") && proof_media_types.is_none() {
            Err(CreateError::MissingProofMediaTypes)
        } else {
            Ok(())
        }
    } else {
        Ok(())
    }
}

/// How long a task runs where nothing says otherwise: a day.
pub const DEFAULT_TASK_SECONDS: i64 = 86400;

/// When a task is due: when it says, or else after so many seconds. Only tasks have a deadline.
pub open spec fn deadline(
    kind: Seq<char>,
    deadline_at: Option<i64>,
    seconds: Option<i64>,
    now: i64,
) -> Result<Option<i64>, DbError> {
    if kind != "task"@ {
        Ok(None)
    } else {
        match deadline_at {
            Some(at) => Ok(Some(at)),
            None => match stored(
                now + (match seconds {
                    Some(s) => s,
                    None => DEFAULT_TASK_SECONDS,
                }),
            ) {
                Ok(at) => Ok(Some(at)),
                Err(e) => Err(e),
            },
        }
    }
}

/// When a task is due.
fn compute_deadline(kind: &str, deadline_at: Option<i64>, seconds: Option<i64>, now: i64) -> (r: Result<
    Option<i64>,
    DbError,
>)
    ensures
        r == deadline(kind@, deadline_at, seconds, now),
{
    if !same(kind, "task") {
        return Ok(None);
    }
    match deadline_at {
        Some(at) => Ok(Some(at)),
        None => {
            let seconds: i64 = match seconds {
                Some(s) => s,
                None => DEFAULT_TASK_SECONDS,
            };
            match plus(now, seconds) {
                Ok(at) => Ok(Some(at)),
                Err(e) => Err(e),
            }
        },
    }
}

/// The assignment that a request makes of what a template hands down: what the request says
/// stands, and what it leaves unset is inherited.
pub open spec fn drafted(
    base: InheritedView,
    id: Seq<char>,
    link_id: Seq<char>,
    new: NewAssignmentView,
    now: i64,
) -> Result<AssignmentView, CreateError> {
    let effect_kind = or_else(new.effect_kind, base.effect_kind);
    let completion_type = or_else(new.completion_type, base.completion_type);
    let proof_media_types = or_else(new.proof_media_types, base.proof_media_types);
    let extension = or_else(new.time_extension_seconds, base.time_extension_seconds);
    let reduction = or_else(new.time_reduction_seconds, base.time_reduction_seconds);
    let seconds = or_else(new.default_deadline_seconds, base.default_deadline_seconds);
    match or_else(new.kind, base.kind) {
        None => Err(CreateError::MissingKind),
        Some(kind) => match or_else(new.title, base.title) {
            None => Err(CreateError::MissingTitle),
            Some(title) => match requirements(
                kind,
                effect_kind,
                extension,
                reduction,
                completion_type,
                proof_media_types,
            ) {
                Err(e) => Err(e),
                Ok(()) => match deadline(kind, new.deadline_at, seconds, now) {
                    Err(e) => Err(CreateError::Db(e)),
                    Ok(deadline_at) => Ok(
                        AssignmentView {
                            id,
                            link_id,
                            template_id: new.template_id,
                            kind,
                            title,
                            description: or_else(new.description, base.description),
                            effect_kind,
                            completion_type,
                            proof_media_types,
                            deadline_at,
                            time_extension_seconds: extension,
                            time_reduction_seconds: reduction,
                            proof_submission_id: None,
                            on_success_template_id: or_else(
                                new.on_success_template_id,
                                base.on_success_template_id,
                            ),
                            on_failure_template_id: or_else(
                                new.on_failure_template_id,
                                base.on_failure_template_id,
                            ),
                            escalated_from_assignment_id: new.escalated_from_assignment_id,
                            triggered_by_submission_id: new.triggered_by_submission_id,
                            triggered_by_play_session_id: new.triggered_by_play_session_id,
                            spawned_by_recurring_task_rule_id: new.spawned_by_recurring_task_rule_id,
                            points_delta: or_else(new.points_delta, base.points_delta),
                            assigned_at: now,
                            assigned_by_user_id: new.assigned_by_user_id,
                            assigned_via: new.assigned_via,
                            status: if immediate(effect_kind) {
                                "applied"@
                            } else {
                                "assigned"@
                            },
                            status_updated_at: now,
                            notes: new.notes,
                        },
                    ),
                },
            },
        },
    }
}

/// Drafts an assignment.
fn draft(base: Inherited, id: String, link_id: &str, new: &NewAssignment, now: i64) -> (r: Result<
    Assignment,
    CreateError,
>)
    ensures
        match drafted(base@, id@, link_id@, new@, now) {
            Ok(a) => r is Ok && r->Ok_0@ == a,
            Err(e) => r == Err::<Assignment, CreateError>(e),
        },
{
    let effect_kind = given_or(new.effect_kind, &base.effect_kind);
    let completion_type = given_or(new.completion_type, &base.completion_type);
    let proof_media_types = given_or(new.proof_media_types, &base.proof_media_types);
    let extension = number_or(new.time_extension_seconds, base.time_extension_seconds);
    let reduction = number_or(new.time_reduction_seconds, base.time_reduction_seconds);
    let seconds = number_or(new.default_deadline_seconds, base.default_deadline_seconds);
    let kind = match given_or(new.kind, &base.kind) {
        Some(k) => k,
        None => {
            return Err(CreateError::MissingKind);
        },
    };
    let title = match given_or(new.title, &base.title) {
        Some(t) => t,
        None => {
            return Err(CreateError::MissingTitle);
        },
    };
    match check_requirements(
        kind.as_str(),
        &effect_kind,
        extension,
        reduction,
        &completion_type,
        &proof_media_types,
    ) {
        Ok(()) => {},
        Err(e) => {
            return Err(e);
        },
    }
    let deadline_at = match compute_deadline(kind.as_str(), new.deadline_at, seconds, now) {
        Ok(d) => d,
        Err(e) => {
            return Err(CreateError::Db(e));
        },
    };
    let status = if opt_is(&effect_kind, "time_extension")
        || opt_is(&effect_kind, "time_reduction") {
        "applied"
    } else {
        "assigned"
    };
    Ok(
        Assignment {
            id,
            link_id: own(link_id),
            template_id: own_opt(new.template_id),
            kind,
            title,
            description: given_or(new.description, &base.description),
            effect_kind,
            completion_type,
            proof_media_types,
            deadline_at,
            time_extension_seconds: extension,
            time_reduction_seconds: reduction,
            proof_submission_id: None,
            on_success_template_id: given_or(
                new.on_success_template_id,
                &base.on_success_template_id,
            ),
            on_failure_template_id: given_or(
                new.on_failure_template_id,
                &base.on_failure_template_id,
            ),
            escalated_from_assignment_id: own_opt(new.escalated_from_assignment_id),
            triggered_by_submission_id: own_opt(new.triggered_by_submission_id),
            triggered_by_play_session_id: own_opt(new.triggered_by_play_session_id),
            spawned_by_recurring_task_rule_id: own_opt(new.spawned_by_recurring_task_rule_id),
            points_delta: number_or(new.points_delta, base.points_delta),
            assigned_at: now,
            assigned_by_user_id: own_opt(new.assigned_by_user_id),
            assigned_via: own(new.assigned_via),
            status: own(status),
            status_updated_at: now,
            notes: own_opt(new.notes),
        },
    )
}

/// By how much an assignment moves the release time: an extension forward, a reduction back.
pub open spec fn effect_delta(a: AssignmentView) -> int {
    if a.effect_kind == Some("time_extension"@) {
        match a.time_extension_seconds {
            Some(s) => s as int,
            None => 0,
        }
    } else {
        match a.time_reduction_seconds {
            Some(s) => -(s as int),
            None => 0,
        }
    }
}

/// The effect of an assignment on the open session: reviewed at once unless the system made it.
pub open spec fn effect_of(
    a: AssignmentView,
    submissive_id: Seq<char>,
    delta: i64,
) -> confinement::ApplyEffectView {
    confinement::ApplyEffectView {
        submissive_id,
        delta_seconds: delta,
        reason: if a.effect_kind == Some("time_extension"@) {
            "punishment_time_extension"@
        } else {
            "reward_time_reduction"@
        },
        caused_by_assignment_id: a.id,
        adjusted_by_user_id: a.assigned_by_user_id,
        already_reviewed: a.assigned_via != "system"@,
    }
}

/// The ledger after an assignment has been handed out: it is there, and an effect that works at
/// once has been applied.
pub open spec fn handed_out(
    db: LedgerView,
    submissive_id: Seq<char>,
    a: AssignmentView,
    adjustment_id: Seq<char>,
    now: i64,
) -> Result<LedgerView, DbError> {
    let with_row = LedgerView { assignments: db.assignments.push(a), ..db };
    if immediate(a.effect_kind) {
        match stored(effect_delta(a)) {
            Err(e) => Err(e),
            Ok(delta) => match confinement::effect_applied(
                with_row,
                adjustment_id,
                effect_of(a, submissive_id, delta),
                now,
            ) {
                Err(e) => Err(e),
                Ok((after, _)) => Ok(after),
            },
        }
    } else {
        Ok(with_row)
    }
}

/// Hands an assignment out.
fn hand_out(
    db: &mut Ledger,
    submissive_id: &str,
    a: Assignment,
    adjustment_id: String,
    now: i64,
) -> (r: Result<(), DbError>)
    ensures
        match handed_out(old(db)@, submissive_id@, a@, adjustment_id@, now) {
            Ok(after) => r is Ok && final(db)@ == after,
            Err(e) => r == Err::<(), DbError>(e) && final(db)@ == old(db)@,
        },
{
    let extends = opt_is(&a.effect_kind, "time_extension");
    if extends || opt_is(&a.effect_kind, "time_reduction") {
        let delta: i64 = if extends {
            match a.time_extension_seconds {
                Some(s) => s,
                None => 0,
            }
        } else {
            match minus(
                0,
                match a.time_reduction_seconds {
                    Some(s) => s,
                    None => 0,
                },
            ) {
                Ok(d) => d,
                Err(e) => {
                    return Err(e);
                },
            }
        };
        let by: Option<&str> = match &a.assigned_by_user_id {
            Some(u) => Some(u.as_str()),
            None => None,
        };
        let effect = confinement::ApplyEffect {
            submissive_id,
            delta_seconds: delta,
            reason: if extends {
                "punishment_time_extension"
            } else {
                "reward_time_reduction"
            },
            caused_by_assignment_id: a.id.as_str(),
            adjusted_by_user_id: by,
            already_reviewed: !same(a.assigned_via.as_str(), "system"),
        };
        match confinement::apply_effect_as(db, adjustment_id, effect, now) {
            Ok(_) => {},
            Err(e) => {
                return Err(e);
            },
        }
    }
    insert(&mut db.assignments, a);
    Ok(())
}

/// The ledger after a creation, and the assignment that came of it.
pub open spec fn created(
    db: LedgerView,
    submissive_id: Seq<char>,
    link_id: Seq<char>,
    new: NewAssignmentView,
    id: Seq<char>,
    adjustment_id: Seq<char>,
    now: i64,
) -> Result<(LedgerView, AssignmentView), CreateError> {
    match chosen_template(db, new) {
        Err(e) => Err(e),
        Ok(t) => match drafted(inherited(t), id, link_id, new, now) {
            Err(e) => Err(e),
            Ok(a) => match handed_out(db, submissive_id, a, adjustment_id, now) {
                Err(e) => Err(CreateError::Db(e)),
                Ok(after) => Ok((after, a)),
            },
        },
    }
}

/// Creates an assignment under the id `id`; an adjustment that it causes gets `adjustment_id`.
pub fn create_as(
    db: &mut Ledger,
    submissive_id: &str,
    link_id: &str,
    new: NewAssignment,
    id: String,
    adjustment_id: String,
    now: i64,
) -> (r: Result<Assignment, CreateError>)
    ensures
        match created(old(db)@, submissive_id@, link_id@, new@, id@, adjustment_id@, now) {
            Ok((after, a)) => r is Ok && r->Ok_0@ == a && final(db)@ == after,
            Err(e) => r == Err::<Assignment, CreateError>(e) && final(db)@ == old(db)@,
        },
{
    let template = match new.template_id {
        Some(tid) => match templates::get(db, tid) {
            None => {
                return Err(CreateError::TemplateNotFound);
            },
            Some(t) => {
                if new.require_active_template && !t.active {
                    return Err(CreateError::TemplateInactive);
                }
                Some(t)
            },
        },
        None => None,
    };
    let a = match draft(inherit(template), id, link_id, &new, now) {
        Ok(a) => a,
        Err(e) => {
            return Err(e);
        },
    };
    let copy = a.dup();
    match hand_out(db, submissive_id, a, adjustment_id, now) {
        Ok(()) => Ok(copy),
        Err(e) => Err(CreateError::Db(e)),
    }
}

/// Creates an assignment.
pub fn create(
    db: &mut Ledger,
    submissive_id: &str,
    link_id: &str,
    new: NewAssignment,
    now: i64,
) -> (r: Result<Assignment, CreateError>)
    ensures
        exists|id: Seq<char>, adjustment_id: Seq<char>|
            is_id(id) && is_id(adjustment_id) && match #[trigger] created(
                old(db)@,
                submissive_id@,
                link_id@,
                new@,
                id,
                adjustment_id,
                now,
            ) {
                Ok((after, a)) => r is Ok && r->Ok_0@ == a && final(db)@ == after,
                Err(e) => r == Err::<Assignment, CreateError>(e) && final(db)@ == old(db)@,
            },
{
    let id = new_id();
    let adjustment_id = new_id();
    create_as(db, submissive_id, link_id, new, id, adjustment_id, now)
}

/// The request that an escalation makes: the template decides everything, active or not.
pub open spec fn escalation_request(from_id: Seq<char>, template_id: Seq<char>) -> NewAssignmentView {
    NewAssignmentView {
        template_id: Some(template_id),
        require_active_template: false,
        escalated_from_assignment_id: Some(from_id),
        assigned_via: "system"@,
        ..NewAssignmentView::blank()
    }
}

/// The ledger after an escalation, and the next assignment of the chain.
pub open spec fn escalated(
    db: LedgerView,
    from: AssignmentView,
    template_id: Seq<char>,
    id: Seq<char>,
    adjustment_id: Seq<char>,
    now: i64,
) -> Result<(LedgerView, AssignmentView), CreateError> {
    match find_row(db.links, links::by_id(from.link_id)) {
        None => Err(CreateError::Db(DbError::NoRows)),
        Some(l) => created(
            db,
            l.submissive_id,
            from.link_id,
            escalation_request(from.id, template_id),
            id,
            adjustment_id,
            now,
        ),
    }
}

/// The submissive of a link.
fn submissive_id_for_link(db: &Ledger, link_id: &str) -> (r: Result<String, DbError>)
    ensures
        match find_row(db@.links, links::by_id(link_id@)) {
            Some(l) => r is Ok && r->Ok_0@ == l.submissive_id,
            None => r == Err::<String, DbError>(DbError::NoRows),
        },
{
    match links::get(db, link_id) {
        Some(l) => Ok(l.submissive_id.clone()),
        None => Err(DbError::NoRows),
    }
}

/// Creates the next assignment of a chain from the template that a resolution points to.
fn escalate(
    db: &mut Ledger,
    from: &Assignment,
    template_id: &str,
    id: String,
    adjustment_id: String,
    now: i64,
) -> (r: Result<Assignment, CreateError>)
    ensures
        match escalated(old(db)@, from@, template_id@, id@, adjustment_id@, now) {
            Ok((after, a)) => r is Ok && r->Ok_0@ == a && final(db)@ == after,
            Err(e) => r == Err::<Assignment, CreateError>(e) && final(db)@ == old(db)@,
        },
{
    let submissive_id = match submissive_id_for_link(db, from.link_id.as_str()) {
        Ok(s) => s,
        Err(e) => {
            return Err(CreateError::Db(e));
        },
    };
    let mut new = NewAssignment::default();
    new.template_id = Some(template_id);
    new.require_active_template = false;
    new.escalated_from_assignment_id = Some(from.id.as_str());
    new.assigned_via = "system";
    create_as(db, submissive_id.as_str(), from.link_id.as_str(), new, id, adjustment_id, now)
}

/// How a failed escalation is reported by what triggered it.
pub open spec fn chain_error(e: CreateError) -> DbError {
    match e {
        CreateError::Db(e) => e,
        _ => DbError::InvalidQuery,
    }
}

/// Reports a failed escalation.
pub fn to_chain_error(e: CreateError) -> (r: DbError)
    ensures
        r == chain_error(e),
{
    match e {
        CreateError::Db(e) => e,
        _ => DbError::InvalidQuery,
    }
}

/// With this status since now.
pub open spec fn with_status(status: Seq<char>, now: i64) -> spec_fn(
    AssignmentView,
) -> AssignmentView {
    |a: AssignmentView| AssignmentView { status, status_updated_at: now, ..a }
}

/// Why an assignment was not acknowledged.
#[derive(Clone, Copy, Debug, PartialEq, Eq, Structural)]
pub enum AcknowledgeError {
    /// There is nothing here for this submissive to acknowledge.
    NotAcknowledgeable,
}

/// An open assignment on one of these links that a submissive acknowledges: a task that asks for
/// nothing else, or a plain grant.
pub open spec fn acknowledgeable(id: Seq<char>, link_ids: Seq<Seq<char>>) -> spec_fn(
    AssignmentView,
) -> bool {
    |a: AssignmentView|
        a.id == id && a.status == "assigned"@ && link_ids.contains(a.link_id) && ((a.kind
            == "task"@ && a.completion_type == Some("acknowledge_only"@)) || ((a.kind == "reward"@
            || a.kind == "punishment"@) && a.effect_kind == Some("grant"@)))
}

/// Acknowledges an assignment.
pub fn acknowledge(db: &mut Ledger, assignment_id: &str, submissive_id: &str, now: i64) -> (r: Result<
    (),
    AcknowledgeError,
>)
    ensures
        ({
            let p = acknowledgeable(
                assignment_id@,
                links::ids_where(old(db)@.links, links::of_submissive(submissive_id@)),
            );
            &&& final(db)@ == (LedgerView {
                assignments: updated(old(db)@.assignments, p, with_status("acknowledged"@, now)),
                ..old(db)@
            })
            &&& r == (if any_row(old(db)@.assignments, p) {
                Ok::<(), AcknowledgeError>(())
            } else {
                Err(AcknowledgeError::NotAcknowledgeable)
            })
        }),
{
    let mine = links::ids_of_submissive(db, submissive_id);
    let ghost p = acknowledgeable(assignment_id@, mine.deep_view());
    let ghost u = with_status("acknowledged"@, now);
    let change = |a: &Assignment| -> (n: Option<Assignment>)
        ensures
            match n {
                Some(x) => p(a@) && x@ == u(a@),
                None => !p(a@),
            },
        {
            if same(a.id.as_str(), assignment_id) && same(a.status.as_str(), "assigned")
                && listed(mine.as_slice(), a.link_id.as_str())
                && ((same(a.kind.as_str(), "task")
                && opt_is(&a.completion_type, "acknowledge_only"))
                || ((same(a.kind.as_str(), "reward") || same(a.kind.as_str(), "punishment"))
                && opt_is(&a.effect_kind, "grant"))) {
                let mut n = a.dup();
                n.status = own("acknowledged");
                n.status_updated_at = now;

                Some(n)
            } else {
                None
            }
        };
    if update(&mut db.assignments, Ghost(p), Ghost(u), change) {
        Ok(())
    } else {
        Err(AcknowledgeError::NotAcknowledgeable)
    }
}

/// The assignment with this id on one of these links.
pub open spec fn on_links(id: Seq<char>, link_ids: Seq<Seq<char>>) -> spec_fn(
    AssignmentView,
) -> bool {
    |a: AssignmentView| a.id == id && link_ids.contains(a.link_id)
}

/// A Keyholder's own assignment with this id.
pub open spec fn keyholders_own(db: LedgerView, id: Seq<char>, keyholder_id: Seq<char>) -> Option<
    AssignmentView,
> {
    find_row(
        db.assignments,
        on_links(id, links::ids_where(db.links, links::of_keyholder(keyholder_id))),
    )
}

/// Looks up a Keyholder's own assignment.
fn find_keyholders_own(db: &Ledger, id: &str, keyholder_id: &str) -> (r: Option<Assignment>)
    ensures
        r.deep_view() == keyholders_own(db@, id@, keyholder_id@),
{
    let theirs = links::ids_of_keyholder(db, keyholder_id);
    let ghost p = on_links(id@, theirs.deep_view());
    let test = |a: &Assignment| -> (b: bool)
        ensures
            b == p(a@),
        { same(a.id.as_str(), id) && listed(theirs.as_slice(), a.link_id.as_str()) };
    match find(&db.assignments, Ghost(p), test) {
        Some(a) => Some(a.dup()),
        None => None,
    }
}

/// Sets the status of an assignment.
fn set_status(db: &mut Ledger, id: &str, status: &str, now: i64)
    ensures
        final(db)@ == (LedgerView {
            assignments: updated(old(db)@.assignments, by_id(id@), with_status(status@, now)),
            ..old(db)@
        }),
{
    let ghost p = by_id(id@);
    let ghost u = with_status(status@, now);
    let change = |a: &Assignment| -> (n: Option<Assignment>)
        ensures
            match n {
                Some(x) => p(a@) && x@ == u(a@),
                None => !p(a@),
            },
        {
            if same(a.id.as_str(), id) {
                let mut n = a.dup();
                n.status = own(status);
                n.status_updated_at = now;

                Some(n)
            } else {
                None
            }
        };
    update(&mut db.assignments, Ghost(p), Ghost(u), change);
}

/// The first row with an id is the first after its status was set, too.
proof fn lemma_find_with_status(
    s: Seq<AssignmentView>,
    id: Seq<char>,
    status: Seq<char>,
    now: i64,
)
    ensures
        find_row(updated(s, by_id(id), with_status(status, now)), by_id(id)) == (match find_row(
            s,
            by_id(id),
        ) {
            Some(a) => Some(AssignmentView { status, status_updated_at: now, ..a }),
            None => None,
        }),
    decreases s.len(),
{
    let t = updated(s, by_id(id), with_status(status, now));
    if s.len() > 0 {
        assert(t.drop_first() =~= updated(s.drop_first(), by_id(id), with_status(status, now)));
        lemma_find_with_status(s.drop_first(), id, status, now);
    }
}

/// Why an assignment was not resolved.
#[derive(Clone, Copy, Debug, PartialEq, Eq, Structural)]
pub enum ResolveError {
    /// It is not one of this Keyholder's.
    NotFound,
    /// It cannot move to that status from where it is.
    InvalidTransition,
    /// The ledger failed.
    Db(DbError),
}

/// The moves that a Keyholder makes: completed after an acknowledgement, revoked while open.
pub open spec fn may_resolve(status: Seq<char>, new_status: Seq<char>) -> bool {
    if new_status == "completed"@ {
        status == "acknowledged"@
    } else if new_status == "revoked"@ {
        status == "assigned"@ || status == "acknowledged"@ || status == "proof_submitted"@
    } else {
        false
    }
}

/// Whether a Keyholder may make this move.
pub fn check_move(status: &str, new_status: &str) -> (r: bool)
    ensures
        r == may_resolve(status@, new_status@),
{
    if same(new_status, "completed") {
        same(status, "acknowledged")
    } else if same(new_status, "revoked") {
        same(status, "assigned") || same(status, "acknowledged") || same(status, "proof_submitted")
    } else {
        false
    }
}

/// The ledger after points are paid out for an assignment that has any.
pub open spec fn paid_out(
    db: LedgerView,
    link_id: Seq<char>,
    delta: Option<i64>,
    reason: Seq<char>,
    assignment_id: Seq<char>,
    transaction_id: Seq<char>,
    now: i64,
) -> Result<LedgerView, DbError> {
    match delta {
        None => Ok(db),
        Some(delta) => points::awarded_if_enabled(
            db,
            points::earned(
                transaction_id,
                link_id,
                delta,
                reason,
                Some("assignments"@),
                Some(assignment_id),
                None,
                now,
            ),
        ),
    }
}

/// Pays out the points of an assignment.
fn pay_out(
    db: &mut Ledger,
    link_id: &str,
    delta: Option<i64>,
    reason: &str,
    assignment_id: &str,
    transaction_id: String,
    now: i64,
) -> (r: Result<(), DbError>)
    ensures
        match paid_out(old(db)@, link_id@, delta, reason@, assignment_id@, transaction_id@, now) {
            Ok(after) => r is Ok && final(db)@ == after,
            Err(e) => r == Err::<(), DbError>(e) && final(db)@ == old(db)@,
        },
{
    match delta {
        None => Ok(()),
        Some(delta) => points::award_if_enabled_as(
            db,
            transaction_id,
            link_id,
            delta,
            reason,
            Some("assignments"),
            Some(assignment_id),
            now,
        ),
    }
}

/// The ledger after the escalation that a resolution points to, if it points to one.
pub open spec fn followed_up(
    db: LedgerView,
    from: AssignmentView,
    template_id: Option<Seq<char>>,
    id: Seq<char>,
    adjustment_id: Seq<char>,
    now: i64,
) -> Result<(LedgerView, Option<AssignmentView>), DbError> {
    match template_id {
        None => Ok((db, None)),
        Some(t) => match escalated(db, from, t, id, adjustment_id, now) {
            Err(e) => Err(chain_error(e)),
            Ok((after, a)) => Ok((after, Some(a))),
        },
    }
}

/// Follows a resolution up.
fn follow_up(
    db: &mut Ledger,
    from: &Assignment,
    template_id: &Option<String>,
    id: String,
    adjustment_id: String,
    now: i64,
) -> (r: Result<Option<Assignment>, DbError>)
    ensures
        match followed_up(
            old(db)@,
            from@,
            template_id.deep_view(),
            id@,
            adjustment_id@,
            now,
        ) {
            Ok((after, a)) => r is Ok && r->Ok_0.deep_view() == a && final(db)@ == after,
            Err(e) => r == Err::<Option<Assignment>, DbError>(e) && final(db)@ == old(db)@,
        },
{
    match template_id {
        None => Ok(None),
        Some(t) => match escalate(db, from, t.as_str(), id, adjustment_id, now) {
            Ok(a) => Ok(Some(a)),
            Err(e) => Err(to_chain_error(e)),
        },
    }
}

/// The ids that a resolution may need: of a log line, of a points transaction, of the assignment
/// that it escalates into, and of the adjustment that this one causes.
#[derive(Debug, PartialEq, Eq)]
pub struct ChainIds {
    pub log_line: String,
    pub transaction: String,
    pub assignment: String,
    pub adjustment: String,
}

/// What `ChainIds` hold.
#[verifier::ext_equal]
pub struct ChainIdsView {
    pub log_line: Seq<char>,
    pub transaction: Seq<char>,
    pub assignment: Seq<char>,
    pub adjustment: Seq<char>,
}

impl ChainIdsView {
    /// All of them are row identifiers.
    pub open spec fn are_ids(self) -> bool {
        &&& is_id(self.log_line)
        &&& is_id(self.transaction)
        &&& is_id(self.assignment)
        &&& is_id(self.adjustment)
    }
}

impl View for ChainIds {
    type V = ChainIdsView;

    open spec fn view(&self) -> ChainIdsView {
        ChainIdsView {
            log_line: self.log_line@,
            transaction: self.transaction@,
            assignment: self.assignment@,
            adjustment: self.adjustment@,
        }
    }
}

impl DeepView for ChainIds {
    type V = ChainIdsView;

    open spec fn deep_view(&self) -> ChainIdsView {
        self.view()
    }
}

/// Fresh ids for a resolution.
pub(crate) fn new_chain_ids() -> (r: ChainIds)
    ensures
        r@.are_ids(),
{
    ChainIds {
        log_line: new_id(),
        transaction: new_id(),
        assignment: new_id(),
        adjustment: new_id(),
    }
}

/// The ledger after a resolution, and the assignment that it escalated into. A completion pays
/// out a task's points and follows the success template; a revocation does neither.
pub open spec fn resolved(
    db: LedgerView,
    assignment_id: Seq<char>,
    keyholder_id: Seq<char>,
    new_status: Seq<char>,
    ids: ChainIdsView,
    now: i64,
) -> Result<(LedgerView, Option<AssignmentView>), ResolveError> {
    match keyholders_own(db, assignment_id, keyholder_id) {
        None => Err(ResolveError::NotFound),
        Some(a) => if !may_resolve(a.status, new_status) {
            Err(ResolveError::InvalidTransition)
        } else {
            let moved = LedgerView {
                assignments: updated(
                    db.assignments,
                    by_id(assignment_id),
                    with_status(new_status, now),
                ),
                ..db
            };
            let completed = new_status == "completed"@;
            match paid_out(
                moved,
                a.link_id,
                if completed && a.kind == "task"@ {
                    a.points_delta
                } else {
                    None
                },
                "task_completed"@,
                assignment_id,
                ids.transaction,
                now,
            ) {
                Err(e) => Err(ResolveError::Db(e)),
                Ok(paid) => match followed_up(
                    paid,
                    find_row(moved.assignments, by_id(assignment_id))->0,
                    if completed {
                        a.on_success_template_id
                    } else {
                        None
                    },
                    ids.assignment,
                    ids.adjustment,
                    now,
                ) {
                    Err(e) => Err(ResolveError::Db(e)),
                    Ok((after, next)) => Ok((after, next)),
                },
            }
        },
    }
}

/// Resolves an assignment under the ids given.
pub fn resolve_as(
    db: &mut Ledger,
    assignment_id: &str,
    keyholder_id: &str,
    new_status: &str,
    ids: ChainIds,
    now: i64,
) -> (r: Result<Option<Assignment>, ResolveError>)
    ensures
        match resolved(old(db)@, assignment_id@, keyholder_id@, new_status@, ids@, now) {
            Ok((after, next)) => r is Ok && r->Ok_0.deep_view() == next && final(db)@ == after,
            Err(e) => r == Err::<Option<Assignment>, ResolveError>(e) && final(db)@ == old(db)@,
        },
{
    let a = match find_keyholders_own(db, assignment_id, keyholder_id) {
        Some(a) => a,
        None => {
            return Err(ResolveError::NotFound);
        },
    };
    if !check_move(a.status.as_str(), new_status) {
        return Err(ResolveError::InvalidTransition);
    }
    let completed = same(new_status, "completed");
    let mut tx = db.transaction();
    set_status(&mut tx, assignment_id, new_status, now);
    let from = get(&tx, assignment_id);
    let delta = if completed && same(a.kind.as_str(), "task") {
        a.points_delta
    } else {
        None
    };
    match pay_out(
        &mut tx,
        a.link_id.as_str(),
        delta,
        "task_completed",
        assignment_id,
        ids.transaction,
        now,
    ) {
        Ok(()) => {},
        Err(e) => {
            return Err(ResolveError::Db(e));
        },
    }
    let template_id = if completed {
        a.on_success_template_id
    } else {
        None
    };
    proof {
        let own = on_links(
            assignment_id@,
            links::ids_where(old(db)@.links, links::of_keyholder(keyholder_id@)),
        );
        lemma_find_any(old(db)@.assignments, own);
        assert(any_row(old(db)@.assignments, by_id(assignment_id@))) by {
            let i = choose|i: int|
                0 <= i < old(db)@.assignments.len() && own(#[trigger] old(db)@.assignments[i]);
            assert(by_id(assignment_id@)(old(db)@.assignments[i]));
        }
        lemma_find_any(old(db)@.assignments, by_id(assignment_id@));
        lemma_find_with_status(old(db)@.assignments, assignment_id@, new_status@, now);
    }
    let from = match from {
        Some(f) => f,
        None => {
            return Err(ResolveError::NotFound);
        },
    };
    match follow_up(&mut tx, &from, &template_id, ids.assignment, ids.adjustment, now) {
        Ok(next) => {
            *db = tx;
            Ok(next)
        },
        Err(e) => Err(ResolveError::Db(e)),
    }
}

/// Resolves an assignment; what it escalated into, if it did.
pub fn resolve(
    db: &mut Ledger,
    assignment_id: &str,
    keyholder_id: &str,
    new_status: &str,
    now: i64,
) -> (r: Result<Option<Assignment>, ResolveError>)
    ensures
        exists|ids: ChainIdsView|
            ids.are_ids() && match #[trigger] resolved(
                old(db)@,
                assignment_id@,
                keyholder_id@,
                new_status@,
                ids,
                now,
            ) {
                Ok((after, next)) => r is Ok && r->Ok_0.deep_view() == next && final(db)@ == after,
                Err(e) => r == Err::<Option<Assignment>, ResolveError>(e) && final(db)@
                    == old(db)@,
            },
{
    let ids = new_chain_ids();
    resolve_as(db, assignment_id, keyholder_id, new_status, ids, now)
}

/// Why a proof was not taken.
#[derive(Debug, PartialEq, Eq)]
pub enum SubmitProofError {
    /// It is not one of this submissive's tasks.
    NotFound,
    /// The task takes no proof, or does not wait for any.
    NotAwaitingProof,
    /// The deadline has passed.
    DeadlinePassed,
    /// A file could not be stored.
    Store(proofs::StorageError),
}

/// What a `SubmitProofError` holds.
#[verifier::ext_equal]
pub enum SubmitProofErrorView {
    NotFound,
    NotAwaitingProof,
    DeadlinePassed,
    Store(proofs::StorageErrorView),
}

impl View for SubmitProofError {
    type V = SubmitProofErrorView;

    open spec fn view(&self) -> SubmitProofErrorView {
        match self {
            SubmitProofError::NotFound => SubmitProofErrorView::NotFound,
            SubmitProofError::NotAwaitingProof => SubmitProofErrorView::NotAwaitingProof,
            SubmitProofError::DeadlinePassed => SubmitProofErrorView::DeadlinePassed,
            SubmitProofError::Store(e) => SubmitProofErrorView::Store(e@),
        }
    }
}

/// The task with this id on one of these links.
pub open spec fn task_on_links(id: Seq<char>, link_ids: Seq<Seq<char>>) -> spec_fn(
    AssignmentView,
) -> bool {
    |a: AssignmentView| a.id == id && link_ids.contains(a.link_id) && a.kind == "task"@
}

/// The task that a proof is for, where one can be taken now.
pub open spec fn awaiting_proof(
    db: LedgerView,
    assignment_id: Seq<char>,
    submissive_id: Seq<char>,
    now: i64,
) -> Result<AssignmentView, SubmitProofErrorView> {
    match find_row(
        db.assignments,
        task_on_links(
            assignment_id,
            links::ids_where(db.links, links::of_submissive(submissive_id)),
        ),
    ) {
        None => Err(SubmitProofErrorView::NotFound),
        Some(a) => if a.completion_type != Some("proof_required"@) || a.status != "assigned"@ {
            Err(SubmitProofErrorView::NotAwaitingProof)
        } else if a.deadline_at matches Some(d) && d < now {
            Err(SubmitProofErrorView::DeadlinePassed)
        } else {
            Ok(a)
        },
    }
}

/// Checks what can be checked before any file is written.
pub fn check_proof(db: &Ledger, assignment_id: &str, submissive_id: &str, now: i64) -> (r: Result<
    Assignment,
    SubmitProofError,
>)
    ensures
        match awaiting_proof(db@, assignment_id@, submissive_id@, now) {
            Ok(a) => r is Ok && r->Ok_0@ == a,
            Err(e) => r is Err && r->Err_0@ == e,
        },
{
    let mine = links::ids_of_submissive(db, submissive_id);
    let ghost p = task_on_links(assignment_id@, mine.deep_view());
    let test = |a: &Assignment| -> (b: bool)
        ensures
            b == p(a@),
        {
            same(a.id.as_str(), assignment_id) && listed(mine.as_slice(), a.link_id.as_str())
                && same(a.kind.as_str(), "task")
        };
    match find(&db.assignments, Ghost(p), test) {
        None => Err(SubmitProofError::NotFound),
        Some(a) => {
            if !opt_is(&a.completion_type, "proof_required")
                || !same(a.status.as_str(), "assigned") {
                return Err(SubmitProofError::NotAwaitingProof);
            }
            if let Some(d) = a.deadline_at {
                if d < now {
                    return Err(SubmitProofError::DeadlinePassed);
                }
            }
            Ok(a.dup())
        },
    }
}

/// Proved by a submission, and waiting for its review.
pub open spec fn with_proof(submission_id: Seq<char>, now: i64) -> spec_fn(
    AssignmentView,
) -> AssignmentView {
    |a: AssignmentView|
        AssignmentView {
            status: "proof_submitted"@,
            status_updated_at: now,
            proof_submission_id: Some(submission_id),
            ..a
        }
}

/// The ledger after a proof was taken: the submission and its files are there, and the task waits
/// for the review.
pub open spec fn proof_submitted(
    db: LedgerView,
    assignment_id: Seq<char>,
    submissive_id: Seq<char>,
    kind: Seq<char>,
    metadata: Option<Seq<char>>,
    files: Seq<proofs::NewFileView>,
    id: Seq<char>,
    file_ids: Seq<Seq<char>>,
    now: i64,
) -> Result<LedgerView, SubmitProofErrorView> {
    match awaiting_proof(db, assignment_id, submissive_id, now) {
        Err(e) => Err(e),
        Ok(a) => match proofs::first_failure(files) {
            Some(e) => Err(SubmitProofErrorView::Store(e)),
            None => Ok(
                LedgerView {
                    submissions: db.submissions.push(
                        proofs::SubmissionView {
                            assignment_id: Some(assignment_id),
                            ..proofs::pending_submission(
                                id,
                                submissive_id,
                                a.link_id,
                                "punishment_completion"@,
                                kind,
                                metadata,
                                now,
                            )
                        },
                    ),
                    attachments: db.attachments + proofs::attachment_rows(files, file_ids, id, now),
                    assignments: updated(
                        db.assignments,
                        by_id(assignment_id),
                        with_proof(id, now),
                    ),
                    ..db
                },
            ),
        },
    }
}

/// Takes a proof under the ids given, one for the submission and one for each file.
pub fn submit_proof_as(
    db: &mut Ledger,
    assignment_id: &str,
    submissive_id: &str,
    kind: &str,
    metadata: Option<&str>,
    files: Vec<proofs::NewFile>,
    id: String,
    file_ids: Vec<String>,
    now: i64,
) -> (r: Result<(), SubmitProofError>)
    requires
        file_ids@.len() >= files@.len(),
    ensures
        match proof_submitted(
            old(db)@,
            assignment_id@,
            submissive_id@,
            kind@,
            metadata.deep_view(),
            files.deep_view(),
            id@,
            file_ids.deep_view(),
            now,
        ) {
            Ok(after) => r is Ok && final(db)@ == after,
            Err(e) => r is Err && r->Err_0@ == e && final(db)@ == old(db)@,
        },
{
    let a = match check_proof(db, assignment_id, submissive_id, now) {
        Ok(a) => a,
        Err(e) => {
            return Err(e);
        },
    };
    if let Some(e) = proofs::find_failure(&files) {
        return Err(SubmitProofError::Store(e.dup()));
    }
    insert(
        &mut db.submissions,
        proofs::Submission {
            id: id.clone(),
            submissive_id: own(submissive_id),
            link_id: a.link_id,
            purpose: own("punishment_completion"),
            verification_code_id: None,
            verification_code_value: None,
            assignment_id: Some(own(assignment_id)),
            kind: own(kind),
            metadata: own_opt(metadata),
            submitted_at: now,
            status: own("pending"),
            reviewed_by_user_id: None,
            reviewed_at: None,
            review_notes: None,
            reviewed_via: None,
            redo_of_submission_id: None,
        },
    );
    proofs::attach(db, &files, &file_ids, id.as_str(), now);
    let ghost p = by_id(assignment_id@);
    let ghost u = with_proof(id@, now);
    let change = |a: &Assignment| -> (n: Option<Assignment>)
        ensures
            match n {
                Some(x) => p(a@) && x@ == u(a@),
                None => !p(a@),
            },
        {
            if same(a.id.as_str(), assignment_id) {
                let mut n = a.dup();
                n.status = own("proof_submitted");
                n.status_updated_at = now;
                n.proof_submission_id = Some(id.clone());

                Some(n)
            } else {
                None
            }
        };
    update(&mut db.assignments, Ghost(p), Ghost(u), change);
    Ok(())
}

/// Takes a proof; the id of the submission.
pub fn submit_proof(
    db: &mut Ledger,
    assignment_id: &str,
    submissive_id: &str,
    kind: &str,
    metadata: Option<&str>,
    files: Vec<proofs::NewFile>,
    now: i64,
) -> (r: Result<String, SubmitProofError>)
    ensures
        exists|id: Seq<char>, file_ids: Seq<Seq<char>>|
            is_id(id) && are_ids(file_ids, files@.len()) && match #[trigger] proof_submitted(
                old(db)@,
                assignment_id@,
                submissive_id@,
                kind@,
                metadata.deep_view(),
                files.deep_view(),
                id,
                file_ids,
                now,
            ) {
                Ok(after) => r is Ok && r->Ok_0@ == id && final(db)@ == after,
                Err(e) => r is Err && r->Err_0@ == e && final(db)@ == old(db)@,
            },
{
    let id = new_id();
    let file_ids = new_ids(files.len());
    let ghost ids = file_ids.deep_view();
    let ghost given = files.deep_view();
    match submit_proof_as(
        db,
        assignment_id,
        submissive_id,
        kind,
        metadata,
        files,
        id.clone(),
        file_ids,
        now,
    ) {
        Ok(()) => Ok(id),
        Err(e) => {
            assert(proof_submitted(
                old(db)@,
                assignment_id@,
                submissive_id@,
                kind@,
                metadata.deep_view(),
                given,
                id@,
                ids,
                now,
            ) is Err);
            Err(e)
        },
    }
}

/// Why a proof was not reviewed.
#[derive(Clone, Copy, Debug, PartialEq, Eq, Structural)]
pub enum ReviewProofError {
    /// The submission cannot be reviewed.
    Proof(proofs::ReviewError),
    /// The ledger failed.
    Db(DbError),
}

/// The assignment that a submission proves completion of.
pub open spec fn proved_assignment(db: LedgerView, submission_id: Seq<char>) -> Option<
    AssignmentView,
> {
    match find_row(db.submissions, proofs::by_id(submission_id)) {
        None => None,
        Some(s) => if s.purpose != "punishment_completion"@ {
            None
        } else {
            match s.assignment_id {
                None => None,
                Some(id) => find_row(db.assignments, by_id(id)),
            }
        },
    }
}

/// Looks up the assignment that a submission proves completion of.
fn find_proved_assignment(db: &Ledger, submission_id: &str) -> (r: Option<Assignment>)
    ensures
        r.deep_view() == proved_assignment(db@, submission_id@),
{
    match proofs::get(db, submission_id) {
        None => None,
        Some(s) => {
            if !same(s.purpose.as_str(), "punishment_completion") {
                return None;
            }
            match &s.assignment_id {
                None => None,
                Some(id) => get(db, id.as_str()),
            }
        },
    }
}

/// The line that a failed review leaves in the log.
pub open spec fn failure_entry(
    assignment_id: Seq<char>,
    link_id: Seq<char>,
    by: Seq<char>,
) -> audit::EntryView {
    audit::EntryView {
        actor: audit::ActorView::User(by),
        link_id: Some(link_id),
        action: "assignment.failed"@,
        entity_type: "assignments"@,
        entity_id: assignment_id,
        detail: None,
    }
}

/// The ledger after an assignment was judged by its proof, and the assignment that this escalated
/// into: the status, the points and the template that the verdict calls for. A failure is logged.
pub open spec fn judged(
    db: LedgerView,
    a: AssignmentView,
    link_id: Seq<char>,
    success: bool,
    by: Seq<char>,
    ids: ChainIdsView,
    now: i64,
) -> Result<(LedgerView, Option<AssignmentView>), DbError> {
    let status = if success {
        "completed"@
    } else {
        "failed"@
    };
    let moved = LedgerView {
        assignments: updated(db.assignments, by_id(a.id), with_status(status, now)),
        ..db
    };
    let logged = if success {
        moved
    } else {
        audit::logged(moved, ids.log_line, failure_entry(a.id, link_id, by), now)
    };
    match paid_out(
        logged,
        link_id,
        a.points_delta,
        if success {
            "task_completed"@
        } else {
            "task_failed"@
        },
        a.id,
        ids.transaction,
        now,
    ) {
        Err(e) => Err(e),
        Ok(paid) => followed_up(
            paid,
            AssignmentView { status, status_updated_at: now, ..a },
            if success {
                a.on_success_template_id
            } else {
                a.on_failure_template_id
            },
            ids.assignment,
            ids.adjustment,
            now,
        ),
    }
}

/// Judges an assignment by its proof. Where this fails the ledger is left in between.
fn judge_assignment(
    tx: &mut Ledger,
    a: &Assignment,
    link_id: &str,
    success: bool,
    by: &str,
    ids: ChainIds,
    now: i64,
) -> (r: Result<(Assignment, Option<Assignment>), DbError>)
    ensures
        match judged(old(tx)@, a@, link_id@, success, by@, ids@, now) {
            Ok((after, next)) => r is Ok && r->Ok_0.1.deep_view() == next && final(tx)@ == after
                && r->Ok_0.0@ == (AssignmentView {
                status: if success {
                    "completed"@
                } else {
                    "failed"@
                },
                status_updated_at: now,
                ..a@
            }),
            Err(e) => r == Err::<(Assignment, Option<Assignment>), DbError>(e),
        },
{
    let status = if success {
        "completed"
    } else {
        "failed"
    };
    set_status(tx, a.id.as_str(), status, now);
    if !success {
        let entry = audit::Entry {
            actor: audit::Actor::User(by),
            link_id: Some(link_id),
            action: "assignment.failed",
            entity_type: "assignments",
            entity_id: a.id.as_str(),
            detail: None,
        };
        match audit::record_as(tx, ids.log_line, entry, now) {
            Ok(()) => {},
            Err(e) => {
                return Err(e);
            },
        }
    }
    let reason = if success {
        "task_completed"
    } else {
        "task_failed"
    };
    match pay_out(
        tx,
        link_id,
        a.points_delta,
        reason,
        a.id.as_str(),
        ids.transaction,
        now,
    ) {
        Ok(()) => {},
        Err(e) => {
            return Err(e);
        },
    }
    let mut moved = a.dup();
    moved.status = own(status);
    moved.status_updated_at = now;
    let template_id = if success {
        dup_opt(&a.on_success_template_id)
    } else {
        dup_opt(&a.on_failure_template_id)
    };
    match follow_up(tx, &moved, &template_id, ids.assignment, ids.adjustment, now) {
        Ok(next) => Ok((moved, next)),
        Err(e) => Err(e),
    }
}

/// The ledger after a review, and what it resolved. A submission that proves completion of an
/// assignment decides it when verified or failed; a redo leaves the assignment as it is.
pub open spec fn proof_reviewed(
    db: LedgerView,
    submission_id: Seq<char>,
    link_id: Seq<char>,
    status: Seq<char>,
    notes: Option<Seq<char>>,
    by: Seq<char>,
    via: Seq<char>,
    ids: ChainIdsView,
    now: i64,
) -> Result<(LedgerView, ReviewProofOutcomeView), ReviewProofError> {
    match proofs::reviewed(db, submission_id, link_id, status, notes, by, via, now) {
        Err(e) => Err(ReviewProofError::Proof(e)),
        Ok(after) => {
            let success = status == "verified"@;
            match proved_assignment(after, submission_id) {
                Some(a) if success || status == "failed"@ => match judged(
                    after,
                    a,
                    link_id,
                    success,
                    by,
                    ids,
                    now,
                ) {
                    Err(e) => Err(ReviewProofError::Db(e)),
                    Ok((last, next)) => Ok(
                        (
                            last,
                            ReviewProofOutcomeView {
                                resolved_assignment: Some(
                                    AssignmentView {
                                        status: if success {
                                            "completed"@
                                        } else {
                                            "failed"@
                                        },
                                        status_updated_at: now,
                                        ..a
                                    },
                                ),
                                escalated: next,
                            },
                        ),
                    ),
                },
                _ => Ok(
                    (after, ReviewProofOutcomeView { resolved_assignment: None, escalated: None }),
                ),
            }
        },
    }
}

/// Reviews a proof under the ids given.
pub fn review_proof_as(
    db: &mut Ledger,
    submission_id: &str,
    link_id: &str,
    status: &str,
    review_notes: Option<&str>,
    reviewed_by_user_id: &str,
    reviewed_via: &str,
    ids: ChainIds,
    now: i64,
) -> (r: Result<ReviewProofOutcome, ReviewProofError>)
    ensures
        match proof_reviewed(
            old(db)@,
            submission_id@,
            link_id@,
            status@,
            review_notes.deep_view(),
            reviewed_by_user_id@,
            reviewed_via@,
            ids@,
            now,
        ) {
            Ok((after, outcome)) => r is Ok && r->Ok_0@ == outcome && final(db)@ == after,
            Err(e) => r == Err::<ReviewProofOutcome, ReviewProofError>(e) && final(db)@
                == old(db)@,
        },
{
    let mut tx = db.transaction();
    match proofs::review(
        &mut tx,
        submission_id,
        link_id,
        status,
        review_notes,
        reviewed_by_user_id,
        reviewed_via,
        now,
    ) {
        Ok(()) => {},
        Err(e) => {
            return Err(ReviewProofError::Proof(e));
        },
    }
    let success = same(status, "verified");
    let decides = success || same(status, "failed");
    let assignment = find_proved_assignment(&tx, submission_id);
    let outcome = match assignment {
        Some(a) if decides => {
            match judge_assignment(
                &mut tx,
                &a,
                link_id,
                success,
                reviewed_by_user_id,
                ids,
                now,
            ) {
                Ok((moved, next)) => ReviewProofOutcome {
                    resolved_assignment: Some(moved),
                    escalated: next,
                },
                Err(e) => {
                    return Err(ReviewProofError::Db(e));
                },
            }
        },
        _ => ReviewProofOutcome { resolved_assignment: None, escalated: None },
    };
    *db = tx;
    Ok(outcome)
}

/// Reviews a proof: the one review that verification and task completion share.
pub fn review_proof(
    db: &mut Ledger,
    submission_id: &str,
    link_id: &str,
    status: &str,
    review_notes: Option<&str>,
    reviewed_by_user_id: &str,
    reviewed_via: &str,
    now: i64,
) -> (r: Result<ReviewProofOutcome, ReviewProofError>)
    ensures
        exists|ids: ChainIdsView|
            ids.are_ids() && match #[trigger] proof_reviewed(
                old(db)@,
                submission_id@,
                link_id@,
                status@,
                review_notes.deep_view(),
                reviewed_by_user_id@,
                reviewed_via@,
                ids,
                now,
            ) {
                Ok((after, outcome)) => r is Ok && r->Ok_0@ == outcome && final(db)@ == after,
                Err(e) => r == Err::<ReviewProofOutcome, ReviewProofError>(e) && final(db)@
                    == old(db)@,
            },
{
    let ids = new_chain_ids();
    review_proof_as(
        db,
        submission_id,
        link_id,
        status,
        review_notes,
        reviewed_by_user_id,
        reviewed_via,
        ids,
        now,
    )
}

/// Why an assignment was not edited.
#[derive(Clone, Copy, Debug, PartialEq, Eq, Structural)]
pub enum EditError {
    /// It is not one of this Keyholder's.
    NotFound,
    /// It has resolved: there is nothing left to edit.
    AlreadyResolved,
}

/// Whether an assignment can be edited still.
pub open spec fn editable(db: LedgerView, id: Seq<char>, keyholder_id: Seq<char>) -> Result<
    (),
    EditError,
> {
    match keyholders_own(db, id, keyholder_id) {
        None => Err(EditError::NotFound),
        Some(a) => if a.status == "assigned"@ || a.status == "proof_submitted"@ {
            Ok(())
        } else {
            Err(EditError::AlreadyResolved)
        },
    }
}

/// Whether an assignment can be edited still.
fn check_editable(db: &Ledger, id: &str, keyholder_id: &str) -> (r: Result<(), EditError>)
    ensures
        r == editable(db@, id@, keyholder_id@),
{
    match find_keyholders_own(db, id, keyholder_id) {
        None => Err(EditError::NotFound),
        Some(a) => if same(a.status.as_str(), "assigned") || same(
            a.status.as_str(),
            "proof_submitted",
        ) {
            Ok(())
        } else {
            Err(EditError::AlreadyResolved)
        },
    }
}

/// Due at this time.
pub open spec fn with_deadline(at: i64) -> spec_fn(AssignmentView) -> AssignmentView {
    |a: AssignmentView| AssignmentView { deadline_at: Some(at), ..a }
}

/// Sets the deadline of an assignment that has not resolved.
pub fn edit_deadline(
    db: &mut Ledger,
    assignment_id: &str,
    keyholder_id: &str,
    new_deadline_at: i64,
) -> (r: Result<(), EditError>)
    ensures
        r == editable(old(db)@, assignment_id@, keyholder_id@),
        final(db)@ == (if r is Ok {
            LedgerView {
                assignments: updated(
                    old(db)@.assignments,
                    by_id(assignment_id@),
                    with_deadline(new_deadline_at),
                ),
                ..old(db)@
            }
        } else {
            old(db)@
        }),
{
    match check_editable(db, assignment_id, keyholder_id) {
        Ok(()) => {},
        Err(e) => {
            return Err(e);
        },
    }
    let ghost p = by_id(assignment_id@);
    let ghost u = with_deadline(new_deadline_at);
    let change = |a: &Assignment| -> (n: Option<Assignment>)
        ensures
            match n {
                Some(x) => p(a@) && x@ == u(a@),
                None => !p(a@),
            },
        {
            if same(a.id.as_str(), assignment_id) {
                let mut n = a.dup();
                n.deadline_at = Some(new_deadline_at);

                Some(n)
            } else {
                None
            }
        };
    update(&mut db.assignments, Ghost(p), Ghost(u), change);
    Ok(())
}

/// With this consequence of failure.
pub open spec fn with_failure_template(template_id: Option<Seq<char>>) -> spec_fn(
    AssignmentView,
) -> AssignmentView {
    |a: AssignmentView| AssignmentView { on_failure_template_id: template_id, ..a }
}

/// Sets the consequence of failure of an assignment that has not resolved.
pub fn edit_escalation(
    db: &mut Ledger,
    assignment_id: &str,
    keyholder_id: &str,
    on_failure_template_id: Option<&str>,
) -> (r: Result<(), EditError>)
    ensures
        r == editable(old(db)@, assignment_id@, keyholder_id@),
        final(db)@ == (if r is Ok {
            LedgerView {
                assignments: updated(
                    old(db)@.assignments,
                    by_id(assignment_id@),
                    with_failure_template(on_failure_template_id.deep_view()),
                ),
                ..old(db)@
            }
        } else {
            old(db)@
        }),
{
    match check_editable(db, assignment_id, keyholder_id) {
        Ok(()) => {},
        Err(e) => {
            return Err(e);
        },
    }
    let ghost p = by_id(assignment_id@);
    let ghost u = with_failure_template(on_failure_template_id.deep_view());
    let change = |a: &Assignment| -> (n: Option<Assignment>)
        ensures
            match n {
                Some(x) => p(a@) && x@ == u(a@),
                None => !p(a@),
            },
        {
            if same(a.id.as_str(), assignment_id) {
                let mut n = a.dup();
                n.on_failure_template_id = own_opt(on_failure_template_id);

                Some(n)
            } else {
                None
            }
        };
    update(&mut db.assignments, Ghost(p), Ghost(u), change);
    Ok(())
}

/// An open task whose deadline has passed.
pub open spec fn overdue(now: i64) -> spec_fn(AssignmentView) -> bool {
    |a: AssignmentView|
        a.kind == "task"@ && a.status == "assigned"@ && (a.deadline_at matches Some(d) && d < now)
}

/// The assignment with this id, while it is open.
pub open spec fn still_assigned(id: Seq<char>) -> spec_fn(AssignmentView) -> bool {
    |a: AssignmentView| a.id == id && a.status == "assigned"@
}

/// The line that an automatic failure leaves in the log.
pub open spec fn auto_failure_entry(assignment_id: Seq<char>) -> audit::EntryView {
    audit::EntryView {
        actor: audit::ActorView::System,
        link_id: None,
        action: "assignment.auto_failed"@,
        entity_type: "assignments"@,
        entity_id: assignment_id,
        detail: None,
    }
}

/// The ledger after one task failed on its deadline, and what there is to tell about it. The
/// failure is logged, its points are taken, and its template is followed; a task whose link is
/// gone fails without a follow-up, and one that is no longer open is left alone.
pub open spec fn auto_failed(
    db: LedgerView,
    id: Seq<char>,
    ids: ChainIdsView,
    now: i64,
) -> Result<(LedgerView, Option<AutoFailedTaskView>), DbError> {
    if !any_row(db.assignments, still_assigned(id)) {
        Ok((db, None))
    } else {
        let moved = LedgerView {
            assignments: updated(db.assignments, still_assigned(id), with_status("failed"@, now)),
            ..db
        };
        let logged = audit::logged(moved, ids.log_line, auto_failure_entry(id), now);
        match find_row(logged.assignments, by_id(id)) {
            None => Ok((logged, None)),
            Some(a) => match paid_out(
                logged,
                a.link_id,
                a.points_delta,
                "task_failed"@,
                id,
                ids.transaction,
                now,
            ) {
                Err(e) => Err(e),
                Ok(paid) => match find_row(paid.links, links::by_id(a.link_id)) {
                    None => Ok((paid, None)),
                    Some(l) => match followed_up(
                        paid,
                        a,
                        a.on_failure_template_id,
                        ids.assignment,
                        ids.adjustment,
                        now,
                    ) {
                        Err(e) => Err(e),
                        Ok((after, next)) => Ok(
                            (
                                after,
                                Some(
                                    AutoFailedTaskView {
                                        assignment_id: id,
                                        link_id: a.link_id,
                                        keyholder_id: l.keyholder_id,
                                        submissive_id: l.submissive_id,
                                        escalated: next,
                                    },
                                ),
                            ),
                        ),
                    },
                },
            },
        }
    }
}

/// Fails one task on its deadline.
pub fn auto_fail(db: &mut Ledger, id: &str, ids: ChainIds, now: i64) -> (r: Result<
    Option<AutoFailedTask>,
    DbError,
>)
    ensures
        match auto_failed(old(db)@, id@, ids@, now) {
            Ok((after, task)) => r is Ok && r->Ok_0.deep_view() == task && final(db)@ == after,
            Err(e) => r == Err::<Option<AutoFailedTask>, DbError>(e) && final(db)@ == old(db)@,
        },
{
    let mut tx = db.transaction();
    let ghost p = still_assigned(id@);
    let ghost u = with_status("failed"@, now);
    let change = |a: &Assignment| -> (n: Option<Assignment>)
        ensures
            match n {
                Some(x) => p(a@) && x@ == u(a@),
                None => !p(a@),
            },
        {
            if same(a.id.as_str(), id) && same(a.status.as_str(), "assigned") {
                let mut n = a.dup();
                n.status = own("failed");
                n.status_updated_at = now;

                Some(n)
            } else {
                None
            }
        };
    if !update(&mut tx.assignments, Ghost(p), Ghost(u), change) {
        return Ok(None);
    }
    let entry = audit::Entry {
        actor: audit::Actor::System,
        link_id: None,
        action: "assignment.auto_failed",
        entity_type: "assignments",
        entity_id: id,
        detail: None,
    };
    match audit::record_as(&mut tx, ids.log_line, entry, now) {
        Ok(()) => {},
        Err(e) => {
            return Err(e);
        },
    }
    let a = match get(&tx, id) {
        Some(a) => a,
        None => {
            *db = tx;
            return Ok(None);
        },
    };
    match pay_out(
        &mut tx,
        a.link_id.as_str(),
        a.points_delta,
        "task_failed",
        id,
        ids.transaction,
        now,
    ) {
        Ok(()) => {},
        Err(e) => {
            return Err(e);
        },
    }
    let (keyholder_id, submissive_id) = match links::parties(&tx, a.link_id.as_str()) {
        Some(parties) => parties,
        None => {
            *db = tx;
            return Ok(None);
        },
    };
    match follow_up(
        &mut tx,
        &a,
        &a.on_failure_template_id,
        ids.assignment,
        ids.adjustment,
        now,
    ) {
        Ok(next) => {
            *db = tx;
            Ok(
                Some(
                    AutoFailedTask {
                        assignment_id: own(id),
                        link_id: a.link_id,
                        keyholder_id,
                        submissive_id,
                        escalated: next,
                    },
                ),
            )
        },
        Err(e) => Err(e),
    }
}

/// How far a sweep has come.
#[verifier::ext_equal]
pub struct Sweep {
    /// The ledger as it stands.
    pub db: LedgerView,
    /// What there is to tell so far.
    pub told: Seq<AutoFailedTaskView>,
    /// The failure that stopped it.
    pub stopped: Option<DbError>,
}

/// A sweep after its first `n` tasks. Each task is settled for itself: what is done stays done
/// when a later one fails, and a failure stops the sweep.
pub open spec fn swept(
    db: LedgerView,
    tasks: Seq<Seq<char>>,
    ids: Seq<ChainIdsView>,
    n: nat,
    now: i64,
) -> Sweep
    decreases n,
{
    if n == 0 {
        Sweep { db, told: Seq::empty(), stopped: None }
    } else {
        let before = swept(db, tasks, ids, (n - 1) as nat, now);
        if before.stopped is Some {
            before
        } else {
            match auto_failed(before.db, tasks[n - 1], ids[n - 1], now) {
                Err(e) => Sweep { stopped: Some(e), ..before },
                Ok((after, told)) => Sweep {
                    db: after,
                    told: match told {
                        Some(t) => before.told.push(t),
                        None => before.told,
                    },
                    stopped: None,
                },
            }
        }
    }
}

/// A sweep that has stopped goes no further.
proof fn lemma_swept_stopped(
    db: LedgerView,
    tasks: Seq<Seq<char>>,
    ids: Seq<ChainIdsView>,
    k: nat,
    n: nat,
    now: i64,
)
    requires
        k <= n,
        swept(db, tasks, ids, k, now).stopped is Some,
    ensures
        swept(db, tasks, ids, n, now) == swept(db, tasks, ids, k, now),
    decreases n,
{
    if k < n {
        lemma_swept_stopped(db, tasks, ids, k, (n - 1) as nat, now);
    }
}

/// The ids of the tasks that a sweep is to fail.
pub open spec fn overdue_ids(db: LedgerView, now: i64) -> Seq<Seq<char>> {
    db.assignments.filter(overdue(now)).map_values(|a: AssignmentView| a.id)
}

/// A sweep over every task that is overdue as it starts.
pub open spec fn whole_sweep(db: LedgerView, ids: Seq<ChainIdsView>, now: i64) -> Sweep {
    swept(db, overdue_ids(db, now), ids, overdue_ids(db, now).len(), now)
}

/// Lists the tasks that a sweep is to fail.
fn list_overdue(db: &Ledger, now: i64) -> (r: Vec<String>)
    ensures
        r.deep_view() == overdue_ids(db@, now),
{
    let ghost p = overdue(now);
    let test = |a: &Assignment| -> (b: bool)
        ensures
            b == p(a@),
        {
            same(a.kind.as_str(), "task") && same(a.status.as_str(), "assigned")
                && match a.deadline_at {
                Some(d) => d < now,
                None => false,
            }
        };
    let found = select(&db.assignments, Ghost(p), test);
    let mut out: Vec<String> = Vec::new();
    let mut i: usize = 0;
    while i < found.len()
        invariant
            i <= found@.len(),
            out@.len() == i,
            forall|j: int| 0 <= j < i ==> #[trigger] out@[j]@ == found@[j]@.id,
        decreases found@.len() - i,
    {
        out.push(found[i].id.clone());
        i = i + 1;
    }
    assert(out.deep_view() =~= rows(found@).map_values(|a: AssignmentView| a.id));
    out
}

/// When the reminder of a task is due: an hour before the deadline, or halfway there where that
/// is later.
pub open spec fn reminder_at(deadline_at: i64, assigned_at: i64) -> int {
    let half = (deadline_at - assigned_at) / 2;
    if half < 3600 {
        deadline_at - half
    } else {
        deadline_at - 3600
    }
}

/// The reminder of a task is due: it has come, it comes at least five minutes after the
/// assignment, and none has been sent before.
pub open spec fn reminder_due(
    links: Seq<links::LinkView>,
    notifications: Seq<notifications::NotificationView>,
    now: i64,
) -> spec_fn(AssignmentView) -> bool {
    |a: AssignmentView|
        a.kind == "task"@ && a.status == "assigned"@
            && find_row(links, links::by_id(a.link_id)) is Some
            && match a.deadline_at {
            None => false,
            Some(d) => {
                &&& reminder_at(d, a.assigned_at) - a.assigned_at >= 300
                &&& now >= reminder_at(d, a.assigned_at)
                &&& !any_row(
                    notifications,
                    notifications::about("task.deadline_approaching"@, a.id),
                )
            },
        }
}

/// The reminder of a task, for the submissive on its link.
pub open spec fn reminder(links: Seq<links::LinkView>) -> spec_fn(
    AssignmentView,
) -> DeadlineReminderView {
    |a: AssignmentView|
        DeadlineReminderView {
            assignment_id: a.id,
            submissive_id: find_row(links, links::by_id(a.link_id))->0.submissive_id,
            title: a.title,
        }
}

/// The reminders that are due.
pub open spec fn reminders_due(db: LedgerView, now: i64) -> Seq<DeadlineReminderView> {
    db.assignments.filter(reminder_due(db.links, db.notifications, now)).map_values(
        reminder(db.links),
    )
}

/// Whether a reminder falls due for these times.
pub fn reminder_time_due(deadline_at: i64, assigned_at: i64, now: i64) -> (r: bool)
    ensures
        r == (reminder_at(deadline_at, assigned_at) - assigned_at >= 300 && now >= reminder_at(
            deadline_at,
            assigned_at,
        )),
{
    let total: i128 = deadline_at as i128 - assigned_at as i128;
    if total < 0 {
        return false;
    }
    let half: i128 = total / 2;
    let window: i128 = if half < 3600 {
        half
    } else {
        3600
    };
    let at: i128 = deadline_at as i128 - window;
    at - assigned_at as i128 >= 300 && now as i128 >= at
}

/// Lists the reminders that are due.
pub fn list_reminders(db: &Ledger, now: i64) -> (r: Vec<DeadlineReminder>)
    ensures
        r.deep_view() == reminders_due(db@, now),
{
    let ghost p = reminder_due(db@.links, db@.notifications, now);
    let test = |a: &Assignment| -> (b: bool)
        ensures
            b == p(a@),
        {
            same(a.kind.as_str(), "task") && same(a.status.as_str(), "assigned") && links::get(
                db,
                a.link_id.as_str(),
            ).is_some() && match a.deadline_at {
                None => false,
                Some(d) => reminder_time_due(d, a.assigned_at, now)
                    && !notifications::exists_for_related_entity(
                    db,
                    "task.deadline_approaching",
                    a.id.as_str(),
                ),
            }
        };
    let found = select(&db.assignments, Ghost(p), test);
    proof {
        crate::table::lemma_filter_meets(db@.assignments, p);
    }
    let mut out: Vec<DeadlineReminder> = Vec::new();
    let mut i: usize = 0;
    while i < found.len()
        invariant
            i <= found@.len(),
            out@.len() == i,
            p == reminder_due(db@.links, db@.notifications, now),
            forall|j: int| 0 <= j < found@.len() ==> p(#[trigger] rows(found@)[j]),
            forall|j: int|
                0 <= j < i ==> #[trigger] out@[j]@ == reminder(db@.links)(found@[j]@),
        decreases found@.len() - i,
    {
        assert(p(rows(found@)[i as int]));
        match links::get(db, found[i].link_id.as_str()) {
            Some(l) => {
                out.push(
                    DeadlineReminder {
                        assignment_id: found[i].id.clone(),
                        submissive_id: l.submissive_id.clone(),
                        title: found[i].title.clone(),
                    },
                );
            },
            None => {},
        }
        i = i + 1;
    }
    assert(out.deep_view() =~= rows(found@).map_values(reminder(db@.links)));
    out
}

/// The identifiers of `n` resolutions.
pub open spec fn chains_of_ids(s: Seq<ChainIdsView>, n: nat) -> bool {
    s.len() == n && forall|i: int| 0 <= i < n ==> (#[trigger] s[i]).are_ids()
}

/// Fresh ids for `n` resolutions.
fn new_chains(n: usize) -> (r: Vec<ChainIds>)
    ensures
        r@.len() == n,
        chains_of_ids(r.deep_view(), n as nat),
{
    let mut out: Vec<ChainIds> = Vec::new();
    while out.len() < n
        invariant
            out@.len() <= n,
            forall|i: int| 0 <= i < out@.len() ==> (#[trigger] out@[i])@.are_ids(),
        decreases n - out@.len(),
    {
        out.push(new_chain_ids());
    }
    assert forall|i: int| 0 <= i < n implies (#[trigger] out.deep_view()[i]).are_ids() by {
        assert(out.deep_view()[i] == out@[i]@);
    }
    out
}

/// Fails every task whose deadline has passed, and says which reminders are due after that. Each
/// task is settled for itself; a failure of the ledger stops the sweep where it stands.
pub fn run_deadline_sweep_tick(db: &mut Ledger, now: i64) -> (r: Result<SweepOutcome, DbError>)
    ensures
        exists|ids: Seq<ChainIdsView>|
            chains_of_ids(ids, overdue_ids(old(db)@, now).len())
                && match #[trigger] whole_sweep(old(db)@, ids, now) {
                Sweep { db: after, told, stopped } => {
                    &&& final(db)@ == after
                    &&& match stopped {
                        Some(e) => r == Err::<SweepOutcome, DbError>(e),
                        None => r is Ok && r->Ok_0@.auto_failed == told && r->Ok_0@.reminders
                            == reminders_due(after, now),
                    }
                },
            },
{
    let tasks = list_overdue(db, now);
    let mut ids = new_chains(tasks.len());
    let ghost all = ids.deep_view();
    let ghost start = db@;
    let mut told: Vec<AutoFailedTask> = Vec::new();
    let mut i: usize = 0;
    while i < tasks.len()
        invariant
            i <= tasks@.len(),
            ids@.len() == tasks@.len() - i,
            all.len() == tasks@.len(),
            chains_of_ids(all, tasks@.len()),
            forall|j: int| 0 <= j < ids@.len() ==> (#[trigger] ids@[j])@ == all[i + j],
            swept(start, tasks.deep_view(), all, i as nat, now) == (Sweep {
                db: db@,
                told: told.deep_view(),
                stopped: None,
            }),
            start == old(db)@,
            tasks.deep_view() == overdue_ids(start, now),
        decreases tasks@.len() - i,
    {
        let ghost ids_before = ids@;
        let ghost told_before = told.deep_view();
        let next = ids.remove(0);
        assert(next@ == all[i as int]);
        assert forall|j: int| 0 <= j < ids@.len() implies (#[trigger] ids@[j])@ == all[i + 1 + j] by {
            assert(ids@[j] == ids_before[j + 1]);
        }
        match auto_fail(db, tasks[i].as_str(), next, now) {
            Ok(Some(t)) => {
                told.push(t);
                assert(told.deep_view() =~= told_before.push(t@));
            },
            Ok(None) => {},
            Err(e) => {
                proof {
                    lemma_swept_stopped(
                        start,
                        tasks.deep_view(),
                        all,
                        (i + 1) as nat,
                        tasks@.len(),
                        now,
                    );
                    assert(whole_sweep(start, all, now).stopped == Some(e));
                }
                return Err(e);
            },
        }
        i = i + 1;
    }
    assert(whole_sweep(start, all, now).stopped is None);
    let reminders = list_reminders(db, now);
    Ok(SweepOutcome { auto_failed: told, reminders })
}

/// An assignment and what it was escalated from, and so on back, at most `n` of them.
pub open spec fn lineage(s: Seq<AssignmentView>, id: Seq<char>, n: nat) -> Seq<AssignmentView>
    decreases n,
{
    if n == 0 {
        Seq::empty()
    } else {
        match find_row(s, by_id(id)) {
            None => Seq::empty(),
            Some(a) => match a.escalated_from_assignment_id {
                None => seq![a],
                Some(parent) => seq![a] + lineage(s, parent, (n - 1) as nat),
            },
        }
    }
}

/// Escalated from this assignment.
pub open spec fn child_of(id: Seq<char>) -> spec_fn(AssignmentView) -> bool {
    |a: AssignmentView| a.escalated_from_assignment_id == Some(id)
}

/// The ids of some assignments.
pub open spec fn ids_of(s: Seq<AssignmentView>) -> Seq<Seq<char>> {
    s.map_values(|a: AssignmentView| a.id)
}

/// What was escalated from the assignments of a frontier, and so on: the last of the frontier is
/// taken first, and its children join the end of it. At most `n` are taken.
pub open spec fn descent(s: Seq<AssignmentView>, frontier: Seq<Seq<char>>, n: nat) -> Seq<
    AssignmentView,
>
    decreases n,
{
    if n == 0 || frontier.len() == 0 {
        Seq::empty()
    } else {
        let children = s.filter(child_of(frontier.last()));
        children + descent(s, frontier.drop_last() + ids_of(children), (n - 1) as nat)
    }
}

/// The whole chain of an assignment: where it started, every step to it, and everything that came
/// of it.
pub open spec fn chain_of(s: Seq<AssignmentView>, id: Seq<char>) -> Seq<AssignmentView> {
    lineage(s, id, s.len()).reverse() + descent(s, seq![id], s.len() + 1)
}

/// The children of an assignment.
fn children(db: &Ledger, id: &str) -> (r: Vec<Assignment>)
    ensures
        rows(r@) == db@.assignments.filter(child_of(id@)),
{
    let ghost p = child_of(id@);
    let test = |a: &Assignment| -> (b: bool)
        ensures
            b == p(a@),
        { opt_is(&a.escalated_from_assignment_id, id) };
    select(&db.assignments, Ghost(p), test)
}

/// The ancestors of an assignment and itself, the first one first.
fn ancestors(db: &Ledger, id: &str) -> (r: Vec<Assignment>)
    ensures
        rows(r@) == lineage(db@.assignments, id@, db@.assignments.len()).reverse(),
{
    let mut out: Vec<Assignment> = Vec::new();
    let mut current = own(id);
    let mut left: usize = db.assignments.len();
    let ghost whole = lineage(db@.assignments, id@, db@.assignments.len());
    assert(rows(out@) + lineage(db@.assignments, current@, left as nat) =~= whole);
    while left > 0
        invariant_except_break
            rows(out@) + lineage(db@.assignments, current@, left as nat) == whole,
        ensures
            rows(out@) == whole,
        decreases left,
    {
        match get(db, current.as_str()) {
            None => {
                assert(rows(out@) =~= whole);
                break;
            },
            Some(a) => {
                let ghost before = rows(out@);
                let ghost rest = lineage(db@.assignments, current@, left as nat);
                let parent = dup_opt(&a.escalated_from_assignment_id);
                let ghost row = a@;
                out.push(a);
                assert(rows(out@) =~= before.push(row));
                left = left - 1;
                match parent {
                    Some(p) => {
                        current = p;
                        assert(rest =~= seq![row] + lineage(
                            db@.assignments,
                            current@,
                            left as nat,
                        ));
                        assert(rows(out@) + lineage(db@.assignments, current@, left as nat)
                            =~= before + rest);
                    },
                    None => {
                        assert(rest =~= seq![row]);
                        assert(rows(out@) =~= whole);
                        break;
                    },
                }
            },
        }
        assert(left == 0 ==> rows(out@) =~= whole);
    }
    assert(rows(out@) =~= whole);
    let mut back: Vec<Assignment> = Vec::new();
    let mut i: usize = out.len();
    while i > 0
        invariant
            i <= out@.len(),
            back@.len() == out@.len() - i,
            forall|j: int| 0 <= j < back@.len() ==> #[trigger] back@[j]@ == out@[out@.len() - 1 - j]@,
        decreases i,
    {
        i = i - 1;
        back.push(out[i].dup());
    }
    assert(rows(back@) =~= rows(out@).reverse());
    back
}

/// Everything that came of an assignment.
fn descendants(db: &Ledger, id: &str) -> (r: Vec<Assignment>)
    requires
        db@.assignments.len() < usize::MAX,
    ensures
        rows(r@) == descent(db@.assignments, seq![id@], db@.assignments.len() + 1),
{
    let mut out: Vec<Assignment> = Vec::new();
    let mut frontier: Vec<String> = Vec::new();
    frontier.push(own(id));
    let mut left: usize = db.assignments.len() + 1;
    let ghost whole = descent(db@.assignments, seq![id@], db@.assignments.len() + 1);
    assert(frontier.deep_view() =~= seq![id@]);
    assert(rows(out@) + descent(db@.assignments, frontier.deep_view(), left as nat) =~= whole);
    while left > 0 && frontier.len() > 0
        invariant
            rows(out@) + descent(db@.assignments, frontier.deep_view(), left as nat) == whole,
        decreases left,
    {
        let ghost frontier_before = frontier.deep_view();
        let ghost out_before = rows(out@);
        let id = match frontier.pop() {
            Some(id) => id,
            None => {
                return out;
            },
        };
        assert(frontier.deep_view() =~= frontier_before.drop_last());
        assert(id@ == frontier_before.last());
        let mut kids = children(db, id.as_str());
        let ghost all = rows(kids@);
        let ghost kids_before = kids@;
        let mut i: usize = 0;
        while i < kids.len()
            invariant
                i <= kids@.len(),
                kids@ == kids_before,
                frontier.deep_view() == frontier_before.drop_last() + ids_of(all).take(i as int),
                all == rows(kids@),
            decreases kids@.len() - i,
        {
            let ghost f = frontier.deep_view();
            frontier.push(kids[i].id.clone());
            assert(frontier.deep_view() =~= f.push(all[i as int].id));
            assert(ids_of(all).take(i + 1) =~= ids_of(all).take(i as int).push(all[i as int].id));
            assert(frontier.deep_view() =~= frontier_before.drop_last() + ids_of(all).take(i + 1));
            i = i + 1;
        }
        assert(ids_of(all).take(all.len() as int) =~= ids_of(all));
        let ghost out_mid = out@;
        out.append(&mut kids);
        assert(rows(out@) =~= out_before + all);
        left = left - 1;
        assert(rows(out@) + descent(db@.assignments, frontier.deep_view(), left as nat)
            =~= out_before + descent(db@.assignments, frontier_before, (left + 1) as nat));
    }
    assert(rows(out@) =~= whole);
    out
}

/// The whole chain of an assignment.
pub fn chain(db: &Ledger, assignment_id: &str) -> (r: Vec<Assignment>)
    requires
        db@.assignments.len() < usize::MAX,
    ensures
        rows(r@) == chain_of(db@.assignments, assignment_id@),
{
    let mut up = ancestors(db, assignment_id);
    let mut down = descendants(db, assignment_id);
    let ghost a = rows(up@);
    let ghost b = rows(down@);
    up.append(&mut down);
    assert(rows(up@) =~= a + b);
    up
}

/// Every escalation came after what it was escalated from.
pub open spec fn escalates_forward(s: Seq<AssignmentView>) -> bool {
    forall|i: int, j: int|
        0 <= i < s.len() && 0 <= j < s.len() && (#[trigger] s[i]).escalated_from_assignment_id
            == Some((#[trigger] s[j]).id) ==> j < i
}

/// No two assignments share an id.
pub open spec fn ids_distinct(s: Seq<AssignmentView>) -> bool {
    distinct(s, |a: AssignmentView| a.id)
}

/// Two rows with one id are one row.
proof fn lemma_one_row(s: Seq<AssignmentView>, i: int, j: int)
    requires
        ids_distinct(s),
        0 <= i < s.len(),
        0 <= j < s.len(),
        s[i].id == s[j].id,
    ensures
        i == j,
{
    let key = |a: AssignmentView| a.id;
    if i < j {
        assert(key(s[i]) != key(s[j]));
    } else if j < i {
        assert(key(s[j]) != key(s[i]));
    }
}

/// Where the row with an id stands is how far back its lineage can go: more fuel adds nothing.
proof fn lemma_lineage_ends(s: Seq<AssignmentView>, id: Seq<char>, k: int, n: nat)
    requires
        ids_distinct(s),
        escalates_forward(s),
        0 <= k < s.len(),
        s[k].id == id,
        n > k,
    ensures
        ({
            let line = lineage(s, id, n);
            &&& line.len() > 0
            &&& line[0] == s[k]
            &&& forall|i: int| 0 <= i < line.len() ==> s.contains(#[trigger] line[i])
            &&& forall|i: int|
                0 <= i < line.len() - 1 ==> (#[trigger] line[i]).escalated_from_assignment_id
                    == Some(line[i + 1].id)
            &&& line.last().escalated_from_assignment_id matches Some(p) ==> !any_row(s, by_id(p))
        }),
    decreases n,
{
    assert forall|j: int| 0 <= j < k implies !by_id(id)(#[trigger] s[j]) by {
        if s[j].id == id {
            lemma_one_row(s, j, k);
        }
    }
    assert(by_id(id)(s[k]));
    lemma_find_at(s, by_id(id), k);
    let line = lineage(s, id, n);
    match s[k].escalated_from_assignment_id {
        None => {
            assert(line =~= seq![s[k]]);
        },
        Some(parent) => {
            lemma_find_any(s, by_id(parent));
            let rest = lineage(s, parent, (n - 1) as nat);
            assert(line =~= seq![s[k]] + rest);
            if any_row(s, by_id(parent)) {
                let j = choose|j: int| 0 <= j < s.len() && by_id(parent)(#[trigger] s[j]);
                assert(s[j].id == parent);
                lemma_lineage_ends(s, parent, j, (n - 1) as nat);
                assert forall|i: int| 0 <= i < line.len() implies s.contains(#[trigger] line[i]) by {
                    if i > 0 {
                        assert(line[i] == rest[i - 1]);
                    }
                }
                assert forall|i: int| 0 <= i < line.len() - 1 implies (
                #[trigger] line[i]).escalated_from_assignment_id == Some(line[i + 1].id) by {
                    if i > 0 {
                        assert(line[i] == rest[i - 1]);
                        assert(line[i + 1] == rest[i]);
                    }
                }
                assert(line.last() == rest.last());
            } else {
                assert(find_row(s, by_id(parent)) is None);
                assert(rest =~= Seq::empty());
                assert(line =~= seq![s[k]]);
            }
        },
    }
}

/// The chain of an assignment goes back to where it started: from the assignment each step leads
/// to what it was escalated from, and the last has nothing before it in the ledger.
pub proof fn law_chain_goes_back_to_the_start(s: Seq<AssignmentView>, k: int)
    requires
        ids_distinct(s),
        escalates_forward(s),
        0 <= k < s.len(),
    ensures
        ({
            let line = lineage(s, s[k].id, s.len());
            &&& line.len() > 0
            &&& line[0] == s[k]
            &&& forall|i: int|
                0 <= i < line.len() - 1 ==> (#[trigger] line[i]).escalated_from_assignment_id
                    == Some(line[i + 1].id)
            &&& line.last().escalated_from_assignment_id matches Some(p) ==> !any_row(s, by_id(p))
        }),
{
    lemma_lineage_ends(s, s[k].id, k, s.len());
}

/// The rows that a walk down has not met.
spec fn unmet(s: Seq<AssignmentView>, met: spec_fn(Seq<char>) -> bool) -> Seq<AssignmentView> {
    s.filter(|a: AssignmentView| !met(a.id))
}

/// What a walk down keeps: the frontier is met and without repeats, its children are not met, and
/// whatever else is met lies below the start and behind the frontier.
spec fn walking(
    s: Seq<AssignmentView>,
    start: Seq<char>,
    frontier: Seq<Seq<char>>,
    met: spec_fn(Seq<char>) -> bool,
) -> bool {
    &&& frontier.no_duplicates()
    &&& forall|i: int|
        0 <= i < frontier.len() ==> met(#[trigger] frontier[i]) && (frontier[i] == start || any_row(
            s,
            by_id(frontier[i]),
        ))
    &&& forall|k: int|
        0 <= k < s.len() && met((#[trigger] s[k]).id) && s[k].id != start ==> {
            &&& s[k].escalated_from_assignment_id is Some
            &&& met(s[k].escalated_from_assignment_id->0)
            &&& !frontier.contains(s[k].escalated_from_assignment_id->0)
        }
    &&& forall|k: int|
        0 <= k < s.len() && (#[trigger] s[k]).escalated_from_assignment_id is Some
            && frontier.contains(s[k].escalated_from_assignment_id->0) ==> !met(s[k].id)
    &&& forall|k: int, i: int|
        0 <= k < s.len() && 0 <= i < s.len() && met((#[trigger] s[k]).id) && (#[trigger] s[i]).id
            == start ==> i <= k
}

/// Rows that meet `p` are those that meet `q` as well and those that do not.
proof fn lemma_filter_split<V>(s: Seq<V>, p: spec_fn(V) -> bool, q: spec_fn(V) -> bool)
    requires
        forall|x: V| #[trigger] q(x) ==> p(x),
    ensures
        s.filter(p).len() == s.filter(q).len() + s.filter(|x: V| p(x) && !q(x)).len(),
    decreases s.len(),
{
    reveal(Seq::filter);
    if s.len() > 0 {
        lemma_filter_split(s.drop_last(), p, q);
    }
}

/// Filters by predicates that agree on the rows are one.
proof fn lemma_filter_agree<V>(s: Seq<V>, p: spec_fn(V) -> bool, q: spec_fn(V) -> bool)
    requires
        forall|i: int| 0 <= i < s.len() ==> p(#[trigger] s[i]) == q(s[i]),
    ensures
        s.filter(p) == s.filter(q),
    decreases s.len(),
{
    reveal(Seq::filter);
    if s.len() > 0 {
        let t = s.drop_last();
        assert forall|i: int| 0 <= i < t.len() implies p(#[trigger] t[i]) == q(t[i]) by {
            assert(t[i] == s[i]);
        }
        lemma_filter_agree(t, p, q);
        assert(p(s[s.len() - 1]) == q(s[s.len() - 1]));
    }
}

/// A filter of rows without repeated ids has none.
proof fn lemma_filter_distinct(s: Seq<AssignmentView>, p: spec_fn(AssignmentView) -> bool)
    requires
        ids_distinct(s),
    ensures
        ids_distinct(s.filter(p)),
    decreases s.len(),
{
    reveal(Seq::filter);
    if s.len() > 0 {
        let t = s.drop_last();
        let key = |a: AssignmentView| a.id;
        assert forall|i: int, j: int| 0 <= i < j < t.len() implies key(#[trigger] t[i]) != key(
            #[trigger] t[j],
        ) by {
            assert(key(s[i]) != key(s[j]));
        }
        lemma_filter_distinct(t, p);
        if p(s.last()) {
            let f = s.filter(p);
            assert(f =~= t.filter(p).push(s.last()));
            assert forall|i: int, j: int| 0 <= i < j < f.len() implies key(#[trigger] f[i]) != key(
                #[trigger] f[j],
            ) by {
                if j < f.len() - 1 {
                    assert(f[i] == t.filter(p)[i] && f[j] == t.filter(p)[j]);
                } else {
                    assert(t.filter(p).contains(t.filter(p)[i]));
                    lemma_filter_contains(t, p, t.filter(p)[i]);
                    let k = choose|k: int| 0 <= k < t.len() && t[k] == f[i];
                    assert(s[k] == f[i]);
                    assert(key(s[k]) != key(s[s.len() - 1]));
                }
            }
        }
    }
}

/// One step of a walk down keeps what a walk keeps, and meets exactly the children.
proof fn lemma_walk_step(
    s: Seq<AssignmentView>,
    start: Seq<char>,
    frontier: Seq<Seq<char>>,
    met: spec_fn(Seq<char>) -> bool,
)
    requires
        ids_distinct(s),
        escalates_forward(s),
        frontier.len() > 0,
        walking(s, start, frontier, met),
    ensures
        ({
            let children = s.filter(child_of(frontier.last()));
            let next = |id: Seq<char>| met(id) || ids_of(children).contains(id);
            &&& walking(s, start, frontier.drop_last() + ids_of(children), next)
            &&& unmet(s, met).len() == unmet(s, next).len() + children.len()
        }),
{
    let x = frontier.last();
    let p = child_of(x);
    let children = s.filter(p);
    let added = ids_of(children);
    let next = |id: Seq<char>| met(id) || added.contains(id);
    let rest = frontier.drop_last();
    let after = rest + added;
    assert(frontier[frontier.len() - 1] == x);
    assert(frontier.contains(x));
    assert forall|i: int| 0 <= i < rest.len() implies rest[i] != x by {
        assert(rest[i] == frontier[i]);
    }
    lemma_filter_meets(s, p);
    lemma_filter_distinct(s, p);
    // A row is among the children exactly where its id is.
    assert forall|k: int| 0 <= k < s.len() implies added.contains((#[trigger] s[k]).id) == p(s[k]) by {
        if p(s[k]) {
            assert(s.contains(s[k]));
            lemma_filter_contains(s, p, s[k]);
            let c = choose|c: int| 0 <= c < children.len() && children[c] == s[k];
            assert(added[c] == s[k].id);
        }
        if added.contains(s[k].id) {
            let c = choose|c: int| 0 <= c < added.len() && added[c] == s[k].id;
            assert(children.contains(children[c]));
            lemma_filter_contains(s, p, children[c]);
            let j = choose|j: int| 0 <= j < s.len() && s[j] == children[c];
            lemma_one_row(s, j, k);
        }
    }
    // Whatever is added is the id of a row that was not met.
    assert forall|c: int| 0 <= c < added.len() implies !met(#[trigger] added[c])
        && added[c] != x by {
        assert(children.contains(children[c]));
        lemma_filter_contains(s, p, children[c]);
        let j = choose|j: int| 0 <= j < s.len() && s[j] == children[c];
        assert(s[j].escalated_from_assignment_id == Some(x));
        assert(!met(s[j].id));
        assert(met(x));
    }
    assert(after.no_duplicates()) by {
        assert forall|i: int, j: int| 0 <= i < after.len() && 0 <= j < after.len()
            && i != j implies after[i]
            != after[j] by {
            let key = |a: AssignmentView| a.id;
            if i < rest.len() && j < rest.len() {
                assert(frontier[i] != frontier[j]);
            } else if i >= rest.len() && j >= rest.len() {
                let a = i - rest.len();
                let b = j - rest.len();
                if a < b {
                    assert(key(children[a]) != key(children[b]));
                } else {
                    assert(key(children[b]) != key(children[a]));
                }
            } else if i < rest.len() {
                assert(met(frontier[i]));
                assert(!met(added[j - rest.len()]));
            } else {
                assert(met(frontier[j]));
                assert(!met(added[i - rest.len()]));
            }
        }
    }
    assert forall|i: int| 0 <= i < after.len() implies next(#[trigger] after[i]) && (after[i]
        == start || any_row(s, by_id(after[i]))) by {
        if i < rest.len() {
            assert(met(frontier[i]));
        } else {
            let c = i - rest.len();
            assert(added.contains(added[c]));
            assert(children.contains(children[c]));
            lemma_filter_contains(s, p, children[c]);
            let j = choose|j: int| 0 <= j < s.len() && s[j] == children[c];
            assert(by_id(after[i])(s[j]));
        }
    }
    assert forall|k: int|
        0 <= k < s.len() && next((#[trigger] s[k]).id) && s[k].id != start implies {
        &&& s[k].escalated_from_assignment_id is Some
        &&& next(s[k].escalated_from_assignment_id->0)
        &&& !after.contains(s[k].escalated_from_assignment_id->0)
    } by {
        if met(s[k].id) {
            let parent = s[k].escalated_from_assignment_id->0;
            assert(met(parent) && !frontier.contains(parent));
            if after.contains(parent) {
                let i = choose|i: int| 0 <= i < after.len() && after[i] == parent;
                if i < rest.len() {
                    assert(frontier[i] == parent);
                    assert(frontier.contains(parent));
                } else {
                    assert(!met(added[i - rest.len()]));
                }
            }
        } else {
            assert(p(s[k]));
            assert(met(x));
            if after.contains(x) {
                let i = choose|i: int| 0 <= i < after.len() && after[i] == x;
                if i < rest.len() {
                    assert(rest[i] != x);
                } else {
                    assert(added[i - rest.len()] != x);
                }
            }
        }
    }
    assert forall|k: int, i: int|
        0 <= k < s.len() && 0 <= i < s.len() && next((#[trigger] s[k]).id) && (#[trigger] s[i]).id
            == start implies i <= k by {
        if !met(s[k].id) {
            assert(s[k].escalated_from_assignment_id == Some(x));
            if x == start {
                assert(s[k].escalated_from_assignment_id == Some(s[i].id));
            } else {
                lemma_ancestor_row(s, start, frontier, met, x, i, k);
            }
        }
    }
    assert forall|k: int|
        0 <= k < s.len() && (#[trigger] s[k]).escalated_from_assignment_id is Some
            && after.contains(s[k].escalated_from_assignment_id->0) implies !next(s[k].id) by {
        let parent = s[k].escalated_from_assignment_id->0;
        let i = choose|i: int| 0 <= i < after.len() && after[i] == parent;
        if i < rest.len() {
            assert(frontier[i] == parent);
            assert(frontier.contains(parent));
            assert(!met(s[k].id));
            assert(parent != x);
        } else {
            let c = i - rest.len();
            assert(children.contains(children[c]));
            lemma_filter_contains(s, p, children[c]);
            let j = choose|j: int| 0 <= j < s.len() && s[j] == children[c];
            assert(s[j].id == parent);
            assert(s[k].escalated_from_assignment_id == Some(s[j].id));
            assert(added[c] != x);
            if met(s[k].id) {
                if s[k].id == start {
                    // The start would have been escalated from something below it.
                    assert(next(s[j].id));
                    assert(k <= j);
                } else {
                    assert(met(parent));
                    assert(!met(added[c]));
                }
            }
        }
    }
    // The count of rows that are not met.
    let before = |a: AssignmentView| !met(a.id);
    let still = |a: AssignmentView| !next(a.id);
    let met_now = |a: AssignmentView| !met(a.id) && p(a);
    lemma_filter_split(s, before, met_now);
    lemma_filter_agree(s, met_now, p);
    lemma_filter_agree(s, |a: AssignmentView| before(a) && !met_now(a), still);
}

/// A row met on the way down stands after the start.
proof fn lemma_ancestor_row(
    s: Seq<AssignmentView>,
    start: Seq<char>,
    frontier: Seq<Seq<char>>,
    met: spec_fn(Seq<char>) -> bool,
    x: Seq<char>,
    i: int,
    k: int,
)
    requires
        escalates_forward(s),
        walking(s, start, frontier, met),
        met(x),
        x != start,
        0 <= i < s.len(),
        0 <= k < s.len(),
        s[i].id == start,
        s[k].escalated_from_assignment_id == Some(x),
        any_row(s, by_id(x)),
    ensures
        i <= k,
{
    let j = choose|j: int| 0 <= j < s.len() && by_id(x)(#[trigger] s[j]);
    assert(met(s[j].id));
    assert(s[k].escalated_from_assignment_id == Some(s[j].id));
}

/// A walk down with fuel for every row that is not met, and for the frontier, leaves nothing out:
/// what was escalated from the frontier or from anything that the walk found is found.
proof fn lemma_walk_is_complete(
    s: Seq<AssignmentView>,
    start: Seq<char>,
    frontier: Seq<Seq<char>>,
    met: spec_fn(Seq<char>) -> bool,
    n: nat,
)
    requires
        ids_distinct(s),
        escalates_forward(s),
        walking(s, start, frontier, met),
        n >= unmet(s, met).len() + frontier.len(),
    ensures
        ({
            let found = descent(s, frontier, n);
            &&& forall|k: int|
                0 <= k < s.len() && (#[trigger] s[k]).escalated_from_assignment_id is Some && (
                frontier.contains(s[k].escalated_from_assignment_id->0) || ids_of(found).contains(
                    s[k].escalated_from_assignment_id->0,
                )) ==> found.contains(s[k])
            &&& forall|i: int|
                0 <= i < found.len() ==> s.contains(#[trigger] found[i])
                    && found[i].escalated_from_assignment_id is Some && (frontier.contains(
                    found[i].escalated_from_assignment_id->0,
                ) || ids_of(found).contains(found[i].escalated_from_assignment_id->0))
        }),
    decreases n,
{
    let found = descent(s, frontier, n);
    if frontier.len() == 0 {
        assert(found =~= Seq::empty());
    } else {
        let x = frontier.last();
        let p = child_of(x);
        let children = s.filter(p);
        let added = ids_of(children);
        let next = |id: Seq<char>| met(id) || added.contains(id);
        let after = frontier.drop_last() + added;
        let rest = descent(s, after, (n - 1) as nat);
        lemma_walk_step(s, start, frontier, met);
        lemma_walk_is_complete(s, start, after, next, (n - 1) as nat);
        assert(found =~= children + rest);
        lemma_filter_meets(s, p);
        assert forall|k: int|
            0 <= k < s.len() && (#[trigger] s[k]).escalated_from_assignment_id is Some && (
            frontier.contains(s[k].escalated_from_assignment_id->0) || ids_of(found).contains(
                s[k].escalated_from_assignment_id->0,
            )) implies found.contains(s[k]) by {
            let parent = s[k].escalated_from_assignment_id->0;
            if parent == x {
                assert(p(s[k]));
                lemma_filter_contains(s, p, s[k]);
                let c = choose|c: int| 0 <= c < children.len() && children[c] == s[k];
                assert(found[c] == s[k]);
            } else {
                if frontier.contains(parent) {
                    let i = choose|i: int| 0 <= i < frontier.len() && frontier[i] == parent;
                    assert(after[i] == parent);
                } else {
                    let i = choose|i: int| 0 <= i < found.len() && ids_of(found)[i] == parent;
                    if i < children.len() {
                        assert(after[frontier.len() - 1 + i] == parent);
                    } else {
                        assert(ids_of(rest)[i - children.len()] == parent);
                    }
                }
                assert(after.contains(parent) || ids_of(rest).contains(parent));
                let c = choose|c: int| 0 <= c < rest.len() && rest[c] == s[k];
                assert(found[children.len() + c] == s[k]);
            }
        }
        assert forall|i: int| 0 <= i < found.len() implies s.contains(#[trigger] found[i])
            && found[i].escalated_from_assignment_id is Some && (frontier.contains(
            found[i].escalated_from_assignment_id->0,
        ) || ids_of(found).contains(found[i].escalated_from_assignment_id->0)) by {
            if i < children.len() {
                assert(children.contains(children[i]));
                lemma_filter_contains(s, p, children[i]);
                assert(frontier[frontier.len() - 1] == x);
            } else {
                assert(found[i] == rest[i - children.len()]);
                let parent = found[i].escalated_from_assignment_id->0;
                if after.contains(parent) {
                    let j = choose|j: int| 0 <= j < after.len() && after[j] == parent;
                    if j < frontier.len() - 1 {
                        assert(frontier[j] == parent);
                    } else {
                        assert(ids_of(found)[j - (frontier.len() - 1)] == parent);
                    }
                } else {
                    let j = choose|j: int| 0 <= j < rest.len() && ids_of(rest)[j] == parent;
                    assert(ids_of(found)[children.len() + j] == parent);
                }
            }
        }
    }
}

/// The chain of an assignment holds everything that came of it and nothing else: whatever was
/// escalated from the assignment, or from anything that came of it, is there, and whatever is there
/// was.
pub proof fn law_chain_holds_all_that_came_of_it(s: Seq<AssignmentView>, id: Seq<char>)
    requires
        ids_distinct(s),
        escalates_forward(s),
    ensures
        ({
            let found = descent(s, seq![id], s.len() + 1);
            &&& forall|k: int|
                0 <= k < s.len() && (#[trigger] s[k]).escalated_from_assignment_id is Some && (
                s[k].escalated_from_assignment_id->0 == id || ids_of(found).contains(
                    s[k].escalated_from_assignment_id->0,
                )) ==> found.contains(s[k])
            &&& forall|i: int|
                0 <= i < found.len() ==> s.contains(#[trigger] found[i])
                    && found[i].escalated_from_assignment_id is Some && (
                found[i].escalated_from_assignment_id->0 == id || ids_of(found).contains(
                    found[i].escalated_from_assignment_id->0,
                ))
        }),
{
    let frontier = seq![id];
    let met = |i: Seq<char>| i == id;
    let found = descent(s, frontier, s.len() + 1);
    assert(frontier.contains(id)) by {
        assert(frontier[0] == id);
    }
    assert(walking(s, id, frontier, met)) by {
        assert forall|k: int|
            0 <= k < s.len() && (#[trigger] s[k]).escalated_from_assignment_id is Some
                && frontier.contains(s[k].escalated_from_assignment_id->0) implies !met(s[k].id) by {
            if s[k].id == id {
                assert(s[k].escalated_from_assignment_id == Some(s[k].id));
            }
        }
        assert forall|k: int, i: int|
            0 <= k < s.len() && 0 <= i < s.len() && met((#[trigger] s[k]).id) && (
            #[trigger] s[i]).id == id implies i <= k by {
            lemma_one_row(s, i, k);
        }
    }
    lemma_filter_len(s, |a: AssignmentView| !met(a.id));
    lemma_walk_is_complete(s, id, frontier, met, s.len() + 1);
    assert forall|k: int|
        0 <= k < s.len() && (#[trigger] s[k]).escalated_from_assignment_id is Some && (
        s[k].escalated_from_assignment_id->0 == id || ids_of(found).contains(
            s[k].escalated_from_assignment_id->0,
        )) implies found.contains(s[k]) by {}
}

/// A filter keeps at most all rows.
proof fn lemma_filter_len<V>(s: Seq<V>, p: spec_fn(V) -> bool)
    ensures
        s.filter(p).len() <= s.len(),
    decreases s.len(),
{
    reveal(Seq::filter);
    if s.len() > 0 {
        lemma_filter_len(s.drop_last(), p);
    }
}

/// Handing an assignment out keeps ids apart and chains forward, where its id is new: nothing has
/// it, and nothing was escalated from it.
pub proof fn law_chains_stay_forward(
    db: LedgerView,
    submissive_id: Seq<char>,
    link_id: Seq<char>,
    new: NewAssignmentView,
    id: Seq<char>,
    adjustment_id: Seq<char>,
    now: i64,
)
    requires
        ids_distinct(db.assignments),
        escalates_forward(db.assignments),
        !any_row(db.assignments, by_id(id)),
        !any_row(db.assignments, child_of(id)),
        new.escalated_from_assignment_id != Some(id),
    ensures
        created(db, submissive_id, link_id, new, id, adjustment_id, now) matches Ok((after, a)) ==> {
            &&& ids_distinct(after.assignments)
            &&& escalates_forward(after.assignments)
        },
{
    if let Ok((after, a)) = created(db, submissive_id, link_id, new, id, adjustment_id, now) {
        let s = after.assignments;
        assert(s =~= db.assignments.push(a));
        assert forall|i: int| 0 <= i < db.assignments.len() implies (#[trigger] db.assignments[i]).id
            != id && db.assignments[i].escalated_from_assignment_id != Some(id) by {
            assert(!by_id(id)(db.assignments[i]));
            assert(!child_of(id)(db.assignments[i]));
        }
        let key = |a: AssignmentView| a.id;
        assert forall|i: int, j: int| 0 <= i < j < s.len() implies key(#[trigger] s[i]) != key(
            #[trigger] s[j],
        ) by {
            if j < db.assignments.len() {
                assert(key(db.assignments[i]) != key(db.assignments[j]));
            } else {
                assert(db.assignments[i].id != id);
            }
        }
        assert forall|i: int, j: int|
            0 <= i < s.len() && 0 <= j < s.len() && (#[trigger] s[i]).escalated_from_assignment_id
                == Some((#[trigger] s[j]).id) implies j < i by {
            if j == db.assignments.len() && i < j {
                assert(db.assignments[i].escalated_from_assignment_id != Some(id));
            }
        }
    }
}

/// After its first `n` tasks a sweep has failed exactly those of them that were open, and changed
/// no other row that there was.
proof fn lemma_swept_rows(
    db: LedgerView,
    tasks: Seq<Seq<char>>,
    ids: Seq<ChainIdsView>,
    n: nat,
    now: i64,
)
    requires
        ids_distinct(db.assignments),
        n <= tasks.len(),
        forall|t: int| 0 <= t < tasks.len() ==> any_row(db.assignments, by_id(#[trigger] tasks[t])),
        forall|i: int|
            0 <= i < db.assignments.len() && tasks.contains((#[trigger] db.assignments[i]).id)
                ==> db.assignments[i].status == "assigned"@,
    ensures
        ({
            let sweep = swept(db, tasks, ids, n, now);
            &&& sweep.db.assignments.len() >= db.assignments.len()
            &&& forall|i: int|
                0 <= i < db.assignments.len() ==> (#[trigger] sweep.db.assignments[i]
                    == db.assignments[i] || (sweep.db.assignments[i] == with_status(
                    "failed"@,
                    now,
                )(db.assignments[i]) && tasks.contains(db.assignments[i].id)))
            &&& sweep.stopped is None ==> forall|i: int|
                0 <= i < db.assignments.len() && tasks.take(n as int).contains(
                    (#[trigger] db.assignments[i]).id,
                ) ==> sweep.db.assignments[i] == with_status("failed"@, now)(db.assignments[i])
        }),
    decreases n,
{
    reveal_strlit("assigned");
    reveal_strlit("failed");
    assert("assigned"@.len() == 8 && "failed"@.len() == 6);
    if n > 0 {
        lemma_swept_rows(db, tasks, ids, (n - 1) as nat, now);
        let before = swept(db, tasks, ids, (n - 1) as nat, now);
        let sweep = swept(db, tasks, ids, n, now);
        if before.stopped is None {
            let id = tasks[n - 1];
            assert(any_row(db.assignments, by_id(id)));
            let k = choose|k: int| 0 <= k < db.assignments.len() && by_id(id)(
                #[trigger] db.assignments[k],
            );
            lemma_settled_row(before.db, db, k, ids[n - 1], now);
            assert forall|i: int| 0 <= i < db.assignments.len() implies (
            #[trigger] sweep.db.assignments[i] == db.assignments[i] || (sweep.db.assignments[i]
                == with_status("failed"@, now)(db.assignments[i]) && tasks.contains(
                db.assignments[i].id,
            ))) by {
                assert(before.db.assignments[i] == db.assignments[i] || (before.db.assignments[i]
                    == with_status("failed"@, now)(db.assignments[i]) && tasks.contains(
                    db.assignments[i].id,
                )));
                assert(tasks.contains(tasks[n - 1]));
            }
            if sweep.stopped is None {
                assert forall|i: int|
                    0 <= i < db.assignments.len() && tasks.take(n as int).contains(
                        (#[trigger] db.assignments[i]).id,
                    ) implies sweep.db.assignments[i] == with_status("failed"@, now)(
                    db.assignments[i],
                ) by {
                    let so_far = tasks.take(n as int);
                    let t = choose|t: int| 0 <= t < so_far.len()
                        && so_far[t] == db.assignments[i].id;
                    if t < n - 1 {
                        assert(tasks.take(n - 1)[t] == db.assignments[i].id);
                        assert(before.db.assignments[i] == with_status("failed"@, now)(
                            db.assignments[i],
                        ));
                    } else {
                        lemma_one_row(db.assignments, i, k);
                        assert(tasks.contains(tasks[n - 1]));
                        assert(db.assignments[i].status == "assigned"@);
                    }
                }
            }
        }
    }
}

/// Settling one task of a sweep that has come some way.
proof fn lemma_settled_row(
    now_db: LedgerView,
    db: LedgerView,
    k: int,
    ids: ChainIdsView,
    now: i64,
)
    requires
        ids_distinct(db.assignments),
        0 <= k < db.assignments.len(),
        now_db.assignments.len() >= db.assignments.len(),
        forall|i: int|
            0 <= i < db.assignments.len() ==> (#[trigger] now_db.assignments[i]).id
                == db.assignments[i].id,
    ensures
        auto_failed(now_db, db.assignments[k].id, ids, now) matches Ok((after, told)) ==> {
            &&& after.assignments.len() >= db.assignments.len()
            &&& forall|i: int|
                0 <= i < db.assignments.len() ==> #[trigger] after.assignments[i] == (if i == k
                    && now_db.assignments[i].status == "assigned"@ {
                    with_status("failed"@, now)(now_db.assignments[i])
                } else {
                    now_db.assignments[i]
                })
        },
{
    let id = db.assignments[k].id;
    let s = now_db.assignments;
    if any_row(s, still_assigned(id)) {
        let moved = updated(s, still_assigned(id), with_status("failed"@, now));
        assert forall|i: int| 0 <= i < db.assignments.len() implies #[trigger] moved[i] == (if i == k
            && s[i].status == "assigned"@ {
            with_status("failed"@, now)(s[i])
        } else {
            s[i]
        }) by {
            if s[i].id == id {
                lemma_one_row(db.assignments, i, k);
            }
        }
        if let Ok((after, told)) = auto_failed(now_db, id, ids, now) {
            assert forall|i: int| 0 <= i < moved.len() implies #[trigger] after.assignments[i]
                == moved[i] by {}
        }
    } else {
        assert(!still_assigned(id)(s[k]));
    }
}

/// A deadline sweep touches no assignment but open tasks whose deadline has passed, and one that is
/// not stopped fails every one of them.
pub proof fn law_sweep_fails_exactly_the_overdue(db: LedgerView, ids: Seq<ChainIdsView>, now: i64)
    requires
        ids_distinct(db.assignments),
    ensures
        ({
            let sweep = whole_sweep(db, ids, now);
            &&& sweep.db.assignments.len() >= db.assignments.len()
            &&& forall|i: int|
                0 <= i < db.assignments.len() && !overdue(now)(#[trigger] db.assignments[i])
                    ==> sweep.db.assignments[i] == db.assignments[i]
            &&& sweep.stopped is None ==> forall|i: int|
                0 <= i < db.assignments.len() && overdue(now)(#[trigger] db.assignments[i])
                    ==> sweep.db.assignments[i] == with_status("failed"@, now)(db.assignments[i])
        }),
{
    let tasks = overdue_ids(db, now);
    let late = db.assignments.filter(overdue(now));
    let sweep = whole_sweep(db, ids, now);
    lemma_filter_meets(db.assignments, overdue(now));
    assert forall|t: int| 0 <= t < tasks.len() implies any_row(
        db.assignments,
        by_id(#[trigger] tasks[t]),
    ) by {
        assert(late.contains(late[t]));
        lemma_filter_contains(db.assignments, overdue(now), late[t]);
        let k = choose|k: int| 0 <= k < db.assignments.len() && db.assignments[k] == late[t];
        assert(by_id(tasks[t])(db.assignments[k]));
    }
    assert forall|i: int| 0 <= i < db.assignments.len() implies tasks.contains(
        (#[trigger] db.assignments[i]).id,
    ) == overdue(now)(db.assignments[i]) by {
        if overdue(now)(db.assignments[i]) {
            assert(db.assignments.contains(db.assignments[i]));
            lemma_filter_contains(db.assignments, overdue(now), db.assignments[i]);
            let t = choose|t: int| 0 <= t < late.len() && late[t] == db.assignments[i];
            assert(tasks[t] == db.assignments[i].id);
        }
        if tasks.contains(db.assignments[i].id) {
            let t = choose|t: int| 0 <= t < tasks.len() && tasks[t] == db.assignments[i].id;
            assert(late.contains(late[t]));
            lemma_filter_contains(db.assignments, overdue(now), late[t]);
            let k = choose|k: int| 0 <= k < db.assignments.len() && db.assignments[k] == late[t];
            lemma_one_row(db.assignments, i, k);
        }
    }
    assert(tasks.take(tasks.len() as int) =~= tasks);
    lemma_swept_rows(db, tasks, ids, tasks.len(), now);
}

/// A revocation pays nothing and escalates to nothing: the status of the assignment is all that
/// changes.
pub proof fn law_revoking_does_nothing_else(
    db: LedgerView,
    assignment_id: Seq<char>,
    keyholder_id: Seq<char>,
    ids: ChainIdsView,
    now: i64,
)
    ensures
        resolved(db, assignment_id, keyholder_id, "revoked"@, ids, now) matches Ok((after, next))
            ==> next is None && after == (LedgerView {
            assignments: updated(
                db.assignments,
                by_id(assignment_id),
                with_status("revoked"@, now),
            ),
            ..db
        }),
{
    reveal_strlit("revoked");
    reveal_strlit("completed");
    assert("revoked"@.len() == 7 && "completed"@.len() == 9);
}

/// Only a task pays points on completion, and only once: a completed assignment cannot be completed
/// or revoked again.
pub proof fn law_resolved_assignments_stay(
    db: LedgerView,
    assignment_id: Seq<char>,
    keyholder_id: Seq<char>,
    new_status: Seq<char>,
    ids: ChainIdsView,
    now: i64,
)
    requires
        keyholders_own(db, assignment_id, keyholder_id) matches Some(a) && (a.status
            == "completed"@ || a.status == "failed"@ || a.status == "revoked"@ || a.status
            == "applied"@),
    ensures
        resolved(db, assignment_id, keyholder_id, new_status, ids, now) == Err::<
            (LedgerView, Option<AssignmentView>),
            ResolveError,
        >(ResolveError::InvalidTransition),
        editable(db, assignment_id, keyholder_id) == Err::<(), EditError>(
            EditError::AlreadyResolved,
        ),
{
    reveal_strlit("completed");
    reveal_strlit("failed");
    reveal_strlit("revoked");
    reveal_strlit("applied");
    reveal_strlit("assigned");
    reveal_strlit("acknowledged");
    reveal_strlit("proof_submitted");
    assert("completed"@[0] == 'c' && "failed"@[0] == 'f' && "revoked"@[0] == 'r' && "applied"@.len()
        == 7 && "assigned"@.len() == 8 && "assigned"@[0] == 'a' && "acknowledged"@.len() == 12
        && "acknowledged"@[0] == 'a' && "proof_submitted"@[0] == 'p');
}

/// A new assignment is open, or applied at once where its effect moves the release time; nothing
/// else is.
pub proof fn law_new_assignments_are_open_or_applied(
    db: LedgerView,
    submissive_id: Seq<char>,
    link_id: Seq<char>,
    new: NewAssignmentView,
    id: Seq<char>,
    adjustment_id: Seq<char>,
    now: i64,
)
    ensures
        created(db, submissive_id, link_id, new, id, adjustment_id, now) matches Ok((after, a)) ==> {
            &&& after.assignments == db.assignments.push(a)
            &&& a.id == id && a.link_id == link_id && a.assigned_at == now
            &&& a.status == (if immediate(a.effect_kind) {
                "applied"@
            } else {
                "assigned"@
            })
            &&& !immediate(a.effect_kind) ==> after.confinements == db.confinements
                && after.adjustments == db.adjustments
        },
{
}

/// A chain that is wired to a template survives its deactivation: the escalation creates the same
/// assignment, while a fresh choice of it is refused.
pub proof fn law_deactivation_does_not_sever_chains(
    db: LedgerView,
    from: AssignmentView,
    template_id: Seq<char>,
    keyholder_id: Seq<char>,
    id: Seq<char>,
    adjustment_id: Seq<char>,
    now: i64,
)
    requires
        escalated(db, from, template_id, id, adjustment_id, now) is Ok,
    ensures
        ({
            let off = LedgerView {
                templates: updated(
                    db.templates,
                    templates::owned(template_id, keyholder_id),
                    templates::inactive(),
                ),
                ..db
            };
            &&& escalated(off, from, template_id, id, adjustment_id, now) is Ok
            &&& escalated(off, from, template_id, id, adjustment_id, now)->Ok_0.1 == escalated(
                db,
                from,
                template_id,
                id,
                adjustment_id,
                now,
            )->Ok_0.1
            &&& find_row(db.templates, templates::by_id(template_id))->0.keyholder_id == keyholder_id
                ==> chosen_template(
                off,
                NewAssignmentView {
                    template_id: Some(template_id),
                    require_active_template: true,
                    ..NewAssignmentView::blank()
                },
            ) == Err::<Option<templates::TemplateView>, CreateError>(CreateError::TemplateInactive)
        }),
{
    let off = LedgerView {
        templates: updated(
            db.templates,
            templates::owned(template_id, keyholder_id),
            templates::inactive(),
        ),
        ..db
    };
    let q = templates::by_id(template_id);
    lemma_find_any(db.templates, q);
    lemma_find_updated(
        db.templates,
        q,
        templates::owned(template_id, keyholder_id),
        templates::inactive(),
    );
    let t = find_row(db.templates, q)->0;
    let u = find_row(off.templates, q)->0;
    assert(inherited(Some(t)) == inherited(Some(u)));
    let l = find_row(db.links, links::by_id(from.link_id))->0;
    let new = escalation_request(from.id, template_id);
    let a = drafted(inherited(Some(t)), id, from.link_id, new, now)->Ok_0;
    assert(handed_out(off, l.submissive_id, a, adjustment_id, now) is Ok) by {
        assert(handed_out(db, l.submissive_id, a, adjustment_id, now) is Ok);
    }
}

/// An effect that a system escalation applied waits for the Keyholder's review; one that the
/// Keyholder handed out is reviewed in the moment.
pub proof fn law_system_effects_wait_for_review(
    db: LedgerView,
    submissive_id: Seq<char>,
    a: AssignmentView,
    adjustment_id: Seq<char>,
    now: i64,
)
    requires
        immediate(a.effect_kind),
        any_row(db.confinements, confinement::open_session(submissive_id)),
    ensures
        handed_out(db, submissive_id, a, adjustment_id, now) matches Ok(after) ==> {
            &&& after.adjustments.len() == db.adjustments.len() + 1
            &&& after.adjustments.last().caused_by_assignment_id == Some(a.id)
            &&& (after.adjustments.last().keyholder_reviewed_at is None) == (a.assigned_via
                == "system"@)
        },
{
    lemma_find_any(db.confinements, confinement::open_session(submissive_id));
}

/// A reminder comes between the assignment and the deadline, at least five minutes after the one,
/// and never once it was sent.
pub proof fn law_reminders_come_in_time(
    links: Seq<links::LinkView>,
    notes: Seq<notifications::NotificationView>,
    a: AssignmentView,
    now: i64,
)
    requires
        reminder_due(links, notes, now)(a),
    ensures
        a.deadline_at matches Some(d) && a.assigned_at + 300 <= reminder_at(d, a.assigned_at) && (
        a.assigned_at <= d ==> reminder_at(d, a.assigned_at) <= d) && now >= reminder_at(
            d,
            a.assigned_at,
        ),
        !any_row(notes, notifications::about("task.deadline_approaching"@, a.id)),
{
}

/// A redo leaves the assignment that was proved as it is, with its points and its chain.
pub proof fn law_redo_decides_nothing(
    db: LedgerView,
    submission_id: Seq<char>,
    link_id: Seq<char>,
    status: Seq<char>,
    notes: Option<Seq<char>>,
    by: Seq<char>,
    via: Seq<char>,
    ids: ChainIdsView,
    now: i64,
)
    requires
        status != "verified"@,
        status != "failed"@,
    ensures
        proof_reviewed(db, submission_id, link_id, status, notes, by, via, ids, now) matches Ok(
            (after, outcome),
        ) ==> {
            &&& after.assignments == db.assignments
            &&& after.links == db.links
            &&& after.transactions == db.transactions
            &&& outcome.resolved_assignment is None
            &&& outcome.escalated is None
        },
{
}

/// A task is reminded of once: after its reminder was sent, no sweep names it again.
pub proof fn law_reminded_once(
    db: LedgerView,
    assignment_id: Seq<char>,
    new: notifications::NewNotificationView,
    id: Seq<char>,
    sent_at: i64,
    now: i64,
)
    requires
        new.notification_type == "task.deadline_approaching"@,
        new.related_entity_id == Some(assignment_id),
    ensures
        ({
            let after = LedgerView {
                notifications: db.notifications.push(notifications::new_row(id, new, sent_at)),
                ..db
            };
            forall|i: int|
                0 <= i < reminders_due(after, now).len() ==> (
                #[trigger] reminders_due(after, now)[i]).assignment_id != assignment_id
        }),
{
    let row = notifications::new_row(id, new, sent_at);
    let after = LedgerView { notifications: db.notifications.push(row), ..db };
    assert(after.notifications[db.notifications.len() as int] == row);
    lemma_filter_meets(
        after.assignments,
        reminder_due(after.links, after.notifications, now),
    );
}

/// What a creation adds: one assignment at the end, with what the request says or, where it leaves
/// something unset, what its template says. Nothing that was there changes.
pub proof fn law_creation_adds_what_was_asked_for(
    db: LedgerView,
    submissive_id: Seq<char>,
    link_id: Seq<char>,
    new: NewAssignmentView,
    id: Seq<char>,
    adjustment_id: Seq<char>,
    now: i64,
    k: int,
)
    requires
        created(db, submissive_id, link_id, new, id, adjustment_id, now) is Ok,
        new.template_id is Some ==> only(
            db.templates,
            k,
            |t: templates::TemplateView| t.id == new.template_id->0,
        ),
    ensures
        ({
            let (after, a) = created(db, submissive_id, link_id, new, id, adjustment_id, now)->Ok_0;
            let t = db.templates[k];
            let from_template = new.template_id is Some;
            &&& after.assignments == db.assignments.push(a)
            &&& after.links == db.links
            &&& after.transactions == db.transactions
            &&& after.audit_log == db.audit_log
            &&& after.templates == db.templates
            &&& after.recurring_rules == db.recurring_rules
            &&& a.id == id
            &&& a.link_id == link_id
            &&& a.template_id == new.template_id
            &&& new.require_active_template && from_template ==> t.active
            &&& new.kind is Some ==> a.kind == new.kind->0
            &&& new.kind is None ==> from_template && a.kind == t.kind
            &&& new.title is Some ==> a.title == new.title->0
            &&& new.title is None ==> from_template && a.title == t.title
            &&& new.description is Some ==> a.description == new.description
            &&& new.description is None && from_template ==> a.description == t.description
            &&& new.effect_kind is Some ==> a.effect_kind == new.effect_kind
            &&& new.effect_kind is None && from_template ==> a.effect_kind == t.effect_kind
            &&& new.effect_kind is None && !from_template ==> a.effect_kind is None
            &&& new.completion_type is Some ==> a.completion_type == new.completion_type
            &&& new.completion_type is None && from_template ==> a.completion_type
                == t.completion_type
            &&& new.proof_media_types is Some ==> a.proof_media_types == new.proof_media_types
            &&& new.proof_media_types is None && from_template ==> a.proof_media_types
                == t.proof_media_types
            &&& new.time_extension_seconds is Some ==> a.time_extension_seconds
                == new.time_extension_seconds
            &&& new.time_extension_seconds is None && from_template ==> a.time_extension_seconds
                == t.time_extension_seconds
            &&& new.time_reduction_seconds is Some ==> a.time_reduction_seconds
                == new.time_reduction_seconds
            &&& new.time_reduction_seconds is None && from_template ==> a.time_reduction_seconds
                == t.time_reduction_seconds
            &&& new.on_success_template_id is Some ==> a.on_success_template_id
                == new.on_success_template_id
            &&& new.on_success_template_id is None && from_template ==> a.on_success_template_id
                == t.on_success_template_id
            &&& new.on_failure_template_id is Some ==> a.on_failure_template_id
                == new.on_failure_template_id
            &&& new.on_failure_template_id is None && from_template ==> a.on_failure_template_id
                == t.on_failure_template_id
            &&& new.points_delta is Some ==> a.points_delta == new.points_delta
            &&& new.points_delta is None && from_template ==> a.points_delta == t.points_delta
            &&& a.escalated_from_assignment_id == new.escalated_from_assignment_id
            &&& a.triggered_by_submission_id == new.triggered_by_submission_id
            &&& a.triggered_by_play_session_id == new.triggered_by_play_session_id
            &&& a.spawned_by_recurring_task_rule_id == new.spawned_by_recurring_task_rule_id
            &&& a.assigned_by_user_id == new.assigned_by_user_id
            &&& a.assigned_via == new.assigned_via
            &&& a.notes == new.notes
            &&& a.assigned_at == now
            &&& a.status_updated_at == now
            &&& a.proof_submission_id is None
            &&& !from_template ==> {
                &&& new.description is None ==> a.description is None
                &&& new.completion_type is None ==> a.completion_type is None
                &&& new.proof_media_types is None ==> a.proof_media_types is None
                &&& new.time_extension_seconds is None ==> a.time_extension_seconds is None
                &&& new.time_reduction_seconds is None ==> a.time_reduction_seconds is None
                &&& new.on_success_template_id is None ==> a.on_success_template_id is None
                &&& new.on_failure_template_id is None ==> a.on_failure_template_id is None
                &&& new.points_delta is None ==> a.points_delta is None
            }
        }),
{
    if new.template_id is Some {
        lemma_find_only(
            db.templates,
            k,
            |t: templates::TemplateView| t.id == new.template_id->0,
            templates::by_id(new.template_id->0),
        );
    }
}

/// A task has a deadline and nothing else does: the one that was given, or else so many seconds
/// from now as the request says, as its template says, or a day.
pub proof fn law_only_tasks_have_a_deadline(
    db: LedgerView,
    submissive_id: Seq<char>,
    link_id: Seq<char>,
    new: NewAssignmentView,
    id: Seq<char>,
    adjustment_id: Seq<char>,
    now: i64,
    k: int,
)
    requires
        created(db, submissive_id, link_id, new, id, adjustment_id, now) is Ok,
        new.template_id is Some ==> only(
            db.templates,
            k,
            |t: templates::TemplateView| t.id == new.template_id->0,
        ),
    ensures
        ({
            let a = (created(db, submissive_id, link_id, new, id, adjustment_id, now)->Ok_0).1;
            let t = db.templates[k];
            &&& a.kind != "task"@ ==> a.deadline_at is None
            &&& a.kind == "task"@ ==> {
                &&& a.deadline_at is Some
                &&& new.deadline_at is Some ==> a.deadline_at == new.deadline_at
                &&& new.deadline_at is None ==> {
                    &&& new.default_deadline_seconds is Some ==> a.deadline_at->0 == now
                        + new.default_deadline_seconds->0
                    &&& new.default_deadline_seconds is None && new.template_id is Some
                        && t.default_deadline_seconds is Some ==> a.deadline_at->0 == now
                        + t.default_deadline_seconds->0
                    &&& new.default_deadline_seconds is None && (new.template_id is None
                        || t.default_deadline_seconds is None) ==> a.deadline_at->0 == now + 86400
                }
            }
        }),
{
    if new.template_id is Some {
        lemma_find_only(
            db.templates,
            k,
            |t: templates::TemplateView| t.id == new.template_id->0,
            templates::by_id(new.template_id->0),
        );
    }
}

/// An extension makes a lock longer and a reduction makes it shorter, by the seconds that the
/// assignment carries: the planned release of the open session moves that far, counted from now
/// where none is planned, and an adjustment at the end of the list says so. Nothing else of the
/// session changes, nor does any other session.
pub proof fn law_extensions_lengthen_and_reductions_shorten(
    db: LedgerView,
    submissive_id: Seq<char>,
    link_id: Seq<char>,
    new: NewAssignmentView,
    id: Seq<char>,
    adjustment_id: Seq<char>,
    now: i64,
    i: int,
)
    requires
        created(db, submissive_id, link_id, new, id, adjustment_id, now) is Ok,
        only(
            db.confinements,
            i,
            |s: confinement::SessionView| s.submissive_id == submissive_id && s.ended_at is None,
        ),
        only(
            db.confinements,
            i,
            |s: confinement::SessionView| s.id == db.confinements[i].id,
        ),
    ensures
        ({
            let (after, a) = created(db, submissive_id, link_id, new, id, adjustment_id, now)->Ok_0;
            let s = db.confinements[i];
            let t = after.confinements[i];
            let from: int = match s.target_release_at {
                Some(at) => at as int,
                None => now as int,
            };
            let log = after.adjustments.last();
            let extends = a.effect_kind == Some("time_extension"@);
            let reduces = a.effect_kind == Some("time_reduction"@);
            &&& after.confinements.len() == db.confinements.len()
            &&& forall|j: int|
                0 <= j < db.confinements.len() && j != i ==> #[trigger] after.confinements[j]
                    == db.confinements[j]
            &&& !extends && !reduces ==> t == s && after.adjustments == db.adjustments && a.status
                == "assigned"@
            &&& extends || reduces ==> {
                &&& a.status == "applied"@
                &&& t.target_release_at is Some
                &&& t == (confinement::SessionView { target_release_at: t.target_release_at, ..s })
                &&& after.adjustments.len() == db.adjustments.len() + 1
                &&& after.adjustments.drop_last() =~= db.adjustments
                &&& log.id == adjustment_id
                &&& log.session_id == s.id
                &&& log.caused_by_assignment_id == Some(id)
                &&& log.adjusted_by_user_id == new.assigned_by_user_id
                &&& log.adjusted_at == now
                &&& log.keyholder_reviewed_at == (if new.assigned_via == "system"@ {
                    None::<i64>
                } else {
                    Some(now)
                })
            }
            &&& extends && a.time_extension_seconds is Some ==> {
                &&& t.target_release_at->0 == from + a.time_extension_seconds->0
                &&& log.delta_seconds == a.time_extension_seconds->0
                &&& log.reason == "punishment_time_extension"@
            }
            &&& reduces && a.time_reduction_seconds is Some ==> {
                &&& t.target_release_at->0 == from - a.time_reduction_seconds->0
                &&& log.delta_seconds == -a.time_reduction_seconds->0
                &&& log.reason == "reward_time_reduction"@
            }
        }),
{
    reveal_strlit("time_extension");
    reveal_strlit("time_reduction");
    assert("time_extension"@[5] != "time_reduction"@[5]);
    lemma_find_only(
        db.confinements,
        i,
        |s: confinement::SessionView| s.submissive_id == submissive_id && s.ended_at is None,
        confinement::open_session(submissive_id),
    );
    let by_id = |s: confinement::SessionView| s.id == db.confinements[i].id;
    assert forall|j: int| 0 <= j < db.confinements.len() && j != i implies db.confinements[j].id
        != db.confinements[i].id by {
        assert(!by_id(db.confinements[j]));
    }
}

/// Where nobody is locked, an effect moves nothing: the assignment is applied all the same.
pub proof fn law_effects_need_a_lock(
    db: LedgerView,
    submissive_id: Seq<char>,
    link_id: Seq<char>,
    new: NewAssignmentView,
    id: Seq<char>,
    adjustment_id: Seq<char>,
    now: i64,
)
    requires
        forall|j: int|
            0 <= j < db.confinements.len() ==> !((#[trigger] db.confinements[j]).submissive_id
                == submissive_id && db.confinements[j].ended_at is None),
    ensures
        created(db, submissive_id, link_id, new, id, adjustment_id, now) matches Ok((after, a))
            ==> {
            &&& after.confinements == db.confinements
            &&& after.adjustments == db.adjustments
            &&& (a.status == "applied"@ <==> a.effect_kind == Some("time_extension"@)
                || a.effect_kind == Some("time_reduction"@))
        },
{
    reveal_strlit("applied");
    reveal_strlit("assigned");
    assert("applied"@.len() != "assigned"@.len());
    lemma_find_any(db.confinements, confinement::open_session(submissive_id));
}

/// A verdict on a proof decides the task that was proved, and what follows: verified completes it
/// and leads to its success template, failed fails it and leads to its failure template. Where that
/// template is set one assignment is made from it, on the same link and by the system, and it names
/// the task it came from; where it is not set none is made. No other assignment changes.
pub proof fn law_verdict_decides_what_follows(
    db: LedgerView,
    submission_id: Seq<char>,
    link_id: Seq<char>,
    status: Seq<char>,
    notes: Option<Seq<char>>,
    by: Seq<char>,
    via: Seq<char>,
    ids: ChainIdsView,
    now: i64,
    i: int,
    k: int,
)
    requires
        proof_reviewed(db, submission_id, link_id, status, notes, by, via, ids, now) is Ok,
        status == "verified"@ || status == "failed"@,
        only(db.submissions, i, |s: proofs::SubmissionView| s.id == submission_id),
        db.submissions[i].purpose == "punishment_completion"@,
        db.submissions[i].assignment_id is Some,
        only(db.assignments, k, |a: AssignmentView| a.id == db.submissions[i].assignment_id->0),
    ensures
        ({
            let (after, outcome) = proof_reviewed(
                db,
                submission_id,
                link_id,
                status,
                notes,
                by,
                via,
                ids,
                now,
            )->Ok_0;
            let a = db.assignments[k];
            let verified = status == "verified"@;
            &&& after.assignments.len() >= db.assignments.len()
            &&& after.assignments[k] == (AssignmentView {
                status: after.assignments[k].status,
                status_updated_at: now,
                ..a
            })
            &&& verified ==> after.assignments[k].status == "completed"@
            &&& !verified ==> after.assignments[k].status == "failed"@
            &&& outcome.resolved_assignment == Some(after.assignments[k])
            &&& forall|j: int|
                0 <= j < db.assignments.len() && j != k ==> #[trigger] after.assignments[j]
                    == db.assignments[j]
            &&& verified && a.on_success_template_id is None ==> outcome.escalated is None
                && after.assignments.len() == db.assignments.len()
            &&& !verified && a.on_failure_template_id is None ==> outcome.escalated is None
                && after.assignments.len() == db.assignments.len()
            &&& verified && a.on_success_template_id is Some ==> {
                &&& after.assignments.len() == db.assignments.len() + 1
                &&& outcome.escalated == Some(after.assignments.last())
                &&& after.assignments.last().template_id == a.on_success_template_id
            }
            &&& !verified && a.on_failure_template_id is Some ==> {
                &&& after.assignments.len() == db.assignments.len() + 1
                &&& outcome.escalated == Some(after.assignments.last())
                &&& after.assignments.last().template_id == a.on_failure_template_id
            }
            &&& outcome.escalated matches Some(next) ==> next.escalated_from_assignment_id == Some(
                a.id,
            ) && next.link_id == a.link_id && next.assigned_via == "system"@
                && next.assigned_by_user_id is None && next.assigned_at == now
        }),
{
    reveal_strlit("verified");
    reveal_strlit("failed");
    assert("verified"@.len() != "failed"@.len());
    lemma_review_of_a_proof(db, submission_id, link_id, status, notes, by, via, ids, now, i, k);
}

/// What a review finds to decide, and that it changes nothing but the submission before it does.
proof fn lemma_review_of_a_proof(
    db: LedgerView,
    submission_id: Seq<char>,
    link_id: Seq<char>,
    status: Seq<char>,
    notes: Option<Seq<char>>,
    by: Seq<char>,
    via: Seq<char>,
    ids: ChainIdsView,
    now: i64,
    i: int,
    k: int,
)
    requires
        proof_reviewed(db, submission_id, link_id, status, notes, by, via, ids, now) is Ok,
        only(db.submissions, i, |s: proofs::SubmissionView| s.id == submission_id),
        db.submissions[i].purpose == "punishment_completion"@,
        db.submissions[i].assignment_id is Some,
        only(db.assignments, k, |a: AssignmentView| a.id == db.submissions[i].assignment_id->0),
    ensures
        ({
            let reviewed = proofs::reviewed(
                db,
                submission_id,
                link_id,
                status,
                notes,
                by,
                via,
                now,
            )->Ok_0;
            &&& reviewed == (LedgerView { submissions: reviewed.submissions, ..db })
            &&& proved_assignment(reviewed, submission_id) == Some(db.assignments[k])
            &&& forall|j: int|
                0 <= j < db.assignments.len() && j != k ==> (#[trigger] db.assignments[j]).id
                    != db.assignments[k].id
        }),
{
    let reviewed = proofs::reviewed(db, submission_id, link_id, status, notes, by, via, now)->Ok_0;
    let named = |s: proofs::SubmissionView| s.id == submission_id;
    assert forall|j: int| 0 <= j < reviewed.submissions.len() && j != i implies !named(
        #[trigger] reviewed.submissions[j],
    ) by {
        assert(!named(db.submissions[j]));
    }
    lemma_find_only(reviewed.submissions, i, named, proofs::by_id(submission_id));
    let p = |a: AssignmentView| a.id == db.submissions[i].assignment_id->0;
    lemma_find_only(db.assignments, k, p, by_id(db.submissions[i].assignment_id->0));
    assert forall|j: int| 0 <= j < db.assignments.len() && j != k implies (
    #[trigger] db.assignments[j]).id != db.assignments[k].id by {
        assert(!p(db.assignments[j]));
    }
}

/// What a verdict pays: a link with points on is paid the task's points, one line that says why and
/// for what, and its balance moves by them; where points are off, or the task has none, nothing
/// moves. A failure leaves a line in the log that names the task and whoever reviewed it, a success
/// none.
pub proof fn law_verdict_pays_the_tasks_points(
    db: LedgerView,
    submission_id: Seq<char>,
    link_id: Seq<char>,
    status: Seq<char>,
    notes: Option<Seq<char>>,
    by: Seq<char>,
    via: Seq<char>,
    ids: ChainIdsView,
    now: i64,
    i: int,
    k: int,
    n: int,
)
    requires
        proof_reviewed(db, submission_id, link_id, status, notes, by, via, ids, now) is Ok,
        status == "verified"@ || status == "failed"@,
        only(db.submissions, i, |s: proofs::SubmissionView| s.id == submission_id),
        db.submissions[i].purpose == "punishment_completion"@,
        db.submissions[i].assignment_id is Some,
        only(db.assignments, k, |a: AssignmentView| a.id == db.submissions[i].assignment_id->0),
        only(db.links, n, |l: links::LinkView| l.id == link_id),
    ensures
        ({
            let after = (proof_reviewed(
                db,
                submission_id,
                link_id,
                status,
                notes,
                by,
                via,
                ids,
                now,
            )->Ok_0).0;
            let a = db.assignments[k];
            let paid = db.links[n].points_enabled && a.points_delta is Some;
            let line = after.transactions.last();
            let entry = after.audit_log.last();
            &&& !paid ==> after.transactions == db.transactions && after.links == db.links
            &&& paid ==> {
                &&& after.transactions.len() == db.transactions.len() + 1
                &&& line.link_id == link_id
                &&& line.delta == a.points_delta->0
                &&& status == "verified"@ ==> line.reason == "task_completed"@
                &&& status == "failed"@ ==> line.reason == "task_failed"@
                &&& line.related_entity_type == Some("assignments"@)
                &&& line.related_entity_id == Some(a.id)
                &&& line.created_at == now
                &&& after.links[n].points_balance == db.links[n].points_balance + a.points_delta->0
                &&& after.links.len() == db.links.len()
                &&& forall|j: int|
                    0 <= j < db.links.len() && j != n ==> #[trigger] after.links[j] == db.links[j]
            }
            &&& status == "verified"@ ==> after.audit_log == db.audit_log
            &&& status == "failed"@ ==> {
                &&& after.audit_log.len() == db.audit_log.len() + 1
                &&& entry.action == "assignment.failed"@
                &&& entry.entity_type == "assignments"@
                &&& entry.entity_id == a.id
                &&& entry.link_id == Some(link_id)
                &&& entry.actor_user_id == Some(by)
                &&& entry.occurred_at == now
            }
        }),
{
    reveal_strlit("verified");
    reveal_strlit("failed");
    assert("verified"@.len() != "failed"@.len());
    lemma_review_of_a_proof(db, submission_id, link_id, status, notes, by, via, ids, now, i, k);
    let named = |l: links::LinkView| l.id == link_id;
    lemma_find_only(db.links, n, named, links::by_id(link_id));
    assert forall|j: int| 0 <= j < db.links.len() && j != n implies (#[trigger] db.links[j]).id
        != link_id by {
        assert(!named(db.links[j]));
    }
}

/// The task is on a link of this Keyholder, by the links alone.
pub open spec fn overseen_by(db: LedgerView, a: AssignmentView, keyholder_id: Seq<char>) -> bool {
    any_row(db.links, |l: links::LinkView| l.keyholder_id == keyholder_id && l.id == a.link_id)
}

/// The task is on a link of this submissive, by the links alone.
pub open spec fn borne_by(db: LedgerView, a: AssignmentView, submissive_id: Seq<char>) -> bool {
    any_row(db.links, |l: links::LinkView| l.submissive_id == submissive_id && l.id == a.link_id)
}

proof fn lemma_owner(db: LedgerView, a: AssignmentView, user_id: Seq<char>)
    ensures
        links::ids_where(db.links, links::of_keyholder(user_id)).contains(a.link_id)
            == overseen_by(db, a, user_id),
        links::ids_where(db.links, links::of_submissive(user_id)).contains(a.link_id) == borne_by(
            db,
            a,
            user_id,
        ),
{
    links::lemma_ids_where(db.links, links::of_keyholder(user_id), a.link_id);
    links::lemma_ids_where(db.links, links::of_submissive(user_id), a.link_id);
    let k = links::of_keyholder(user_id);
    let s = links::of_submissive(user_id);
    lemma_any_same(
        db.links,
        |l: links::LinkView| l.keyholder_id == user_id && l.id == a.link_id,
        |l: links::LinkView| k(l) && l.id == a.link_id,
    );
    lemma_any_same(
        db.links,
        |l: links::LinkView| l.submissive_id == user_id && l.id == a.link_id,
        |l: links::LinkView| s(l) && l.id == a.link_id,
    );
}

proof fn lemma_own_by_id(
    db: LedgerView,
    id: Seq<char>,
    keyholder_id: Seq<char>,
    k: int,
)
    requires
        only(db.assignments, k, |a: AssignmentView| a.id == id),
    ensures
        keyholders_own(db, id, keyholder_id) == (if overseen_by(db, db.assignments[k], keyholder_id) {
            Some(db.assignments[k])
        } else {
            None
        }),
        find_row(db.assignments, by_id(id)) == Some(db.assignments[k]),
        forall|j: int|
            0 <= j < db.assignments.len() && j != k ==> (#[trigger] db.assignments[j]).id != id,
{
    let named = |a: AssignmentView| a.id == id;
    let ids = links::ids_where(db.links, links::of_keyholder(keyholder_id));
    let q = on_links(id, ids);
    lemma_owner(db, db.assignments[k], keyholder_id);
    assert forall|j: int| 0 <= j < db.assignments.len() && j != k implies (
    #[trigger] db.assignments[j]).id != id by {
        assert(!named(db.assignments[j]));
    }
    lemma_find_only(db.assignments, k, named, by_id(id));
    if overseen_by(db, db.assignments[k], keyholder_id) {
        lemma_find_only(db.assignments, k, q, q);
    } else {
        lemma_find_any(db.assignments, q);
    }
}

/// A Keyholder completes what was acknowledged, and revokes what is open; nobody else's assignment,
/// and nothing in another status. A completion pays a task's points and leads to the success
/// template; a revocation changes the status and nothing else.
pub proof fn law_resolving_goes_by_the_status(
    db: LedgerView,
    assignment_id: Seq<char>,
    keyholder_id: Seq<char>,
    new_status: Seq<char>,
    ids: ChainIdsView,
    now: i64,
    k: int,
)
    requires
        only(db.assignments, k, |a: AssignmentView| a.id == assignment_id),
    ensures
        ({
            let a = db.assignments[k];
            let own = overseen_by(db, a, keyholder_id);
            let completes = new_status == "completed"@ && a.status == "acknowledged"@;
            let revokes = new_status == "revoked"@ && (a.status == "assigned"@ || a.status
                == "acknowledged"@ || a.status == "proof_submitted"@);
            match resolved(db, assignment_id, keyholder_id, new_status, ids, now) {
                Err(ResolveError::NotFound) => !own,
                Err(ResolveError::InvalidTransition) => own && !completes && !revokes,
                Err(ResolveError::Db(_)) => own && completes && ((a.kind == "task"@
                    && a.points_delta is Some) || a.on_success_template_id is Some),
                Ok((after, next)) => {
                    &&& own && (completes || revokes)
                    &&& after.assignments[k] == (AssignmentView {
                        status: new_status,
                        status_updated_at: now,
                        ..a
                    })
                    &&& forall|j: int|
                        0 <= j < db.assignments.len() && j != k ==> #[trigger] after.assignments[j]
                            == db.assignments[j]
                    &&& revokes ==> next is None && after == (LedgerView {
                        assignments: after.assignments,
                        ..db
                    }) && after.assignments.len() == db.assignments.len()
                    &&& completes && a.on_success_template_id is None ==> next is None
                        && after.assignments.len() == db.assignments.len()
                    &&& completes && a.on_success_template_id is Some ==> {
                        &&& after.assignments.len() == db.assignments.len() + 1
                        &&& next == Some(after.assignments.last())
                        &&& after.assignments.last().template_id == a.on_success_template_id
                        &&& after.assignments.last().escalated_from_assignment_id == Some(a.id)
                        &&& after.assignments.last().link_id == a.link_id
                        &&& after.assignments.last().assigned_via == "system"@
                        &&& after.assignments.last().assigned_by_user_id is None
                    }
                    &&& a.kind != "task"@ || a.points_delta is None ==> after.transactions
                        == db.transactions && after.links == db.links
                },
            }
        }),
{
    reveal_strlit("completed");
    reveal_strlit("revoked");
    assert("completed"@.len() != "revoked"@.len());
    lemma_own_by_id(db, assignment_id, keyholder_id, k);
    let moved = updated(db.assignments, by_id(assignment_id), with_status(new_status, now));
    assert(moved[k].id == assignment_id);
    assert forall|j: int| 0 <= j < k implies !by_id(assignment_id)(#[trigger] moved[j]) by {
        assert(db.assignments[j].id != assignment_id);
    }
    lemma_find_at(moved, by_id(assignment_id), k);
}

/// What a completed task pays: its points, on a link that has them on, in one line.
pub proof fn law_completing_pays_the_tasks_points(
    db: LedgerView,
    assignment_id: Seq<char>,
    keyholder_id: Seq<char>,
    new_status: Seq<char>,
    ids: ChainIdsView,
    now: i64,
    k: int,
    n: int,
)
    requires
        resolved(db, assignment_id, keyholder_id, new_status, ids, now) is Ok,
        only(db.assignments, k, |a: AssignmentView| a.id == assignment_id),
        only(db.links, n, |l: links::LinkView| l.id == db.assignments[k].link_id),
    ensures
        ({
            let after = (resolved(db, assignment_id, keyholder_id, new_status, ids, now)->Ok_0).0;
            let a = db.assignments[k];
            let paid = new_status == "completed"@ && a.kind == "task"@ && a.points_delta is Some
                && db.links[n].points_enabled;
            let line = after.transactions.last();
            &&& !paid ==> after.transactions == db.transactions && after.links == db.links
            &&& paid ==> {
                &&& after.transactions.len() == db.transactions.len() + 1
                &&& line.link_id == a.link_id
                &&& line.delta == a.points_delta->0
                &&& line.reason == "task_completed"@
                &&& line.related_entity_type == Some("assignments"@)
                &&& line.related_entity_id == Some(a.id)
                &&& line.created_at == now
                &&& after.links.len() == db.links.len()
                &&& after.links[n].points_balance == db.links[n].points_balance + a.points_delta->0
                &&& forall|j: int|
                    0 <= j < db.links.len() && j != n ==> #[trigger] after.links[j] == db.links[j]
            }
            &&& after.audit_log == db.audit_log
        }),
{
    reveal_strlit("completed");
    reveal_strlit("revoked");
    assert("completed"@.len() != "revoked"@.len());
    lemma_own_by_id(db, assignment_id, keyholder_id, k);
    let named = |l: links::LinkView| l.id == db.assignments[k].link_id;
    lemma_find_only(db.links, n, named, links::by_id(db.assignments[k].link_id));
    assert forall|j: int| 0 <= j < db.links.len() && j != n implies (#[trigger] db.links[j]).id
        != db.assignments[k].link_id by {
        assert(!named(db.links[j]));
    }
}

/// A submissive acknowledges their own open assignments, where acknowledging is all that is asked:
/// tasks of that kind and plain grants. No other assignment is touched.
pub proof fn law_acknowledging_is_for_ones_own(
    db: LedgerView,
    assignment_id: Seq<char>,
    submissive_id: Seq<char>,
    now: i64,
    k: int,
)
    requires
        0 <= k < db.assignments.len(),
    ensures
        ({
            let p = acknowledgeable(
                assignment_id,
                links::ids_where(db.links, links::of_submissive(submissive_id)),
            );
            let a = db.assignments[k];
            let after = updated(db.assignments, p, with_status("acknowledged"@, now));
            let asks = a.id == assignment_id && a.status == "assigned"@ && borne_by(
                db,
                a,
                submissive_id,
            ) && ((a.kind == "task"@ && a.completion_type == Some("acknowledge_only"@)) || ((a.kind
                == "reward"@ || a.kind == "punishment"@) && a.effect_kind == Some("grant"@)));
            &&& asks ==> any_row(db.assignments, p) && after[k] == (AssignmentView {
                status: "acknowledged"@,
                status_updated_at: now,
                ..a
            })
            &&& !asks ==> after[k] == a
            &&& after.len() == db.assignments.len()
        }),
{
    lemma_owner(db, db.assignments[k], submissive_id);
}

/// Nothing is acknowledged where there is nothing to acknowledge.
pub proof fn law_acknowledging_needs_an_open_assignment(
    db: LedgerView,
    assignment_id: Seq<char>,
    submissive_id: Seq<char>,
)
    requires
        forall|k: int|
            0 <= k < db.assignments.len() ==> (#[trigger] db.assignments[k]).id != assignment_id
                || db.assignments[k].status != "assigned"@ || !borne_by(
                db,
                db.assignments[k],
                submissive_id,
            ),
    ensures
        !any_row(
            db.assignments,
            acknowledgeable(
                assignment_id,
                links::ids_where(db.links, links::of_submissive(submissive_id)),
            ),
        ),
{
    let p = acknowledgeable(
        assignment_id,
        links::ids_where(db.links, links::of_submissive(submissive_id)),
    );
    assert forall|k: int| 0 <= k < db.assignments.len() implies !p(
        #[trigger] db.assignments[k],
    ) by {
        lemma_owner(db, db.assignments[k], submissive_id);
    }
}

/// A proof is taken from the submissive for their own open task that asks for one, up to its
/// deadline. The row of the task then waits for a verdict and names the proof, which is theirs,
/// names the row, and is pending.
pub proof fn law_proofs_are_taken_for_open_tasks(
    db: LedgerView,
    assignment_id: Seq<char>,
    submissive_id: Seq<char>,
    kind: Seq<char>,
    metadata: Option<Seq<char>>,
    files: Seq<proofs::NewFileView>,
    id: Seq<char>,
    file_ids: Seq<Seq<char>>,
    now: i64,
    k: int,
)
    requires
        only(db.assignments, k, |a: AssignmentView| a.id == assignment_id),
    ensures
        ({
            let a = db.assignments[k];
            let own = borne_by(db, a, submissive_id) && a.kind == "task"@;
            let awaits = a.completion_type == Some("proof_required"@) && a.status == "assigned"@;
            let late = a.deadline_at is Some && a.deadline_at->0 < now;
            match proof_submitted(
                db,
                assignment_id,
                submissive_id,
                kind,
                metadata,
                files,
                id,
                file_ids,
                now,
            ) {
                Err(SubmitProofErrorView::NotFound) => !own,
                Err(SubmitProofErrorView::NotAwaitingProof) => own && !awaits,
                Err(SubmitProofErrorView::DeadlinePassed) => own && awaits && late,
                Err(SubmitProofErrorView::Store(_)) => own && awaits && !late && exists|i: int|
                    0 <= i < files.len() && (#[trigger] files[i]).stored is Err,
                Err(_) => false,
                Ok(after) => {
                    let s = after.submissions.last();
                    &&& own && awaits && !late
                    &&& forall|i: int| 0 <= i < files.len() ==> (#[trigger] files[i]).stored is Ok
                    &&& after == (LedgerView {
                        submissions: db.submissions.push(s),
                        attachments: after.attachments,
                        assignments: after.assignments,
                        ..db
                    })
                    &&& after.assignments.len() == db.assignments.len()
                    &&& after.assignments[k] == (AssignmentView {
                        status: "proof_submitted"@,
                        status_updated_at: now,
                        proof_submission_id: Some(id),
                        ..a
                    })
                    &&& forall|j: int|
                        0 <= j < db.assignments.len() && j != k ==> #[trigger] after.assignments[j]
                            == db.assignments[j]
                    &&& s.id == id && s.submissive_id == submissive_id && s.link_id == a.link_id
                    &&& s.purpose == "punishment_completion"@ && s.assignment_id == Some(
                        assignment_id,
                    )
                    &&& s.kind == kind && s.metadata == metadata && s.submitted_at == now
                    &&& s.status == "pending"@ && s.reviewed_at is None
                    &&& after.attachments.len() == db.attachments.len() + files.len()
                },
            }
        }),
{
    lemma_own_by_id(db, assignment_id, submissive_id, k);
    lemma_owner(db, db.assignments[k], submissive_id);
    let q = task_on_links(
        assignment_id,
        links::ids_where(db.links, links::of_submissive(submissive_id)),
    );
    if borne_by(db, db.assignments[k], submissive_id) && db.assignments[k].kind == "task"@ {
        lemma_find_only(db.assignments, k, q, q);
    } else {
        lemma_find_any(db.assignments, q);
    }
    proofs::lemma_first_failure(files);
}

/// A deadline is set to what the Keyholder says, and the consequence of failure to what they say, on
/// their own assignment while it is open or its proof waits; nothing else of it changes, nor any
/// other.
pub proof fn law_edits_are_for_ones_own_while_open(
    db: LedgerView,
    assignment_id: Seq<char>,
    keyholder_id: Seq<char>,
    at: i64,
    template_id: Option<Seq<char>>,
    k: int,
)
    requires
        only(db.assignments, k, |a: AssignmentView| a.id == assignment_id),
    ensures
        ({
            let a = db.assignments[k];
            let own = overseen_by(db, a, keyholder_id);
            let open = a.status == "assigned"@ || a.status == "proof_submitted"@;
            match editable(db, assignment_id, keyholder_id) {
                Ok(()) => own && open,
                Err(EditError::NotFound) => !own,
                Err(EditError::AlreadyResolved) => own && !open,
            }
        }),
        ({
            let a = db.assignments[k];
            let dated = updated(db.assignments, by_id(assignment_id), with_deadline(at));
            let wired = updated(
                db.assignments,
                by_id(assignment_id),
                with_failure_template(template_id),
            );
            &&& dated.len() == db.assignments.len() && wired.len() == db.assignments.len()
            &&& dated[k] == (AssignmentView { deadline_at: Some(at), ..a })
            &&& wired[k] == (AssignmentView { on_failure_template_id: template_id, ..a })
            &&& forall|j: int|
                0 <= j < db.assignments.len() && j != k ==> #[trigger] dated[j]
                    == db.assignments[j]
            &&& forall|j: int|
                0 <= j < db.assignments.len() && j != k ==> #[trigger] wired[j]
                    == db.assignments[j]
        }),
{
    lemma_own_by_id(db, assignment_id, keyholder_id, k);
}

/// A task is overdue once its deadline lies in the past, while nothing has come of it yet; at the
/// very second of the deadline it is not.
pub proof fn law_overdue_is_past_the_deadline(a: AssignmentView, now: i64)
    ensures
        overdue(now)(a) <==> a.kind == "task"@ && a.status == "assigned"@ && a.deadline_at is Some
            && a.deadline_at->0 < now,
{
}

/// A task that fails on its deadline is failed now, and the log says that the system did it; its
/// points are booked on a link that has them on, and its failure template is followed, never its
/// success template. Both sides of its link are told.
pub proof fn law_a_missed_deadline_fails_the_task(
    db: LedgerView,
    id: Seq<char>,
    ids: ChainIdsView,
    now: i64,
    k: int,
    n: int,
)
    requires
        auto_failed(db, id, ids, now) is Ok,
        only(db.assignments, k, |a: AssignmentView| a.id == id),
        only(db.links, n, |l: links::LinkView| l.id == db.assignments[k].link_id),
        db.assignments[k].status == "assigned"@,
    ensures
        ({
            let (after, told) = auto_failed(db, id, ids, now)->Ok_0;
            let a = db.assignments[k];
            let l = db.links[n];
            let line = after.transactions.last();
            let entry = after.audit_log.last();
            let paid = l.points_enabled && a.points_delta is Some;
            &&& after.assignments[k] == (AssignmentView {
                status: "failed"@,
                status_updated_at: now,
                ..a
            })
            &&& forall|j: int|
                0 <= j < db.assignments.len() && j != k ==> #[trigger] after.assignments[j]
                    == db.assignments[j]
            &&& after.audit_log.len() == db.audit_log.len() + 1
            &&& entry.action == "assignment.auto_failed"@ && entry.entity_type == "assignments"@
            &&& entry.entity_id == id && entry.actor_user_id is None && entry.occurred_at == now
            &&& !paid ==> after.transactions == db.transactions && after.links == db.links
            &&& paid ==> {
                &&& after.transactions.len() == db.transactions.len() + 1
                &&& line.link_id == a.link_id && line.delta == a.points_delta->0
                &&& line.reason == "task_failed"@ && line.related_entity_id == Some(id)
                &&& after.links.len() == db.links.len()
                &&& after.links[n].points_balance == l.points_balance + a.points_delta->0
            }
            &&& a.on_failure_template_id is None ==> after.assignments.len()
                == db.assignments.len()
            &&& a.on_failure_template_id is Some ==> {
                &&& after.assignments.len() == db.assignments.len() + 1
                &&& after.assignments.last().template_id == a.on_failure_template_id
                &&& after.assignments.last().escalated_from_assignment_id == Some(id)
                &&& after.assignments.last().link_id == a.link_id
                &&& after.assignments.last().assigned_via == "system"@
            }
            &&& told is Some
            &&& told->0.assignment_id == id && told->0.link_id == a.link_id
            &&& told->0.keyholder_id == l.keyholder_id && told->0.submissive_id == l.submissive_id
            &&& a.on_failure_template_id is None ==> told->0.escalated is None
            &&& a.on_failure_template_id is Some ==> told->0.escalated == Some(
                after.assignments.last(),
            )
        }),
{
    let named = |a: AssignmentView| a.id == id;
    let q = still_assigned(id);
    assert forall|j: int| 0 <= j < db.assignments.len() && j != k implies (
    #[trigger] db.assignments[j]).id != id by {
        assert(!named(db.assignments[j]));
    }
    assert(q(db.assignments[k]));
    let moved = updated(db.assignments, q, with_status("failed"@, now));
    assert(moved[k].id == id);
    assert forall|j: int| 0 <= j < k implies !by_id(id)(#[trigger] moved[j]) by {
        assert(db.assignments[j].id != id);
    }
    lemma_find_at(moved, by_id(id), k);
    let linked = |l: links::LinkView| l.id == db.assignments[k].link_id;
    lemma_find_only(db.links, n, linked, links::by_id(db.assignments[k].link_id));
    let a = db.assignments[k];
    if a.points_delta is Some && db.links[n].points_enabled {
        let sum = (db.links[n].points_balance + a.points_delta->0) as i64;
        lemma_find_updated(
            db.links,
            links::by_id(a.link_id),
            links::by_id(a.link_id),
            points::with_balance(sum),
        );
    }
}

/// A reminder of a task comes an hour before its deadline, or halfway there where the whole time is
/// under two hours, and not where that is within five minutes of the assignment; once, and only
/// while the task is open.
pub proof fn law_reminders_come_an_hour_before(
    links: Seq<links::LinkView>,
    notes: Seq<notifications::NotificationView>,
    a: AssignmentView,
    now: i64,
)
    requires
        a.deadline_at is Some,
        a.assigned_at <= a.deadline_at->0,
    ensures
        ({
            let whole = a.deadline_at->0 - a.assigned_at;
            let before: int = if whole < 7200 {
                whole / 2
            } else {
                3600
            };
            reminder_due(links, notes, now)(a) <==> {
                &&& a.kind == "task"@ && a.status == "assigned"@
                &&& any_row(links, |l: links::LinkView| l.id == a.link_id)
                &&& now >= a.deadline_at->0 - before
                &&& whole - before >= 300
                &&& !any_row(
                    notes,
                    |n: notifications::NotificationView|
                        n.notification_type == "task.deadline_approaching"@ && n.related_entity_id
                            == Some(a.id),
                )
            }
        }),
{
    lemma_find_any(links, links::by_id(a.link_id));
    lemma_any_same(
        links,
        |l: links::LinkView| l.id == a.link_id,
        links::by_id(a.link_id),
    );
    lemma_any_same(
        notes,
        |n: notifications::NotificationView|
            n.notification_type == "task.deadline_approaching"@ && n.related_entity_id == Some(
                a.id,
            ),
        notifications::about("task.deadline_approaching"@, a.id),
    );
}

/// Requests that lack something are refused, each with what it lacks: a template that is not there,
/// or not active where it has to be, a kind, a title, and what its kind and effect call for.
pub proof fn law_incomplete_requests_are_refused(
    db: LedgerView,
    submissive_id: Seq<char>,
    link_id: Seq<char>,
    new: NewAssignmentView,
    id: Seq<char>,
    adjustment_id: Seq<char>,
    now: i64,
    k: int,
)
    requires
        new.template_id is Some ==> only(
            db.templates,
            k,
            |t: templates::TemplateView| t.id == new.template_id->0,
        ) || (forall|j: int|
            0 <= j < db.templates.len() ==> (#[trigger] db.templates[j]).id != new.template_id->0),
    ensures
        ({
            let there = new.template_id is Some && 0 <= k < db.templates.len() && db.templates[k].id
                == new.template_id->0;
            let t = db.templates[k];
            let kind = if new.kind is Some {
                new.kind
            } else if there {
                Some(t.kind)
            } else {
                None
            };
            let title = new.title is Some || there;
            let effect = if new.effect_kind is Some {
                new.effect_kind
            } else if there {
                t.effect_kind
            } else {
                None
            };
            let completion = if new.completion_type is Some {
                new.completion_type
            } else if there {
                t.completion_type
            } else {
                None
            };
            let media = new.proof_media_types is Some || (there && t.proof_media_types is Some);
            let extension = new.time_extension_seconds is Some || (there
                && t.time_extension_seconds is Some);
            let reduction = new.time_reduction_seconds is Some || (there
                && t.time_reduction_seconds is Some);
            let consequence = kind == Some("reward"@) || kind == Some("punishment"@);
            let is_task = kind == Some("task"@);
            match created(db, submissive_id, link_id, new, id, adjustment_id, now) {
                Err(CreateError::TemplateNotFound) => new.template_id is Some && !there,
                Err(CreateError::TemplateInactive) => there && new.require_active_template
                    && !t.active,
                Err(CreateError::MissingKind) => kind is None,
                Err(CreateError::MissingTitle) => kind is Some && !title,
                Err(CreateError::MissingEffectKind) => consequence && effect is None,
                Err(CreateError::MissingTimeExtensionSeconds) => consequence && effect == Some(
                    "time_extension"@,
                ) && !extension,
                Err(CreateError::MissingTimeReductionSeconds) => consequence && effect == Some(
                    "time_reduction"@,
                ) && !reduction,
                Err(CreateError::MissingCompletionType) => is_task && completion is None,
                Err(CreateError::MissingProofMediaTypes) => is_task && completion == Some(
                    "proof_required"@,
                ) && !media,
                _ => {
                    &&& new.template_id is Some ==> there && (!new.require_active_template
                        || t.active)
                    &&& kind is Some && title
                    &&& consequence ==> effect is Some && (effect == Some("time_extension"@)
                        ==> extension) && (effect == Some("time_reduction"@) ==> reduction)
                    &&& is_task ==> completion is Some && (completion == Some("proof_required"@)
                        ==> media)
                },
            }
        }),
{
    reveal_strlit("reward");
    reveal_strlit("punishment");
    reveal_strlit("task");
    assert("reward"@.len() == 6 && "punishment"@.len() == 10 && "task"@.len() == 4);
    if new.template_id is Some {
        let named = |t: templates::TemplateView| t.id == new.template_id->0;
        if 0 <= k < db.templates.len() && db.templates[k].id == new.template_id->0 {
            lemma_find_only(db.templates, k, named, templates::by_id(new.template_id->0));
        } else {
            lemma_find_any(db.templates, templates::by_id(new.template_id->0));
        }
    }
}

/// A list of assignments holds those of the links asked for, all of them, the latest first.
pub proof fn law_assignments_are_listed_newest_first(
    listed: Seq<AssignmentView>,
    assignments: Seq<AssignmentView>,
    link_ids: Seq<Seq<char>>,
)
    requires
        ordered_from(listed, assignments.filter(of_links(link_ids)), newest_first()),
    ensures
        forall|a: AssignmentView| #[trigger]
            listed.contains(a) <==> assignments.contains(a) && link_ids.contains(a.link_id),
        forall|i: int, j: int|
            0 <= i < j < listed.len() ==> (#[trigger] listed[i]).assigned_at >= (
            #[trigger] listed[j]).assigned_at,
{
    lemma_listed(listed, assignments, of_links(link_ids), newest_first());
}

/// A chain reads from where it started: each row up to the assignment comes of the one before it, and
/// the first of none that is still there; everything after the assignment came of it.
pub proof fn law_a_chain_reads_from_the_start(s: Seq<AssignmentView>, k: int)
    requires
        ids_distinct(s),
        escalates_forward(s),
        0 <= k < s.len(),
    ensures
        ({
            let chain = chain_of(s, s[k].id);
            exists|p: int|
                {
                    &&& 0 <= p < chain.len() && #[trigger] chain[p] == s[k]
                    &&& forall|i: int|
                        0 < i <= p ==> (#[trigger] chain[i]).escalated_from_assignment_id == Some(
                            chain[i - 1].id,
                        )
                    &&& chain[0].escalated_from_assignment_id matches Some(from) ==> !any_row(
                        s,
                        |a: AssignmentView| a.id == from,
                    )
                }
        }),
{
    law_chain_goes_back_to_the_start(s, k);
    let line = lineage(s, s[k].id, s.len());
    let chain = chain_of(s, s[k].id);
    let p = line.len() - 1;
    assert(chain[p] == line[0]);
    assert forall|i: int| 0 < i <= p implies (#[trigger] chain[i]).escalated_from_assignment_id
        == Some(chain[i - 1].id) by {
        assert(chain[i] == line[p - i]);
        assert(chain[i - 1] == line[p - i + 1]);
    }
    assert(chain[0] == line.last());
    if let Some(from) = chain[0].escalated_from_assignment_id {
        lemma_any_same(s, |a: AssignmentView| a.id == from, by_id(from));
    }
}

/// The reminders of a sweep are those that are due, each for its task and the submissive on the link
/// of the task.
pub proof fn law_reminders_name_their_tasks(db: LedgerView, now: i64, k: int, n: int)
    requires
        0 <= k < db.assignments.len(),
        only(db.links, n, |l: links::LinkView| l.id == db.assignments[k].link_id),
        reminder_due(db.links, db.notifications, now)(db.assignments[k]),
    ensures
        exists|i: int|
            0 <= i < reminders_due(db, now).len() && (#[trigger] reminders_due(db, now)[i])
                == (DeadlineReminderView {
                assignment_id: db.assignments[k].id,
                submissive_id: db.links[n].submissive_id,
                title: db.assignments[k].title,
            }),
{
    let a = db.assignments[k];
    let p = reminder_due(db.links, db.notifications, now);
    let f = db.assignments.filter(p);
    lemma_find_only(db.links, n, |l: links::LinkView| l.id == a.link_id, links::by_id(a.link_id));
    lemma_filter_contains(db.assignments, p, a);
    let i = choose|i: int| 0 <= i < f.len() && f[i] == a;
    assert(reminders_due(db, now)[i] == reminder(db.links)(a));
}

/// There is a reminder for no task but one that is due one.
pub proof fn law_only_due_tasks_are_reminded_of(db: LedgerView, now: i64, i: int)
    requires
        0 <= i < reminders_due(db, now).len(),
    ensures
        exists|k: int|
            0 <= k < db.assignments.len() && reminder_due(db.links, db.notifications, now)(
                #[trigger] db.assignments[k],
            ) && reminders_due(db, now)[i].assignment_id == db.assignments[k].id
                && reminders_due(db, now)[i].title == db.assignments[k].title,
{
    let p = reminder_due(db.links, db.notifications, now);
    let f = db.assignments.filter(p);
    assert(f.contains(f[i]));
    lemma_filter_contains(db.assignments, p, f[i]);
    let k = choose|k: int| 0 <= k < db.assignments.len() && db.assignments[k] == f[i];
    assert(p(db.assignments[k]));
}

} // verus!
