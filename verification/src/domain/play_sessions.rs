//! Play sessions: templates that are reusable across submissives, and sessions that run from
//! scheduled over in progress and pending judgement to completed, or are cancelled on the way.
//! Judgement hands out ordinary assignments.

use vstd::prelude::*;

use crate::domain::rewards_punishments::assignments;
use crate::domain::toys;
use crate::ids::{are_ids, is_id, new_id};
use crate::ledger::{Ledger, LedgerView};
use crate::table::{
    any_row, find, find_row, insert, lemma_filter_contains, lemma_filter_empty, lemma_find_any,
    lemma_find_only, lemma_find_updated, lemma_listed, only, order, ordered_from, rows, select,
    update, updated, Row,
};
use crate::text::{
    dup_opt, edited, edited_opt, given_or, number_or, or_else, or_keep, own, own_opt, same,
};

verus! {

/// A reusable play session.
#[derive(Debug, PartialEq, Eq)]
pub struct Template {
    pub id: String,
    pub keyholder_id: String,
    pub title: String,
    pub setup_notes: Option<String>,
    pub suggested_toy_categories: Option<String>,
    pub planned_duration_seconds: Option<i64>,
    pub checkin_template_id: Option<String>,
    pub checkin_interval_seconds: Option<i64>,
    pub active: bool,
    pub created_at: i64,
}

/// What a `Template` holds.
#[verifier::ext_equal]
pub struct TemplateView {
    pub id: Seq<char>,
    pub keyholder_id: Seq<char>,
    pub title: Seq<char>,
    pub setup_notes: Option<Seq<char>>,
    pub suggested_toy_categories: Option<Seq<char>>,
    pub planned_duration_seconds: Option<i64>,
    pub checkin_template_id: Option<Seq<char>>,
    pub checkin_interval_seconds: Option<i64>,
    pub active: bool,
    pub created_at: i64,
}

impl View for Template {
    type V = TemplateView;

    open spec fn view(&self) -> TemplateView {
        TemplateView {
            id: self.id@,
            keyholder_id: self.keyholder_id@,
            title: self.title@,
            setup_notes: self.setup_notes.deep_view(),
            suggested_toy_categories: self.suggested_toy_categories.deep_view(),
            planned_duration_seconds: self.planned_duration_seconds,
            checkin_template_id: self.checkin_template_id.deep_view(),
            checkin_interval_seconds: self.checkin_interval_seconds,
            active: self.active,
            created_at: self.created_at,
        }
    }
}

impl DeepView for Template {
    type V = TemplateView;

    open spec fn deep_view(&self) -> TemplateView {
        self.view()
    }
}

impl Row for Template {
    fn dup(&self) -> (r: Self) {
        Template {
            id: self.id.clone(),
            keyholder_id: self.keyholder_id.clone(),
            title: self.title.clone(),
            setup_notes: dup_opt(&self.setup_notes),
            suggested_toy_categories: dup_opt(&self.suggested_toy_categories),
            planned_duration_seconds: self.planned_duration_seconds,
            checkin_template_id: dup_opt(&self.checkin_template_id),
            checkin_interval_seconds: self.checkin_interval_seconds,
            active: self.active,
            created_at: self.created_at,
        }
    }
}

/// What a new template is made from.
#[derive(Debug, PartialEq, Eq)]
pub struct NewTemplate<'a> {
    pub keyholder_id: &'a str,
    pub title: &'a str,
    pub setup_notes: Option<&'a str>,
    pub suggested_toy_categories: Option<&'a str>,
    pub planned_duration_seconds: Option<i64>,
    pub checkin_template_id: Option<&'a str>,
    pub checkin_interval_seconds: Option<i64>,
}

/// What a `NewTemplate` holds.
#[verifier::ext_equal]
pub struct NewTemplateView {
    pub keyholder_id: Seq<char>,
    pub title: Seq<char>,
    pub setup_notes: Option<Seq<char>>,
    pub suggested_toy_categories: Option<Seq<char>>,
    pub planned_duration_seconds: Option<i64>,
    pub checkin_template_id: Option<Seq<char>>,
    pub checkin_interval_seconds: Option<i64>,
}

impl<'a> View for NewTemplate<'a> {
    type V = NewTemplateView;

    open spec fn view(&self) -> NewTemplateView {
        NewTemplateView {
            keyholder_id: self.keyholder_id@,
            title: self.title@,
            setup_notes: self.setup_notes.deep_view(),
            suggested_toy_categories: self.suggested_toy_categories.deep_view(),
            planned_duration_seconds: self.planned_duration_seconds,
            checkin_template_id: self.checkin_template_id.deep_view(),
            checkin_interval_seconds: self.checkin_interval_seconds,
        }
    }
}

/// A partial edit.
#[derive(Debug, PartialEq, Eq)]
pub struct TemplateEdit<'a> {
    pub title: Option<&'a str>,
    pub setup_notes: Option<Option<&'a str>>,
    pub suggested_toy_categories: Option<Option<&'a str>>,
    pub planned_duration_seconds: Option<Option<i64>>,
    pub checkin_template_id: Option<Option<&'a str>>,
    pub checkin_interval_seconds: Option<Option<i64>>,
    pub active: Option<bool>,
}

/// What a `TemplateEdit` holds.
#[verifier::ext_equal]
pub struct TemplateEditView {
    pub title: Option<Seq<char>>,
    pub setup_notes: Option<Option<Seq<char>>>,
    pub suggested_toy_categories: Option<Option<Seq<char>>>,
    pub planned_duration_seconds: Option<Option<i64>>,
    pub checkin_template_id: Option<Option<Seq<char>>>,
    pub checkin_interval_seconds: Option<Option<i64>>,
    pub active: Option<bool>,
}

impl<'a> View for TemplateEdit<'a> {
    type V = TemplateEditView;

    open spec fn view(&self) -> TemplateEditView {
        TemplateEditView {
            title: self.title.deep_view(),
            setup_notes: self.setup_notes.deep_view(),
            suggested_toy_categories: self.suggested_toy_categories.deep_view(),
            planned_duration_seconds: self.planned_duration_seconds,
            checkin_template_id: self.checkin_template_id.deep_view(),
            checkin_interval_seconds: self.checkin_interval_seconds,
            active: self.active,
        }
    }
}

impl TemplateEditView {
    /// Nothing set.
    pub open spec fn blank() -> TemplateEditView {
        TemplateEditView {
            title: None,
            setup_notes: None,
            suggested_toy_categories: None,
            planned_duration_seconds: None,
            checkin_template_id: None,
            checkin_interval_seconds: None,
            active: None,
        }
    }
}

impl<'a> Default for TemplateEdit<'a> {
    fn default() -> (r: Self)
        ensures
            r@ == TemplateEditView::blank(),
    {
        TemplateEdit {
            title: None,
            setup_notes: None,
            suggested_toy_categories: None,
            planned_duration_seconds: None,
            checkin_template_id: None,
            checkin_interval_seconds: None,
            active: None,
        }
    }
}

/// A play session.
#[derive(Debug, PartialEq, Eq)]
pub struct PlaySession {
    pub id: String,
    pub link_id: String,
    pub template_id: Option<String>,
    pub title: String,
    pub setup_notes: Option<String>,
    pub status: String,
    pub planned_duration_seconds: Option<i64>,
    pub checkin_template_id: Option<String>,
    pub checkin_interval_seconds: Option<i64>,
    pub started_at: Option<i64>,
    pub ended_at: Option<i64>,
    pub safety_check_ok: Option<bool>,
    pub judgement_notes: Option<String>,
    pub reward_assignment_id: Option<String>,
    pub punishment_assignment_id: Option<String>,
    pub assigned_by_user_id: String,
    pub assigned_at: i64,
}

/// What a `PlaySession` holds.
#[verifier::ext_equal]
pub struct PlaySessionView {
    pub id: Seq<char>,
    pub link_id: Seq<char>,
    pub template_id: Option<Seq<char>>,
    pub title: Seq<char>,
    pub setup_notes: Option<Seq<char>>,
    pub status: Seq<char>,
    pub planned_duration_seconds: Option<i64>,
    pub checkin_template_id: Option<Seq<char>>,
    pub checkin_interval_seconds: Option<i64>,
    pub started_at: Option<i64>,
    pub ended_at: Option<i64>,
    pub safety_check_ok: Option<bool>,
    pub judgement_notes: Option<Seq<char>>,
    pub reward_assignment_id: Option<Seq<char>>,
    pub punishment_assignment_id: Option<Seq<char>>,
    pub assigned_by_user_id: Seq<char>,
    pub assigned_at: i64,
}

impl View for PlaySession {
    type V = PlaySessionView;

    open spec fn view(&self) -> PlaySessionView {
        PlaySessionView {
            id: self.id@,
            link_id: self.link_id@,
            template_id: self.template_id.deep_view(),
            title: self.title@,
            setup_notes: self.setup_notes.deep_view(),
            status: self.status@,
            planned_duration_seconds: self.planned_duration_seconds,
            checkin_template_id: self.checkin_template_id.deep_view(),
            checkin_interval_seconds: self.checkin_interval_seconds,
            started_at: self.started_at,
            ended_at: self.ended_at,
            safety_check_ok: self.safety_check_ok,
            judgement_notes: self.judgement_notes.deep_view(),
            reward_assignment_id: self.reward_assignment_id.deep_view(),
            punishment_assignment_id: self.punishment_assignment_id.deep_view(),
            assigned_by_user_id: self.assigned_by_user_id@,
            assigned_at: self.assigned_at,
        }
    }
}

impl DeepView for PlaySession {
    type V = PlaySessionView;

    open spec fn deep_view(&self) -> PlaySessionView {
        self.view()
    }
}

impl Row for PlaySession {
    fn dup(&self) -> (r: Self) {
        PlaySession {
            id: self.id.clone(),
            link_id: self.link_id.clone(),
            template_id: dup_opt(&self.template_id),
            title: self.title.clone(),
            setup_notes: dup_opt(&self.setup_notes),
            status: self.status.clone(),
            planned_duration_seconds: self.planned_duration_seconds,
            checkin_template_id: dup_opt(&self.checkin_template_id),
            checkin_interval_seconds: self.checkin_interval_seconds,
            started_at: self.started_at,
            ended_at: self.ended_at,
            safety_check_ok: self.safety_check_ok,
            judgement_notes: dup_opt(&self.judgement_notes),
            reward_assignment_id: dup_opt(&self.reward_assignment_id),
            punishment_assignment_id: dup_opt(&self.punishment_assignment_id),
            assigned_by_user_id: self.assigned_by_user_id.clone(),
            assigned_at: self.assigned_at,
        }
    }
}

/// A toy taken into a session.
#[derive(Debug, PartialEq, Eq)]
pub struct SessionToy {
    pub session_id: String,
    pub toy_id: String,
}

/// What a `SessionToy` holds.
#[verifier::ext_equal]
pub struct SessionToyView {
    pub session_id: Seq<char>,
    pub toy_id: Seq<char>,
}

impl View for SessionToy {
    type V = SessionToyView;

    open spec fn view(&self) -> SessionToyView {
        SessionToyView {
            session_id: self.session_id@,
            toy_id: self.toy_id@,
        }
    }
}

impl DeepView for SessionToy {
    type V = SessionToyView;

    open spec fn deep_view(&self) -> SessionToyView {
        self.view()
    }
}

impl Row for SessionToy {
    fn dup(&self) -> (r: Self) {
        SessionToy {
            session_id: self.session_id.clone(),
            toy_id: self.toy_id.clone(),
        }
    }
}

/// A planned check-in of a session.
#[derive(Debug, PartialEq, Eq)]
pub struct ScheduleSlot {
    pub id: String,
    pub play_session_id: String,
    pub sequence_number: i64,
    pub planned_offset_seconds: i64,
    pub checkin_template_id: String,
    pub fulfilled_checkin_id: Option<String>,
}

/// What a `ScheduleSlot` holds.
#[verifier::ext_equal]
pub struct ScheduleSlotView {
    pub id: Seq<char>,
    pub play_session_id: Seq<char>,
    pub sequence_number: i64,
    pub planned_offset_seconds: i64,
    pub checkin_template_id: Seq<char>,
    pub fulfilled_checkin_id: Option<Seq<char>>,
}

impl View for ScheduleSlot {
    type V = ScheduleSlotView;

    open spec fn view(&self) -> ScheduleSlotView {
        ScheduleSlotView {
            id: self.id@,
            play_session_id: self.play_session_id@,
            sequence_number: self.sequence_number,
            planned_offset_seconds: self.planned_offset_seconds,
            checkin_template_id: self.checkin_template_id@,
            fulfilled_checkin_id: self.fulfilled_checkin_id.deep_view(),
        }
    }
}

impl DeepView for ScheduleSlot {
    type V = ScheduleSlotView;

    open spec fn deep_view(&self) -> ScheduleSlotView {
        self.view()
    }
}

impl Row for ScheduleSlot {
    fn dup(&self) -> (r: Self) {
        ScheduleSlot {
            id: self.id.clone(),
            play_session_id: self.play_session_id.clone(),
            sequence_number: self.sequence_number,
            planned_offset_seconds: self.planned_offset_seconds,
            checkin_template_id: self.checkin_template_id.clone(),
            fulfilled_checkin_id: dup_opt(&self.fulfilled_checkin_id),
        }
    }
}

/// What a new session is made from.
#[derive(Debug, PartialEq, Eq)]
pub struct NewSession<'a> {
    pub link_id: &'a str,
    pub submissive_id: &'a str,
    pub template_id: Option<&'a str>,
    pub title: Option<&'a str>,
    pub setup_notes: Option<&'a str>,
    pub toy_ids: &'a [String],
    pub planned_duration_seconds: Option<i64>,
    pub checkin_template_id: Option<&'a str>,
    pub checkin_interval_seconds: Option<i64>,
    pub started_at: Option<i64>,
    pub ended_at: Option<i64>,
    pub assigned_by_user_id: &'a str,
}

/// What a `NewSession` holds.
#[verifier::ext_equal]
pub struct NewSessionView {
    pub link_id: Seq<char>,
    pub submissive_id: Seq<char>,
    pub template_id: Option<Seq<char>>,
    pub title: Option<Seq<char>>,
    pub setup_notes: Option<Seq<char>>,
    pub toy_ids: Seq<Seq<char>>,
    pub planned_duration_seconds: Option<i64>,
    pub checkin_template_id: Option<Seq<char>>,
    pub checkin_interval_seconds: Option<i64>,
    pub started_at: Option<i64>,
    pub ended_at: Option<i64>,
    pub assigned_by_user_id: Seq<char>,
}

impl<'a> View for NewSession<'a> {
    type V = NewSessionView;

    open spec fn view(&self) -> NewSessionView {
        NewSessionView {
            link_id: self.link_id@,
            submissive_id: self.submissive_id@,
            template_id: self.template_id.deep_view(),
            title: self.title.deep_view(),
            setup_notes: self.setup_notes.deep_view(),
            toy_ids: self.toy_ids.deep_view(),
            planned_duration_seconds: self.planned_duration_seconds,
            checkin_template_id: self.checkin_template_id.deep_view(),
            checkin_interval_seconds: self.checkin_interval_seconds,
            started_at: self.started_at,
            ended_at: self.ended_at,
            assigned_by_user_id: self.assigned_by_user_id@,
        }
    }
}

/// A reward or punishment that a judgement hands out.
#[derive(Debug, PartialEq, Eq)]
pub struct JudgementConsequence<'a> {
    pub template_id: Option<&'a str>,
    pub title: Option<&'a str>,
    pub description: Option<&'a str>,
    pub effect_kind: Option<&'a str>,
    pub time_extension_seconds: Option<i64>,
    pub time_reduction_seconds: Option<i64>,
    pub points_delta: Option<i64>,
}

/// What a `JudgementConsequence` holds.
#[verifier::ext_equal]
pub struct JudgementConsequenceView {
    pub template_id: Option<Seq<char>>,
    pub title: Option<Seq<char>>,
    pub description: Option<Seq<char>>,
    pub effect_kind: Option<Seq<char>>,
    pub time_extension_seconds: Option<i64>,
    pub time_reduction_seconds: Option<i64>,
    pub points_delta: Option<i64>,
}

impl<'a> View for JudgementConsequence<'a> {
    type V = JudgementConsequenceView;

    open spec fn view(&self) -> JudgementConsequenceView {
        JudgementConsequenceView {
            template_id: self.template_id.deep_view(),
            title: self.title.deep_view(),
            description: self.description.deep_view(),
            effect_kind: self.effect_kind.deep_view(),
            time_extension_seconds: self.time_extension_seconds,
            time_reduction_seconds: self.time_reduction_seconds,
            points_delta: self.points_delta,
        }
    }
}

impl<'a> DeepView for JudgementConsequence<'a> {
    type V = JudgementConsequenceView;

    open spec fn deep_view(&self) -> JudgementConsequenceView {
        self.view()
    }
}

/// A judgement.
#[derive(Debug, PartialEq, Eq)]
pub struct Judgement<'a> {
    pub judgement_notes: Option<&'a str>,
    pub reward: Option<JudgementConsequence<'a>>,
    pub punishment: Option<JudgementConsequence<'a>>,
}

/// What a `Judgement` holds.
#[verifier::ext_equal]
pub struct JudgementView {
    pub judgement_notes: Option<Seq<char>>,
    pub reward: Option<JudgementConsequenceView>,
    pub punishment: Option<JudgementConsequenceView>,
}

impl<'a> View for Judgement<'a> {
    type V = JudgementView;

    open spec fn view(&self) -> JudgementView {
        JudgementView {
            judgement_notes: self.judgement_notes.deep_view(),
            reward: self.reward.deep_view(),
            punishment: self.punishment.deep_view(),
        }
    }
}

impl JudgementView {
    /// Nothing set.
    pub open spec fn blank() -> JudgementView {
        JudgementView {
            judgement_notes: None,
            reward: None,
            punishment: None,
        }
    }
}

impl<'a> Default for Judgement<'a> {
    fn default() -> (r: Self)
        ensures
            r@ == JudgementView::blank(),
    {
        Judgement {
            judgement_notes: None,
            reward: None,
            punishment: None,
        }
    }
}

/// The template has this id.
pub open spec fn template_by_id(id: Seq<char>) -> spec_fn(TemplateView) -> bool {
    |t: TemplateView| t.id == id
}

/// The template with this id.
pub fn get_template(db: &Ledger, id: &str) -> (r: Option<Template>)
    ensures
        r.deep_view() == find_row(db@.play_templates, template_by_id(id@)),
{
    let ghost p = template_by_id(id@);
    let test = |t: &Template| -> (b: bool)
        ensures
            b == p(t@),
        { same(t.id.as_str(), id) };
    match find(&db.play_templates, Ghost(p), test) {
        Some(t) => Some(t.dup()),
        None => None,
    }
}

/// A template of this Keyholder.
pub open spec fn of_keyholder(keyholder_id: Seq<char>) -> spec_fn(TemplateView) -> bool {
    |t: TemplateView| t.keyholder_id == keyholder_id
}

/// Newest first.
pub open spec fn newest_template_first() -> spec_fn(TemplateView, TemplateView) -> bool {
    |a: TemplateView, b: TemplateView| a.created_at >= b.created_at
}

/// A Keyholder's templates, newest first.
pub fn list_templates_for_keyholder(db: &Ledger, keyholder_id: &str) -> (r: Vec<Template>)
    ensures
        ordered_from(
            rows(r@),
            db@.play_templates.filter(of_keyholder(keyholder_id@)),
            newest_template_first(),
        ),
{
    let ghost p = of_keyholder(keyholder_id@);
    let ghost le = newest_template_first();
    let test = |t: &Template| -> (b: bool)
        ensures
            b == p(t@),
        { same(t.keyholder_id.as_str(), keyholder_id) };
    let before = |a: &Template, b: &Template| -> (c: bool)
        ensures
            c == le(a@, b@),
        { a.created_at >= b.created_at };
    order(select(&db.play_templates, Ghost(p), test), Ghost(le), before)
}

/// A template as it is created: active.
pub open spec fn new_template(id: Seq<char>, new: NewTemplateView, now: i64) -> TemplateView {
    TemplateView {
        id,
        keyholder_id: new.keyholder_id,
        title: new.title,
        setup_notes: new.setup_notes,
        suggested_toy_categories: new.suggested_toy_categories,
        planned_duration_seconds: new.planned_duration_seconds,
        checkin_template_id: new.checkin_template_id,
        checkin_interval_seconds: new.checkin_interval_seconds,
        active: true,
        created_at: now,
    }
}

/// Creates a template; its id.
pub fn create_template(db: &mut Ledger, new: NewTemplate, now: i64) -> (r: String)
    ensures
        is_id(r@),
        final(db)@ == (LedgerView {
            play_templates: old(db)@.play_templates.push(new_template(r@, new@, now)),
            ..old(db)@
        }),
{
    let id = new_id();
    insert(
        &mut db.play_templates,
        Template {
            id: id.clone(),
            keyholder_id: own(new.keyholder_id),
            title: own(new.title),
            setup_notes: own_opt(new.setup_notes),
            suggested_toy_categories: own_opt(new.suggested_toy_categories),
            planned_duration_seconds: new.planned_duration_seconds,
            checkin_template_id: own_opt(new.checkin_template_id),
            checkin_interval_seconds: new.checkin_interval_seconds,
            active: true,
            created_at: now,
        },
    );
    id
}

/// A template after an edit.
pub open spec fn edited_template(t: TemplateView, edit: TemplateEditView) -> TemplateView {
    TemplateView {
        title: or_keep(edit.title, t.title),
        setup_notes: or_keep(edit.setup_notes, t.setup_notes),
        suggested_toy_categories: or_keep(
            edit.suggested_toy_categories,
            t.suggested_toy_categories,
        ),
        planned_duration_seconds: or_keep(
            edit.planned_duration_seconds,
            t.planned_duration_seconds,
        ),
        checkin_template_id: or_keep(edit.checkin_template_id, t.checkin_template_id),
        checkin_interval_seconds: or_keep(
            edit.checkin_interval_seconds,
            t.checkin_interval_seconds,
        ),
        active: or_keep(edit.active, t.active),
        ..t
    }
}

/// With the fields of an edited template; an edit touches no others.
pub open spec fn with_fields_of(e: TemplateView) -> spec_fn(TemplateView) -> TemplateView {
    |t: TemplateView|
        TemplateView {
            title: e.title,
            setup_notes: e.setup_notes,
            suggested_toy_categories: e.suggested_toy_categories,
            planned_duration_seconds: e.planned_duration_seconds,
            checkin_template_id: e.checkin_template_id,
            checkin_interval_seconds: e.checkin_interval_seconds,
            active: e.active,
            ..t
        }
}

/// The ledger after an edit of a template, or nothing where it is not this Keyholder's. Sessions
/// that were made from it stay as they are.
pub open spec fn template_edited(
    db: LedgerView,
    id: Seq<char>,
    keyholder_id: Seq<char>,
    edit: TemplateEditView,
) -> Option<LedgerView> {
    match find_row(db.play_templates, template_by_id(id)) {
        None => None,
        Some(t) => if t.keyholder_id != keyholder_id {
            None
        } else {
            Some(
                LedgerView {
                    play_templates: updated(
                        db.play_templates,
                        template_by_id(id),
                        with_fields_of(edited_template(t, edit)),
                    ),
                    ..db
                },
            )
        },
    }
}

/// Edits a template; `false` where it is not this Keyholder's.
pub fn update_template(db: &mut Ledger, id: &str, keyholder_id: &str, edit: TemplateEdit) -> (r: bool)
    ensures
        match template_edited(old(db)@, id@, keyholder_id@, edit@) {
            Some(after) => r && final(db)@ == after,
            None => !r && final(db)@ == old(db)@,
        },
{
    let current = match get_template(db, id) {
        Some(t) => t,
        None => {
            return false;
        },
    };
    if !same(current.keyholder_id.as_str(), keyholder_id) {
        return false;
    }
    let e = Template {
        id: current.id,
        keyholder_id: current.keyholder_id,
        title: edited(edit.title, current.title.as_str()),
        setup_notes: edited_opt(edit.setup_notes, &current.setup_notes),
        suggested_toy_categories: edited_opt(
            edit.suggested_toy_categories,
            &current.suggested_toy_categories,
        ),
        planned_duration_seconds: match edit.planned_duration_seconds {
            Some(d) => d,
            None => current.planned_duration_seconds,
        },
        checkin_template_id: edited_opt(edit.checkin_template_id, &current.checkin_template_id),
        checkin_interval_seconds: match edit.checkin_interval_seconds {
            Some(d) => d,
            None => current.checkin_interval_seconds,
        },
        active: match edit.active {
            Some(b) => b,
            None => current.active,
        },
        created_at: current.created_at,
    };
    let ghost p = template_by_id(id@);
    let ghost u = with_fields_of(e@);
    let change = |t: &Template| -> (n: Option<Template>)
        ensures
            match n {
                Some(x) => p(t@) && x@ == u(t@),
                None => !p(t@),
            },
        {
            if same(t.id.as_str(), id) {
                let mut n = t.dup();
                n.title = e.title.clone();
                n.setup_notes = dup_opt(&e.setup_notes);
                n.suggested_toy_categories = dup_opt(&e.suggested_toy_categories);
                n.planned_duration_seconds = e.planned_duration_seconds;
                n.checkin_template_id = dup_opt(&e.checkin_template_id);
                n.checkin_interval_seconds = e.checkin_interval_seconds;
                n.active = e.active;

                Some(n)
            } else {
                None
            }
        };
    update(&mut db.play_templates, Ghost(p), Ghost(u), change);
    true
}

/// The session has this id.
pub open spec fn by_id(id: Seq<char>) -> spec_fn(PlaySessionView) -> bool {
    |s: PlaySessionView| s.id == id
}

/// The session with this id.
pub fn get(db: &Ledger, id: &str) -> (r: Option<PlaySession>)
    ensures
        r.deep_view() == find_row(db@.play_sessions, by_id(id@)),
{
    let ghost p = by_id(id@);
    let test = |s: &PlaySession| -> (b: bool)
        ensures
            b == p(s@),
        { same(s.id.as_str(), id) };
    match find(&db.play_sessions, Ghost(p), test) {
        Some(s) => Some(s.dup()),
        None => None,
    }
}

/// On this link, and in this status where one is asked for.
pub open spec fn on_link(link_id: Seq<char>, status: Option<Seq<char>>) -> spec_fn(
    PlaySessionView,
) -> bool {
    |s: PlaySessionView|
        s.link_id == link_id && match status {
            Some(x) => s.status == x,
            None => true,
        }
}

/// Newest first.
pub open spec fn newest_first() -> spec_fn(PlaySessionView, PlaySessionView) -> bool {
    |a: PlaySessionView, b: PlaySessionView| a.assigned_at >= b.assigned_at
}

/// The sessions on a link, newest first.
pub fn list_for_link(db: &Ledger, link_id: &str, status: Option<&str>) -> (r: Vec<PlaySession>)
    ensures
        ordered_from(
            rows(r@),
            db@.play_sessions.filter(on_link(link_id@, status.deep_view())),
            newest_first(),
        ),
{
    let ghost p = on_link(link_id@, status.deep_view());
    let ghost le = newest_first();
    let test = |s: &PlaySession| -> (b: bool)
        ensures
            b == p(s@),
        {
            same(s.link_id.as_str(), link_id) && match status {
                Some(x) => same(s.status.as_str(), x),
                None => true,
            }
        };
    let before = |a: &PlaySession, b: &PlaySession| -> (c: bool)
        ensures
            c == le(a@, b@),
        { a.assigned_at >= b.assigned_at };
    order(select(&db.play_sessions, Ghost(p), test), Ghost(le), before)
}

/// A toy of this session.
pub open spec fn in_session(session_id: Seq<char>) -> spec_fn(SessionToyView) -> bool {
    |t: SessionToyView| t.session_id == session_id
}

/// The ids of a session's toys.
pub fn toy_ids_for_session(db: &Ledger, session_id: &str) -> (r: Vec<String>)
    ensures
        r.deep_view() == db@.play_session_toys.filter(in_session(session_id@)).map_values(
            |t: SessionToyView| t.toy_id,
        ),
{
    let ghost p = in_session(session_id@);
    let test = |t: &SessionToy| -> (b: bool)
        ensures
            b == p(t@),
        { same(t.session_id.as_str(), session_id) };
    let found = select(&db.play_session_toys, Ghost(p), test);
    let mut out: Vec<String> = Vec::new();
    let mut i: usize = 0;
    while i < found.len()
        invariant
            i <= found@.len(),
            out@.len() == i,
            forall|j: int| 0 <= j < i ==> #[trigger] out@[j]@ == found@[j]@.toy_id,
        decreases found@.len() - i,
    {
        out.push(found[i].toy_id.clone());
        i = i + 1;
    }
    assert(out.deep_view() =~= rows(found@).map_values(|t: SessionToyView| t.toy_id));
    out
}

/// A slot of this session.
pub open spec fn slot_of(session_id: Seq<char>) -> spec_fn(ScheduleSlotView) -> bool {
    |s: ScheduleSlotView| s.play_session_id == session_id
}

/// In sequence.
pub open spec fn in_sequence() -> spec_fn(ScheduleSlotView, ScheduleSlotView) -> bool {
    |a: ScheduleSlotView, b: ScheduleSlotView| a.sequence_number <= b.sequence_number
}

/// A session's planned check-ins, in sequence.
pub fn schedule_for_session(db: &Ledger, session_id: &str) -> (r: Vec<ScheduleSlot>)
    ensures
        ordered_from(
            rows(r@),
            db@.play_schedule.filter(slot_of(session_id@)),
            in_sequence(),
        ),
{
    let ghost p = slot_of(session_id@);
    let ghost le = in_sequence();
    let test = |s: &ScheduleSlot| -> (b: bool)
        ensures
            b == p(s@),
        { same(s.play_session_id.as_str(), session_id) };
    let before = |a: &ScheduleSlot, b: &ScheduleSlot| -> (c: bool)
        ensures
            c == le(a@, b@),
        { a.sequence_number <= b.sequence_number };
    order(select(&db.play_schedule, Ghost(p), test), Ghost(le), before)
}

/// A slot of this session that is still open.
pub open spec fn open_slot(session_id: Seq<char>) -> spec_fn(ScheduleSlotView) -> bool {
    |s: ScheduleSlotView| s.play_session_id == session_id && s.fulfilled_checkin_id is None
}

/// The earliest slot of a session that is still open; where two share a number, either.
pub open spec fn earliest_open(
    schedule: Seq<ScheduleSlotView>,
    session_id: Seq<char>,
    slot: ScheduleSlotView,
) -> bool {
    let open = schedule.filter(open_slot(session_id));
    &&& open.contains(slot)
    &&& forall|j: int|
        0 <= j < open.len() ==> slot.sequence_number <= (#[trigger] open[j]).sequence_number
}

/// The slot has this id.
pub open spec fn slot_by_id(id: Seq<char>) -> spec_fn(ScheduleSlotView) -> bool {
    |s: ScheduleSlotView| s.id == id
}

/// Filled by a check-in.
pub open spec fn fulfilled_by(checkin_id: Seq<char>) -> spec_fn(
    ScheduleSlotView,
) -> ScheduleSlotView {
    |s: ScheduleSlotView| ScheduleSlotView { fulfilled_checkin_id: Some(checkin_id), ..s }
}

/// Fills the earliest open slot of a session with a check-in; `false` where none is open.
pub fn fulfill_next_schedule_slot(db: &mut Ledger, play_session_id: &str, checkin_id: &str) -> (r: bool)
    ensures
        r == any_row(old(db)@.play_schedule, open_slot(play_session_id@)),
        !r ==> final(db)@ == old(db)@,
        r ==> exists|slot: ScheduleSlotView|
            #[trigger] earliest_open(old(db)@.play_schedule, play_session_id@, slot) && final(db)@
                == (LedgerView {
                play_schedule: updated(
                    old(db)@.play_schedule,
                    slot_by_id(slot.id),
                    fulfilled_by(checkin_id@),
                ),
                ..old(db)@
            }),
{
    let ghost q = open_slot(play_session_id@);
    let test = |s: &ScheduleSlot| -> (b: bool)
        ensures
            b == q(s@),
        { same(s.play_session_id.as_str(), play_session_id) && s.fulfilled_checkin_id.is_none() };
    let open = select(&db.play_schedule, Ghost(q), test);
    proof {
        crate::table::lemma_filter_empty(db@.play_schedule, q);
    }
    if open.len() == 0 {
        return false;
    }
    let mut best: usize = 0;
    let mut i: usize = 1;
    while i < open.len()
        invariant
            i <= open@.len(),
            best < i,
            forall|j: int|
                0 <= j < i ==> rows(open@)[best as int].sequence_number <= (#[trigger] rows(
                    open@,
                )[j]).sequence_number,
        decreases open@.len() - i,
    {
        assert(rows(open@)[i as int] == open@[i as int]@);
        assert(rows(open@)[best as int] == open@[best as int]@);
        if open[i].sequence_number < open[best].sequence_number {
            best = i;
        }
        i = i + 1;
    }
    let slot = &open[best];
    assert(rows(open@)[best as int] == slot@);
    assert(earliest_open(db@.play_schedule, play_session_id@, slot@));
    let ghost p = slot_by_id(slot@.id);
    let ghost u = fulfilled_by(checkin_id@);
    let change = |s: &ScheduleSlot| -> (n: Option<ScheduleSlot>)
        ensures
            match n {
                Some(x) => p(s@) && x@ == u(s@),
                None => !p(s@),
            },
        {
            if same(s.id.as_str(), slot.id.as_str()) {
                let mut n = s.dup();
                n.fulfilled_checkin_id = Some(own(checkin_id));

                Some(n)
            } else {
                None
            }
        };
    update(&mut db.play_schedule, Ghost(p), Ghost(u), change);
    true
}

/// Why a session was not created.
#[derive(Clone, Copy, Debug, PartialEq, Eq, Structural)]
pub enum CreateError {
    /// There is no such template, or it is another Keyholder's.
    TemplateNotFound,
    /// Neither the request nor a template has a title.
    MissingTitle,
    /// A toy does not exist, or is not this submissive's.
    InvalidToy,
}

/// This submissive's toy.
pub open spec fn own_toy(toys: Seq<toys::ToyView>, id: Seq<char>, submissive_id: Seq<char>) -> bool {
    find_row(toys, toys::by_id(id)) matches Some(t) && t.submissive_id == submissive_id
}

/// All of these are this submissive's toys.
pub open spec fn own_toys(
    toys: Seq<toys::ToyView>,
    ids: Seq<Seq<char>>,
    submissive_id: Seq<char>,
) -> bool {
    forall|i: int| 0 <= i < ids.len() ==> own_toy(toys, #[trigger] ids[i], submissive_id)
}

/// Whether all of these are this submissive's toys.
fn check_toys(db: &Ledger, ids: &[String], submissive_id: &str) -> (r: bool)
    ensures
        r == own_toys(db@.toys, ids.deep_view(), submissive_id@),
{
    let mut i: usize = 0;
    while i < ids.len()
        invariant
            i <= ids@.len(),
            forall|j: int|
                0 <= j < i ==> own_toy(db@.toys, #[trigger] ids.deep_view()[j], submissive_id@),
        decreases ids@.len() - i,
    {
        let owned = match toys::get(db, ids[i].as_str()) {
            Some(t) => same(t.submissive_id.as_str(), submissive_id),
            None => false,
        };
        if !owned {
            assert(!own_toy(db@.toys, ids.deep_view()[i as int], submissive_id@));
            return false;
        }
        i = i + 1;
    }
    true
}

/// The status that a session starts in: scheduled for later, running where it has a start,
/// waiting for judgement where it is over.
pub open spec fn initial_status(started_at: Option<i64>, ended_at: Option<i64>) -> Seq<char> {
    if started_at is Some && ended_at is Some {
        "pending_judgement"@
    } else if started_at is Some {
        "in_progress"@
    } else {
        "scheduled"@
    }
}

/// The session that a request makes of what a template hands down.
pub open spec fn drafted(
    template: Option<TemplateView>,
    new: NewSessionView,
    id: Seq<char>,
    now: i64,
) -> Option<PlaySessionView> {
    let title = or_else(
        new.title,
        match template {
            Some(t) => Some(t.title),
            None => None,
        },
    );
    match title {
        None => None,
        Some(title) => Some(
            PlaySessionView {
                id,
                link_id: new.link_id,
                template_id: new.template_id,
                title,
                setup_notes: or_else(
                    new.setup_notes,
                    match template {
                        Some(t) => t.setup_notes,
                        None => None,
                    },
                ),
                status: initial_status(new.started_at, new.ended_at),
                planned_duration_seconds: or_else(
                    new.planned_duration_seconds,
                    match template {
                        Some(t) => t.planned_duration_seconds,
                        None => None,
                    },
                ),
                checkin_template_id: or_else(
                    new.checkin_template_id,
                    match template {
                        Some(t) => t.checkin_template_id,
                        None => None,
                    },
                ),
                checkin_interval_seconds: or_else(
                    new.checkin_interval_seconds,
                    match template {
                        Some(t) => t.checkin_interval_seconds,
                        None => None,
                    },
                ),
                started_at: new.started_at,
                ended_at: new.ended_at,
                safety_check_ok: None,
                judgement_notes: None,
                reward_assignment_id: None,
                punishment_assignment_id: None,
                assigned_by_user_id: new.assigned_by_user_id,
                assigned_at: now,
            },
        ),
    }
}

/// Drafts a session.
fn draft(template: &Option<Template>, new: &NewSession, id: &str, now: i64) -> (r: Option<PlaySession>)
    ensures
        r.deep_view() == drafted(template.deep_view(), new@, id@, now),
{
    let started = new.started_at.is_some();
    let status = if started && new.ended_at.is_some() {
        "pending_judgement"
    } else if started {
        "in_progress"
    } else {
        "scheduled"
    };
    let (title, setup_notes, duration, checkin_template_id, interval) = match template {
        Some(t) => (
            Some(edited(new.title, t.title.as_str())),
            given_or(new.setup_notes, &t.setup_notes),
            number_or(new.planned_duration_seconds, t.planned_duration_seconds),
            given_or(new.checkin_template_id, &t.checkin_template_id),
            number_or(new.checkin_interval_seconds, t.checkin_interval_seconds),
        ),
        None => (
            own_opt(new.title),
            own_opt(new.setup_notes),
            new.planned_duration_seconds,
            own_opt(new.checkin_template_id),
            new.checkin_interval_seconds,
        ),
    };
    match title {
        None => None,
        Some(title) => Some(
            PlaySession {
                id: own(id),
                link_id: own(new.link_id),
                template_id: own_opt(new.template_id),
                title,
                setup_notes,
                status: own(status),
                planned_duration_seconds: duration,
                checkin_template_id,
                checkin_interval_seconds: interval,
                started_at: new.started_at,
                ended_at: new.ended_at,
                safety_check_ok: None,
                judgement_notes: None,
                reward_assignment_id: None,
                punishment_assignment_id: None,
                assigned_by_user_id: own(new.assigned_by_user_id),
                assigned_at: now,
            },
        ),
    }
}

/// How many check-ins fit: one after every full interval of the duration.
pub open spec fn slot_count(duration: Option<i64>, interval: Option<i64>) -> nat {
    match (duration, interval) {
        (Some(d), Some(i)) => if i > 0 && d > 0 {
            (d as int / i as int) as nat
        } else {
            0
        },
        _ => 0,
    }
}

/// The `k`th slot of a session, at `k` intervals from its start.
pub open spec fn slot_row(
    session_id: Seq<char>,
    checkin_template_id: Seq<char>,
    interval: i64,
    k: int,
    id: Seq<char>,
) -> ScheduleSlotView {
    ScheduleSlotView {
        id,
        play_session_id: session_id,
        sequence_number: k as i64,
        planned_offset_seconds: (k * interval) as i64,
        checkin_template_id,
        fulfilled_checkin_id: None,
    }
}

/// The slots of a session: there are some where it has a check-in form, an interval and a
/// duration.
pub open spec fn slot_rows(s: PlaySessionView, ids: Seq<Seq<char>>) -> Seq<ScheduleSlotView> {
    match s.checkin_template_id {
        None => Seq::empty(),
        Some(t) => Seq::new(
            slot_count(s.planned_duration_seconds, s.checkin_interval_seconds),
            |i: int| slot_row(s.id, t, s.checkin_interval_seconds->0, i + 1, ids[i]),
        ),
    }
}

/// Plans the check-ins of a session; the ids of the slots.
fn plan_slots(db: &mut Ledger, s: &PlaySession) -> (ids: Ghost<Seq<Seq<char>>>)
    ensures
        final(db)@ == (LedgerView {
            play_schedule: old(db)@.play_schedule + slot_rows(s@, ids@),
            ..old(db)@
        }),
        are_ids(ids@, slot_rows(s@, ids@).len()),
{
    let ghost before = db@;
    let ghost mut used: Seq<Seq<char>> = Seq::empty();
    if let Some(template_id) = &s.checkin_template_id {
        if let (Some(interval), Some(duration)) = (
            s.checkin_interval_seconds,
            s.planned_duration_seconds,
        ) {
            if interval > 0 && duration > 0 {
                let slots: i64 = duration / interval;
                proof {
                    vstd::arithmetic::div_mod::lemma_div_is_ordered_by_denominator(
                        duration as int,
                        1,
                        interval as int,
                    );
                }
                let mut k: i64 = 0;
                assert(before.play_schedule =~= before.play_schedule + Seq::<
                    ScheduleSlotView,
                >::empty());
                while k < slots
                    invariant
                        0 <= k <= slots,
                        slots == duration / interval,
                        interval > 0,
                        duration > 0,
                        are_ids(used, k as nat),
                        template_id == s.checkin_template_id->0,
                        db@ == (LedgerView {
                            play_schedule: before.play_schedule + Seq::new(
                                k as nat,
                                |i: int| slot_row(s@.id, template_id@, interval, i + 1, used[i]),
                            ),
                            ..before
                        }),
                    decreases slots - k,
                {
                    let ghost old_used = used;
                    let ghost old_rows = Seq::new(
                        k as nat,
                        |i: int| slot_row(s@.id, template_id@, interval, i + 1, used[i]),
                    );
                    proof {
                        vstd::arithmetic::div_mod::lemma_fundamental_div_mod(
                            duration as int,
                            interval as int,
                        );
                        assert((k + 1) * interval <= duration) by (nonlinear_arith)
                            requires
                                k + 1 <= duration as int / interval as int,
                                duration as int == interval as int * (duration as int
                                    / interval as int) + duration as int % interval as int,
                                0 <= duration as int % interval as int,
                                interval > 0,
                        ;
                        assert(0 <= (k + 1) * interval) by (nonlinear_arith)
                            requires
                                k >= 0,
                                interval > 0,
                        ;
                    }
                    k = k + 1;
                    let id = new_id();
                    proof {
                        used = used.push(id@);
                    }
                    insert(
                        &mut db.play_schedule,
                        ScheduleSlot {
                            id,
                            play_session_id: s.id.clone(),
                            sequence_number: k,
                            planned_offset_seconds: k * interval,
                            checkin_template_id: template_id.clone(),
                            fulfilled_checkin_id: None,
                        },
                    );
                    assert(Seq::new(
                        k as nat,
                        |i: int| slot_row(s@.id, template_id@, interval, i + 1, used[i]),
                    ) =~= old_rows.push(
                        slot_row(s@.id, template_id@, interval, k as int, id@),
                    ));
                    assert(before.play_schedule + old_rows.push(
                        slot_row(s@.id, template_id@, interval, k as int, id@),
                    ) =~= (before.play_schedule + old_rows).push(
                        slot_row(s@.id, template_id@, interval, k as int, id@),
                    ));
                }
                assert(slot_rows(s@, used) =~= Seq::new(
                    slots as nat,
                    |i: int| slot_row(s@.id, template_id@, interval, i + 1, used[i]),
                ));
                return Ghost(used);
            }
        }
    }
    assert(before.play_schedule + slot_rows(s@, used) =~= before.play_schedule);
    Ghost(used)
}

/// The rows of the toys that a session takes.
pub open spec fn toy_rows(session_id: Seq<char>, toy_ids: Seq<Seq<char>>) -> Seq<SessionToyView> {
    toy_ids.map_values(|toy_id: Seq<char>| SessionToyView { session_id, toy_id })
}

/// Takes toys into a session.
fn take_toys(db: &mut Ledger, session_id: &str, toy_ids: &[String])
    ensures
        final(db)@ == (LedgerView {
            play_session_toys: old(db)@.play_session_toys + toy_rows(
                session_id@,
                toy_ids.deep_view(),
            ),
            ..old(db)@
        }),
{
    let ghost before = db@;
    let ghost new = toy_rows(session_id@, toy_ids.deep_view());
    let mut i: usize = 0;
    assert(before.play_session_toys + new.take(0) =~= before.play_session_toys);
    while i < toy_ids.len()
        invariant
            i <= toy_ids@.len(),
            new == toy_rows(session_id@, toy_ids.deep_view()),
            db@ == (LedgerView {
                play_session_toys: before.play_session_toys + new.take(i as int),
                ..before
            }),
        decreases toy_ids@.len() - i,
    {
        insert(
            &mut db.play_session_toys,
            SessionToy { session_id: own(session_id), toy_id: toy_ids[i].clone() },
        );
        assert(before.play_session_toys + new.take(i + 1) =~= (before.play_session_toys + new.take(
            i as int,
        )).push(new[i as int]));
        i = i + 1;
    }
    assert(new.take(new.len() as int) =~= new);
}

/// The ledger after a session was created, and the session. A template has to be the own one of the
/// Keyholder who assigns the session.
pub open spec fn session_created(
    db: LedgerView,
    new: NewSessionView,
    id: Seq<char>,
    slot_ids: Seq<Seq<char>>,
    now: i64,
) -> Result<(LedgerView, PlaySessionView), CreateError> {
    let template = match new.template_id {
        Some(t) => find_row(db.play_templates, template_by_id(t)),
        None => None,
    };
    if new.template_id is Some && (template is None || template->0.keyholder_id
        != new.assigned_by_user_id) {
        Err(CreateError::TemplateNotFound)
    } else {
        match drafted(template, new, id, now) {
            None => Err(CreateError::MissingTitle),
            Some(s) => if !own_toys(db.toys, new.toy_ids, new.submissive_id) {
                Err(CreateError::InvalidToy)
            } else {
                Ok(
                    (
                        LedgerView {
                            play_sessions: db.play_sessions.push(s),
                            play_session_toys: db.play_session_toys + toy_rows(id, new.toy_ids),
                            play_schedule: db.play_schedule + slot_rows(s, slot_ids),
                            ..db
                        },
                        s,
                    ),
                )
            },
        }
    }
}

/// Creates a session: for a live start later, running, or in retrospect.
pub fn create(db: &mut Ledger, new: NewSession, now: i64) -> (r: Result<PlaySession, CreateError>)
    ensures
        exists|id: Seq<char>, slot_ids: Seq<Seq<char>>|
            is_id(id) && match #[trigger] session_created(old(db)@, new@, id, slot_ids, now) {
                Ok((after, s)) => are_ids(slot_ids, slot_rows(s, slot_ids).len()) && r is Ok
                    && r->Ok_0@ == s && final(db)@ == after,
                Err(e) => r == Err::<PlaySession, CreateError>(e) && final(db)@ == old(db)@,
            },
{
    let id = new_id();
    let ghost start = db@;
    let template = match new.template_id {
        Some(t) => match get_template(db, t) {
            Some(t) => {
                if !same(t.keyholder_id.as_str(), new.assigned_by_user_id) {
                    assert(session_created(start, new@, id@, Seq::empty(), now) is Err);
                    return Err(CreateError::TemplateNotFound);
                }
                Some(t)
            },
            None => {
                assert(session_created(start, new@, id@, Seq::empty(), now) is Err);
                return Err(CreateError::TemplateNotFound);
            },
        },
        None => None,
    };
    let s = match draft(&template, &new, id.as_str(), now) {
        Some(s) => s,
        None => {
            assert(session_created(start, new@, id@, Seq::empty(), now) is Err);
            return Err(CreateError::MissingTitle);
        },
    };
    if !check_toys(db, new.toy_ids, new.submissive_id) {
        assert(session_created(start, new@, id@, Seq::empty(), now) is Err);
        return Err(CreateError::InvalidToy);
    }
    insert(&mut db.play_sessions, s.dup());
    take_toys(db, id.as_str(), new.toy_ids);
    let slot_ids = plan_slots(db, &s);
    assert(session_created(start, new@, id@, slot_ids@, now) is Ok);
    Ok(s)
}

/// Why a session was not started.
#[derive(Clone, Copy, Debug, PartialEq, Eq, Structural)]
pub enum StartError {
    /// There is no such session.
    NotFound,
    /// It is not scheduled.
    Conflict,
}

/// Running since now.
pub open spec fn started(now: i64) -> spec_fn(PlaySessionView) -> PlaySessionView {
    |s: PlaySessionView|
        PlaySessionView { status: "in_progress"@, started_at: Some(now), ..s }
}

/// The ledger after a session was started, and the session: only a scheduled one can be.
pub open spec fn session_started(db: LedgerView, id: Seq<char>, now: i64) -> Result<
    (LedgerView, PlaySessionView),
    StartError,
> {
    match find_row(db.play_sessions, by_id(id)) {
        None => Err(StartError::NotFound),
        Some(s) => if s.status != "scheduled"@ {
            Err(StartError::Conflict)
        } else {
            Ok(
                (
                    LedgerView {
                        play_sessions: updated(db.play_sessions, by_id(id), started(now)),
                        ..db
                    },
                    started(now)(s),
                ),
            )
        },
    }
}

/// Starts a scheduled session.
pub fn start(db: &mut Ledger, id: &str, now: i64) -> (r: Result<PlaySession, StartError>)
    ensures
        match session_started(old(db)@, id@, now) {
            Ok((after, s)) => r is Ok && r->Ok_0@ == s && final(db)@ == after,
            Err(e) => r == Err::<PlaySession, StartError>(e) && final(db)@ == old(db)@,
        },
{
    let mut session = match get(db, id) {
        Some(s) => s,
        None => {
            return Err(StartError::NotFound);
        },
    };
    if !same(session.status.as_str(), "scheduled") {
        return Err(StartError::Conflict);
    }
    let ghost p = by_id(id@);
    let ghost u = started(now);
    let change = |s: &PlaySession| -> (n: Option<PlaySession>)
        ensures
            match n {
                Some(x) => p(s@) && x@ == u(s@),
                None => !p(s@),
            },
        {
            if same(s.id.as_str(), id) {
                let mut n = s.dup();
                n.status = own("in_progress");
                n.started_at = Some(now);

                Some(n)
            } else {
                None
            }
        };
    update(&mut db.play_sessions, Ghost(p), Ghost(u), change);
    session.status = own("in_progress");
    session.started_at = Some(now);
    Ok(session)
}

/// Why a session was not ended.
#[derive(Clone, Copy, Debug, PartialEq, Eq, Structural)]
pub enum EndError {
    /// There is no such session.
    NotFound,
    /// It is not running.
    Conflict,
}

/// Over since now, and waiting for judgement.
pub open spec fn over(safety_check_ok: Option<bool>, now: i64) -> spec_fn(
    PlaySessionView,
) -> PlaySessionView {
    |s: PlaySessionView|
        PlaySessionView { status: "pending_judgement"@, ended_at: Some(now), safety_check_ok, ..s }
}

/// The ledger after a session was ended, and the session: only a running one can be.
pub open spec fn session_ended(
    db: LedgerView,
    id: Seq<char>,
    safety_check_ok: Option<bool>,
    now: i64,
) -> Result<(LedgerView, PlaySessionView), EndError> {
    match find_row(db.play_sessions, by_id(id)) {
        None => Err(EndError::NotFound),
        Some(s) => if s.status != "in_progress"@ {
            Err(EndError::Conflict)
        } else {
            Ok(
                (
                    LedgerView {
                        play_sessions: updated(
                            db.play_sessions,
                            by_id(id),
                            over(safety_check_ok, now),
                        ),
                        ..db
                    },
                    over(safety_check_ok, now)(s),
                ),
            )
        },
    }
}

/// Ends a running session.
pub fn end(db: &mut Ledger, id: &str, safety_check_ok: Option<bool>, now: i64) -> (r: Result<
    PlaySession,
    EndError,
>)
    ensures
        match session_ended(old(db)@, id@, safety_check_ok, now) {
            Ok((after, s)) => r is Ok && r->Ok_0@ == s && final(db)@ == after,
            Err(e) => r == Err::<PlaySession, EndError>(e) && final(db)@ == old(db)@,
        },
{
    let mut session = match get(db, id) {
        Some(s) => s,
        None => {
            return Err(EndError::NotFound);
        },
    };
    if !same(session.status.as_str(), "in_progress") {
        return Err(EndError::Conflict);
    }
    let ghost p = by_id(id@);
    let ghost u = over(safety_check_ok, now);
    let change = |s: &PlaySession| -> (n: Option<PlaySession>)
        ensures
            match n {
                Some(x) => p(s@) && x@ == u(s@),
                None => !p(s@),
            },
        {
            if same(s.id.as_str(), id) {
                let mut n = s.dup();
                n.status = own("pending_judgement");
                n.ended_at = Some(now);
                n.safety_check_ok = safety_check_ok;

                Some(n)
            } else {
                None
            }
        };
    update(&mut db.play_sessions, Ghost(p), Ghost(u), change);
    session.status = own("pending_judgement");
    session.ended_at = Some(now);
    session.safety_check_ok = safety_check_ok;
    Ok(session)
}

/// Why a session was not judged.
#[derive(Clone, Copy, Debug, PartialEq, Eq, Structural)]
pub enum JudgementError {
    /// There is no such session.
    NotFound,
    /// It is completed.
    AlreadyCompleted,
    /// A consequence could not be handed out.
    Assignment(assignments::CreateError),
}

/// The request for the assignment that a consequence is handed out as.
pub open spec fn consequence_request(
    kind: Seq<char>,
    c: JudgementConsequenceView,
    session_id: Seq<char>,
    keyholder_id: Seq<char>,
) -> assignments::NewAssignmentView {
    assignments::NewAssignmentView {
        kind: Some(kind),
        template_id: c.template_id,
        require_active_template: false,
        title: c.title,
        description: c.description,
        effect_kind: c.effect_kind,
        time_extension_seconds: c.time_extension_seconds,
        time_reduction_seconds: c.time_reduction_seconds,
        points_delta: c.points_delta,
        triggered_by_play_session_id: Some(session_id),
        assigned_by_user_id: Some(keyholder_id),
        assigned_via: "session"@,
        ..assignments::NewAssignmentView::blank()
    }
}

/// The ledger after a consequence was handed out, if there is one, and the id of the assignment
/// that the session then points to.
pub open spec fn consequence_handed_out(
    db: LedgerView,
    kind: Seq<char>,
    c: Option<JudgementConsequenceView>,
    standing: Option<Seq<char>>,
    session: PlaySessionView,
    submissive_id: Seq<char>,
    keyholder_id: Seq<char>,
    id: Seq<char>,
    adjustment_id: Seq<char>,
    now: i64,
) -> Result<(LedgerView, Option<Seq<char>>), assignments::CreateError> {
    match c {
        None => Ok((db, standing)),
        Some(c) => match assignments::created(
            db,
            submissive_id,
            session.link_id,
            consequence_request(kind, c, session.id, keyholder_id),
            id,
            adjustment_id,
            now,
        ) {
            Err(e) => Err(e),
            Ok((after, a)) => Ok((after, Some(a.id))),
        },
    }
}

/// Hands a consequence out.
fn hand_out(
    db: &mut Ledger,
    kind: &str,
    c: Option<JudgementConsequence>,
    standing: &Option<String>,
    session: &PlaySession,
    submissive_id: &str,
    keyholder_id: &str,
    id: String,
    adjustment_id: String,
    now: i64,
) -> (r: Result<Option<String>, assignments::CreateError>)
    ensures
        match consequence_handed_out(
            old(db)@,
            kind@,
            c.deep_view(),
            standing.deep_view(),
            session@,
            submissive_id@,
            keyholder_id@,
            id@,
            adjustment_id@,
            now,
        ) {
            Ok((after, a)) => r is Ok && r->Ok_0.deep_view() == a && final(db)@ == after,
            Err(e) => r == Err::<Option<String>, assignments::CreateError>(e) && final(db)@
                == old(db)@,
        },
{
    match c {
        None => Ok(dup_opt(standing)),
        Some(c) => {
            let mut new = assignments::NewAssignment::default();
            new.kind = Some(kind);
            new.template_id = c.template_id;
            new.require_active_template = false;
            new.title = c.title;
            new.description = c.description;
            new.effect_kind = c.effect_kind;
            new.time_extension_seconds = c.time_extension_seconds;
            new.time_reduction_seconds = c.time_reduction_seconds;
            new.points_delta = c.points_delta;
            new.triggered_by_play_session_id = Some(session.id.as_str());
            new.assigned_by_user_id = Some(keyholder_id);
            new.assigned_via = "session";
            match assignments::create_as(
                db,
                submissive_id,
                session.link_id.as_str(),
                new,
                id,
                adjustment_id,
                now,
            ) {
                Ok(a) => Ok(Some(a.id)),
                Err(e) => Err(e),
            }
        },
    }
}

/// Judged: with these notes, pointing to these assignments.
pub open spec fn judged(
    notes: Option<Seq<char>>,
    reward: Option<Seq<char>>,
    punishment: Option<Seq<char>>,
) -> spec_fn(PlaySessionView) -> PlaySessionView {
    |s: PlaySessionView|
        PlaySessionView {
            judgement_notes: notes,
            reward_assignment_id: reward,
            punishment_assignment_id: punishment,
            ..s
        }
}

/// The ids that a judgement may need: of the two assignments, and of the adjustments that they
/// cause.
#[derive(Debug, PartialEq, Eq)]
pub struct JudgementIds {
    pub reward: String,
    pub reward_adjustment: String,
    pub punishment: String,
    pub punishment_adjustment: String,
}

/// What `JudgementIds` hold.
#[verifier::ext_equal]
pub struct JudgementIdsView {
    pub reward: Seq<char>,
    pub reward_adjustment: Seq<char>,
    pub punishment: Seq<char>,
    pub punishment_adjustment: Seq<char>,
}

impl JudgementIdsView {
    /// All of them are row identifiers.
    pub open spec fn are_ids(self) -> bool {
        &&& is_id(self.reward)
        &&& is_id(self.reward_adjustment)
        &&& is_id(self.punishment)
        &&& is_id(self.punishment_adjustment)
    }
}

impl View for JudgementIds {
    type V = JudgementIdsView;

    open spec fn view(&self) -> JudgementIdsView {
        JudgementIdsView {
            reward: self.reward@,
            reward_adjustment: self.reward_adjustment@,
            punishment: self.punishment@,
            punishment_adjustment: self.punishment_adjustment@,
        }
    }
}

/// The ledger after a judgement, and the session: the reward first, then the punishment, and the
/// session points to what was handed out. Notes and pointers that the judgement does not renew
/// stay. All of it happens or none of it, and not once the session is completed.
pub open spec fn session_judged(
    db: LedgerView,
    id: Seq<char>,
    submissive_id: Seq<char>,
    keyholder_id: Seq<char>,
    j: JudgementView,
    ids: JudgementIdsView,
    now: i64,
) -> Result<(LedgerView, PlaySessionView), JudgementError> {
    match find_row(db.play_sessions, by_id(id)) {
        None => Err(JudgementError::NotFound),
        Some(s) => if s.status == "completed"@ {
            Err(JudgementError::AlreadyCompleted)
        } else {
            match consequence_handed_out(
                db,
                "reward"@,
                j.reward,
                s.reward_assignment_id,
                s,
                submissive_id,
                keyholder_id,
                ids.reward,
                ids.reward_adjustment,
                now,
            ) {
                Err(e) => Err(JudgementError::Assignment(e)),
                Ok((rewarded, reward)) => match consequence_handed_out(
                    rewarded,
                    "punishment"@,
                    j.punishment,
                    s.punishment_assignment_id,
                    s,
                    submissive_id,
                    keyholder_id,
                    ids.punishment,
                    ids.punishment_adjustment,
                    now,
                ) {
                    Err(e) => Err(JudgementError::Assignment(e)),
                    Ok((punished, punishment)) => {
                        let u = judged(
                            or_else(j.judgement_notes, s.judgement_notes),
                            reward,
                            punishment,
                        );
                        Ok(
                            (
                                LedgerView {
                                    play_sessions: updated(punished.play_sessions, by_id(id), u),
                                    ..punished
                                },
                                u(s),
                            ),
                        )
                    },
                },
            }
        },
    }
}

/// Judges a session under the ids given.
pub fn judge_as(
    db: &mut Ledger,
    id: &str,
    submissive_id: &str,
    keyholder_id: &str,
    j: Judgement,
    ids: JudgementIds,
    now: i64,
) -> (r: Result<PlaySession, JudgementError>)
    ensures
        match session_judged(old(db)@, id@, submissive_id@, keyholder_id@, j@, ids@, now) {
            Ok((after, s)) => r is Ok && r->Ok_0@ == s && final(db)@ == after,
            Err(e) => r == Err::<PlaySession, JudgementError>(e) && final(db)@ == old(db)@,
        },
{
    let mut session = match get(db, id) {
        Some(s) => s,
        None => {
            return Err(JudgementError::NotFound);
        },
    };
    if same(session.status.as_str(), "completed") {
        return Err(JudgementError::AlreadyCompleted);
    }
    proof {
        crate::table::lemma_find_any(db@.play_sessions, by_id(id@));
    }
    let mut tx = db.transaction();
    let reward = match hand_out(
        &mut tx,
        "reward",
        j.reward,
        &session.reward_assignment_id,
        &session,
        submissive_id,
        keyholder_id,
        ids.reward,
        ids.reward_adjustment,
        now,
    ) {
        Ok(a) => a,
        Err(e) => {
            return Err(JudgementError::Assignment(e));
        },
    };
    let punishment = match hand_out(
        &mut tx,
        "punishment",
        j.punishment,
        &session.punishment_assignment_id,
        &session,
        submissive_id,
        keyholder_id,
        ids.punishment,
        ids.punishment_adjustment,
        now,
    ) {
        Ok(a) => a,
        Err(e) => {
            return Err(JudgementError::Assignment(e));
        },
    };
    let notes = given_or(j.judgement_notes, &session.judgement_notes);
    let ghost p = by_id(id@);
    let ghost u = judged(notes.deep_view(), reward.deep_view(), punishment.deep_view());
    let change = |s: &PlaySession| -> (n: Option<PlaySession>)
        ensures
            match n {
                Some(x) => p(s@) && x@ == u(s@),
                None => !p(s@),
            },
        {
            if same(s.id.as_str(), id) {
                let mut n = s.dup();
                n.judgement_notes = dup_opt(&notes);
                n.reward_assignment_id = dup_opt(&reward);
                n.punishment_assignment_id = dup_opt(&punishment);

                Some(n)
            } else {
                None
            }
        };
    update(&mut tx.play_sessions, Ghost(p), Ghost(u), change);
    session.judgement_notes = notes;
    session.reward_assignment_id = reward;
    session.punishment_assignment_id = punishment;
    *db = tx;
    Ok(session)
}

/// Judges a session.
pub fn judge(
    db: &mut Ledger,
    id: &str,
    submissive_id: &str,
    keyholder_id: &str,
    j: Judgement,
    now: i64,
) -> (r: Result<PlaySession, JudgementError>)
    ensures
        exists|ids: JudgementIdsView|
            ids.are_ids() && match #[trigger] session_judged(
                old(db)@,
                id@,
                submissive_id@,
                keyholder_id@,
                j@,
                ids,
                now,
            ) {
                Ok((after, s)) => r is Ok && r->Ok_0@ == s && final(db)@ == after,
                Err(e) => r == Err::<PlaySession, JudgementError>(e) && final(db)@ == old(db)@,
            },
{
    let ids = JudgementIds {
        reward: new_id(),
        reward_adjustment: new_id(),
        punishment: new_id(),
        punishment_adjustment: new_id(),
    };
    judge_as(db, id, submissive_id, keyholder_id, j, ids, now)
}

/// In this status.
pub open spec fn in_status(status: Seq<char>) -> spec_fn(PlaySessionView) -> PlaySessionView {
    |s: PlaySessionView| PlaySessionView { status, ..s }
}

/// Sets the status of a session.
fn set_status(db: &mut Ledger, id: &str, status: &str)
    ensures
        final(db)@ == (LedgerView {
            play_sessions: updated(old(db)@.play_sessions, by_id(id@), in_status(status@)),
            ..old(db)@
        }),
{
    let ghost p = by_id(id@);
    let ghost u = in_status(status@);
    let change = |s: &PlaySession| -> (n: Option<PlaySession>)
        ensures
            match n {
                Some(x) => p(s@) && x@ == u(s@),
                None => !p(s@),
            },
        {
            if same(s.id.as_str(), id) {
                let mut n = s.dup();
                n.status = own(status);

                Some(n)
            } else {
                None
            }
        };
    update(&mut db.play_sessions, Ghost(p), Ghost(u), change);
}

/// Why a session was not completed.
#[derive(Clone, Copy, Debug, PartialEq, Eq, Structural)]
pub enum CompleteError {
    /// There is no such session.
    NotFound,
    /// It does not wait for judgement.
    Conflict,
}

/// The ledger after a session was completed, and the session: only one that waits for judgement
/// can be, judged or not.
pub open spec fn session_completed(db: LedgerView, id: Seq<char>) -> Result<
    (LedgerView, PlaySessionView),
    CompleteError,
> {
    match find_row(db.play_sessions, by_id(id)) {
        None => Err(CompleteError::NotFound),
        Some(s) => if s.status != "pending_judgement"@ {
            Err(CompleteError::Conflict)
        } else {
            Ok(
                (
                    LedgerView {
                        play_sessions: updated(
                            db.play_sessions,
                            by_id(id),
                            in_status("completed"@),
                        ),
                        ..db
                    },
                    in_status("completed"@)(s),
                ),
            )
        },
    }
}

/// Completes a session that waits for judgement.
pub fn complete(db: &mut Ledger, id: &str) -> (r: Result<PlaySession, CompleteError>)
    ensures
        match session_completed(old(db)@, id@) {
            Ok((after, s)) => r is Ok && r->Ok_0@ == s && final(db)@ == after,
            Err(e) => r == Err::<PlaySession, CompleteError>(e) && final(db)@ == old(db)@,
        },
{
    let mut session = match get(db, id) {
        Some(s) => s,
        None => {
            return Err(CompleteError::NotFound);
        },
    };
    if !same(session.status.as_str(), "pending_judgement") {
        return Err(CompleteError::Conflict);
    }
    set_status(db, id, "completed");
    session.status = own("completed");
    Ok(session)
}

/// Why a session was not cancelled.
#[derive(Clone, Copy, Debug, PartialEq, Eq, Structural)]
pub enum CancelError {
    /// There is no such session.
    NotFound,
    /// It is over.
    Conflict,
}

/// The ledger after a session was cancelled, and the session: only one that is not over can be.
pub open spec fn session_cancelled(db: LedgerView, id: Seq<char>) -> Result<
    (LedgerView, PlaySessionView),
    CancelError,
> {
    match find_row(db.play_sessions, by_id(id)) {
        None => Err(CancelError::NotFound),
        Some(s) => if s.status != "scheduled"@ && s.status != "in_progress"@ {
            Err(CancelError::Conflict)
        } else {
            Ok(
                (
                    LedgerView {
                        play_sessions: updated(
                            db.play_sessions,
                            by_id(id),
                            in_status("cancelled"@),
                        ),
                        ..db
                    },
                    in_status("cancelled"@)(s),
                ),
            )
        },
    }
}

/// Cancels a session that is scheduled or running.
pub fn cancel(db: &mut Ledger, id: &str) -> (r: Result<PlaySession, CancelError>)
    ensures
        match session_cancelled(old(db)@, id@) {
            Ok((after, s)) => r is Ok && r->Ok_0@ == s && final(db)@ == after,
            Err(e) => r == Err::<PlaySession, CancelError>(e) && final(db)@ == old(db)@,
        },
{
    let mut session = match get(db, id) {
        Some(s) => s,
        None => {
            return Err(CancelError::NotFound);
        },
    };
    if !same(session.status.as_str(), "scheduled")
        && !same(session.status.as_str(), "in_progress") {
        return Err(CancelError::Conflict);
    }
    set_status(db, id, "cancelled");
    session.status = own("cancelled");
    Ok(session)
}

/// A session moves forward only: what is running, over, completed or cancelled cannot be started;
/// only what runs can be ended; only what waits for judgement can be completed; and what is over
/// cannot be cancelled.
pub proof fn law_sessions_move_forward(
    db: LedgerView,
    id: Seq<char>,
    safety_check_ok: Option<bool>,
    now: i64,
)
    requires
        find_row(db.play_sessions, by_id(id)) is Some,
    ensures
        ({
            let status = find_row(db.play_sessions, by_id(id))->0.status;
            &&& (session_started(db, id, now) is Ok) == (status == "scheduled"@)
            &&& (session_ended(db, id, safety_check_ok, now) is Ok) == (status == "in_progress"@)
            &&& (session_completed(db, id) is Ok) == (status == "pending_judgement"@)
            &&& (session_cancelled(db, id) is Ok) == (status == "scheduled"@ || status
                == "in_progress"@)
        }),
{
}

/// The four statuses that moves lead to are told apart.
proof fn lemma_statuses()
    ensures
        "scheduled"@ != "in_progress"@,
        "scheduled"@ != "pending_judgement"@,
        "scheduled"@ != "completed"@,
        "scheduled"@ != "cancelled"@,
        "in_progress"@ != "pending_judgement"@,
        "in_progress"@ != "completed"@,
        "in_progress"@ != "cancelled"@,
        "pending_judgement"@ != "completed"@,
        "pending_judgement"@ != "cancelled"@,
        "completed"@ != "cancelled"@,
{
    reveal_strlit("scheduled");
    reveal_strlit("in_progress");
    reveal_strlit("pending_judgement");
    reveal_strlit("completed");
    reveal_strlit("cancelled");
    assert("scheduled"@[0] == 's' && "in_progress"@[0] == 'i' && "pending_judgement"@[0] == 'p'
        && "completed"@[0] == 'c' && "cancelled"@[0] == 'c' && "completed"@[1] == 'o'
        && "cancelled"@[1] == 'a');
}

/// A completed session is done with: it is not judged, started, ended, completed or cancelled
/// again.
pub proof fn law_completed_is_final(
    db: LedgerView,
    id: Seq<char>,
    submissive_id: Seq<char>,
    keyholder_id: Seq<char>,
    j: JudgementView,
    ids: JudgementIdsView,
    safety_check_ok: Option<bool>,
    now: i64,
)
    requires
        session_completed(db, id) is Ok,
    ensures
        ({
            let after = session_completed(db, id)->Ok_0.0;
            &&& session_judged(after, id, submissive_id, keyholder_id, j, ids, now) == Err::<
                (LedgerView, PlaySessionView),
                JudgementError,
            >(JudgementError::AlreadyCompleted)
            &&& session_started(after, id, now) is Err
            &&& session_ended(after, id, safety_check_ok, now) is Err
            &&& session_completed(after, id) is Err
            &&& session_cancelled(after, id) is Err
        }),
{
    lemma_statuses();
    lemma_find_any(db.play_sessions, by_id(id));
    lemma_find_updated(db.play_sessions, by_id(id), by_id(id), in_status("completed"@));
}

/// A cancelled session does not run again.
pub proof fn law_cancelled_is_final(
    db: LedgerView,
    id: Seq<char>,
    safety_check_ok: Option<bool>,
    now: i64,
)
    requires
        session_cancelled(db, id) is Ok,
    ensures
        ({
            let after = session_cancelled(db, id)->Ok_0.0;
            &&& session_started(after, id, now) is Err
            &&& session_ended(after, id, safety_check_ok, now) is Err
            &&& session_completed(after, id) is Err
            &&& session_cancelled(after, id) is Err
        }),
{
    lemma_statuses();
    lemma_find_any(db.play_sessions, by_id(id));
    lemma_find_updated(db.play_sessions, by_id(id), by_id(id), in_status("cancelled"@));
}

/// A scheduled session that is started, ended and completed goes the whole way.
pub proof fn law_a_session_runs_its_course(
    db: LedgerView,
    id: Seq<char>,
    safety_check_ok: Option<bool>,
    start: i64,
    stop: i64,
)
    requires
        session_started(db, id, start) is Ok,
    ensures
        ({
            let running = session_started(db, id, start)->Ok_0.0;
            let over = session_ended(running, id, safety_check_ok, stop);
            &&& over is Ok
            &&& session_completed(over->Ok_0.0, id) is Ok
            &&& session_completed(over->Ok_0.0, id)->Ok_0.1.started_at == Some(start)
            &&& session_completed(over->Ok_0.0, id)->Ok_0.1.ended_at == Some(stop)
            &&& session_completed(over->Ok_0.0, id)->Ok_0.1.safety_check_ok == safety_check_ok
        }),
{
    lemma_find_any(db.play_sessions, by_id(id));
    lemma_find_updated(db.play_sessions, by_id(id), by_id(id), started(start));
    let running = session_started(db, id, start)->Ok_0.0;
    lemma_find_updated(running.play_sessions, by_id(id), by_id(id), over(safety_check_ok, stop));
}

/// Editing a template rewrites no session that was made from it.
pub proof fn law_templates_do_not_rewrite_sessions(
    db: LedgerView,
    id: Seq<char>,
    keyholder_id: Seq<char>,
    edit: TemplateEditView,
)
    ensures
        template_edited(db, id, keyholder_id, edit) matches Some(after) ==> after.play_sessions
            == db.play_sessions && after.play_schedule == db.play_schedule,
{
}

/// The check-ins of a session are planned one interval apart and all within its duration, and one
/// more would not fit.
pub proof fn law_slots_fit_the_duration(s: PlaySessionView, ids: Seq<Seq<char>>, k: int)
    requires
        s.checkin_template_id is Some,
        s.planned_duration_seconds matches Some(d) && d > 0,
        s.checkin_interval_seconds matches Some(i) && i > 0,
        0 <= k < slot_rows(s, ids).len(),
    ensures
        ({
            let slots = slot_rows(s, ids);
            let interval = s.checkin_interval_seconds->0;
            let duration = s.planned_duration_seconds->0;
            &&& slots[k].sequence_number == k + 1
            &&& slots[k].planned_offset_seconds == (k + 1) * interval
            &&& 0 < slots[k].planned_offset_seconds <= duration
            &&& (slots.len() + 1) * interval > duration
        }),
{
    let interval = s.checkin_interval_seconds->0 as int;
    let duration = s.planned_duration_seconds->0 as int;
    let n = duration / interval;
    assert(n * interval <= duration && (n + 1) * interval > duration) by (nonlinear_arith)
        requires
            interval > 0,
            duration > 0,
            n == duration / interval,
    ;
    assert(0 < (k + 1) * interval <= n * interval) by (nonlinear_arith)
        requires
            interval > 0,
            0 <= k < n,
    ;
    assert(n <= duration) by (nonlinear_arith)
        requires
            interval > 0,
            duration > 0,
            n * interval <= duration,
    ;
}

/// A session can be judged, and judged again, until it is completed, and not after that.
pub proof fn law_judged_until_completed(
    db: LedgerView,
    id: Seq<char>,
    submissive_id: Seq<char>,
    keyholder_id: Seq<char>,
    j: JudgementView,
    ids: JudgementIdsView,
    again: JudgementView,
    fresh: JudgementIdsView,
    now: i64,
    later: i64,
)
    requires
        find_row(db.play_sessions, by_id(id)) is Some,
    ensures
        ({
            let first = session_judged(db, id, submissive_id, keyholder_id, j, ids, now);
            let status = find_row(db.play_sessions, by_id(id))->0.status;
            &&& (first == Err::<(LedgerView, PlaySessionView), JudgementError>(
                JudgementError::AlreadyCompleted,
            )) == (status == "completed"@)
            &&& first matches Ok((after, s)) ==> s.status == status && session_judged(
                after,
                id,
                submissive_id,
                keyholder_id,
                again,
                fresh,
                later,
            ) != Err::<(LedgerView, PlaySessionView), JudgementError>(
                JudgementError::AlreadyCompleted,
            )
        }),
{
    let first = session_judged(db, id, submissive_id, keyholder_id, j, ids, now);
    if let Ok((after, s)) = first {
        let was = find_row(db.play_sessions, by_id(id))->0;
        lemma_find_any(db.play_sessions, by_id(id));
        lemma_find_updated(
            db.play_sessions,
            by_id(id),
            by_id(id),
            judged(
                or_else(j.judgement_notes, was.judgement_notes),
                s.reward_assignment_id,
                s.punishment_assignment_id,
            ),
        );
    }
}

/// A session starts as it was asked for, on its link: it takes from its template what was not said,
/// runs where it has a start, waits for judgement where it has an end too, and is scheduled
/// otherwise; nothing is judged yet. The template has to be the assigning Keyholder's own.
pub proof fn law_sessions_start_as_asked(
    db: LedgerView,
    new: NewSessionView,
    id: Seq<char>,
    slot_ids: Seq<Seq<char>>,
    now: i64,
    k: int,
)
    requires
        new.template_id is Some ==> only(
            db.play_templates,
            k,
            |t: TemplateView| t.id == new.template_id->0,
        ),
    ensures
        ({
            let t = db.play_templates[k];
            let templated = new.template_id is Some;
            match session_created(db, new, id, slot_ids, now) {
                Err(CreateError::TemplateNotFound) => templated && t.keyholder_id
                    != new.assigned_by_user_id,
                Err(CreateError::MissingTitle) => !templated && new.title is None,
                Err(CreateError::InvalidToy) => new.toy_ids.len() > 0,
                Ok((after, s)) => {
                    &&& templated ==> t.keyholder_id == new.assigned_by_user_id
                    &&& after == (LedgerView {
                        play_sessions: db.play_sessions.push(s),
                        play_session_toys: after.play_session_toys,
                        play_schedule: after.play_schedule,
                        ..db
                    })
                    &&& s.id == id && s.link_id == new.link_id && s.template_id == new.template_id
                    &&& new.title is Some ==> s.title == new.title->0
                    &&& new.title is None ==> templated && s.title == t.title
                    &&& s.setup_notes == (if new.setup_notes is None && templated {
                        t.setup_notes
                    } else {
                        new.setup_notes
                    })
                    &&& s.planned_duration_seconds == (if new.planned_duration_seconds is None
                        && templated {
                        t.planned_duration_seconds
                    } else {
                        new.planned_duration_seconds
                    })
                    &&& s.checkin_template_id == (if new.checkin_template_id is None
                        && templated {
                        t.checkin_template_id
                    } else {
                        new.checkin_template_id
                    })
                    &&& s.checkin_interval_seconds == (if new.checkin_interval_seconds is None
                        && templated {
                        t.checkin_interval_seconds
                    } else {
                        new.checkin_interval_seconds
                    })
                    &&& s.started_at == new.started_at && s.ended_at == new.ended_at
                    &&& new.started_at is None ==> s.status == "scheduled"@
                    &&& new.started_at is Some && new.ended_at is None ==> s.status
                        == "in_progress"@
                    &&& new.started_at is Some && new.ended_at is Some ==> s.status
                        == "pending_judgement"@
                    &&& s.assigned_by_user_id == new.assigned_by_user_id && s.assigned_at == now
                    &&& s.safety_check_ok is None && s.judgement_notes is None
                    &&& s.reward_assignment_id is None && s.punishment_assignment_id is None
                },
            }
        }),
{
    if new.template_id is Some {
        lemma_find_only(
            db.play_templates,
            k,
            |t: TemplateView| t.id == new.template_id->0,
            template_by_id(new.template_id->0),
        );
    }
}

/// A session takes the toys that were named, each once for each time it was named, and only the
/// submissive's own.
pub proof fn law_sessions_take_the_named_toys(
    db: LedgerView,
    new: NewSessionView,
    id: Seq<char>,
    slot_ids: Seq<Seq<char>>,
    now: i64,
)
    requires
        session_created(db, new, id, slot_ids, now) is Ok,
    ensures
        ({
            let (after, s) = session_created(db, new, id, slot_ids, now)->Ok_0;
            let before = db.play_session_toys.len() as int;
            &&& after.play_session_toys.len() == before + new.toy_ids.len()
            &&& forall|i: int|
                0 <= i < before ==> #[trigger] after.play_session_toys[i]
                    == db.play_session_toys[i]
            &&& forall|i: int|
                0 <= i < new.toy_ids.len() ==> {
                    &&& (#[trigger] after.play_session_toys[before + i]).session_id == id
                    &&& after.play_session_toys[before + i].toy_id == new.toy_ids[i]
                }
            &&& forall|i: int|
                0 <= i < new.toy_ids.len() ==> any_row(
                    db.toys,
                    |t: toys::ToyView|
                        t.id == #[trigger] new.toy_ids[i] && t.submissive_id == new.submissive_id,
                )
        }),
{
    assert forall|i: int| 0 <= i < new.toy_ids.len() implies any_row(
        db.toys,
        |t: toys::ToyView|
            t.id == #[trigger] new.toy_ids[i] && t.submissive_id == new.submissive_id,
    ) by {
        let p = |t: toys::ToyView|
            t.id == new.toy_ids[i] && t.submissive_id == new.submissive_id;
        assert(own_toy(db.toys, new.toy_ids[i], new.submissive_id));
        lemma_find_any(db.toys, toys::by_id(new.toy_ids[i]));
        let j = choose|j: int|
            0 <= j < db.toys.len() && toys::by_id(new.toy_ids[i])(#[trigger] db.toys[j])
                && find_row(db.toys, toys::by_id(new.toy_ids[i])) == Some(db.toys[j]);
        assert(p(db.toys[j]));
    }
}

/// A toy of somebody else, or of nobody, keeps a session from being made.
pub proof fn law_strange_toys_are_refused(
    db: LedgerView,
    new: NewSessionView,
    id: Seq<char>,
    slot_ids: Seq<Seq<char>>,
    now: i64,
    i: int,
)
    requires
        0 <= i < new.toy_ids.len(),
        forall|j: int|
            0 <= j < db.toys.len() ==> (#[trigger] db.toys[j]).id != new.toy_ids[i]
                || db.toys[j].submissive_id != new.submissive_id,
        new.template_id is None,
        new.title is Some,
    ensures
        session_created(db, new, id, slot_ids, now) == Err::<
            (LedgerView, PlaySessionView),
            CreateError,
        >(CreateError::InvalidToy),
{
    lemma_find_any(db.toys, toys::by_id(new.toy_ids[i]));
    assert(!own_toy(db.toys, new.toy_ids[i], new.submissive_id));
}

/// The check-ins of a session are spread over its duration: one after each full interval, as many
/// as fit, numbered from one, each at its multiple of the interval, open, with the session's form.
pub proof fn law_check_ins_come_at_every_interval(
    db: LedgerView,
    new: NewSessionView,
    id: Seq<char>,
    slot_ids: Seq<Seq<char>>,
    now: i64,
)
    requires
        session_created(db, new, id, slot_ids, now) is Ok,
    ensures
        ({
            let (after, s) = session_created(db, new, id, slot_ids, now)->Ok_0;
            let before = db.play_schedule.len() as int;
            let count = after.play_schedule.len() - before;
            let planned = s.checkin_template_id is Some && s.planned_duration_seconds is Some
                && s.checkin_interval_seconds is Some && s.planned_duration_seconds->0 > 0
                && s.checkin_interval_seconds->0 > 0;
            &&& count >= 0
            &&& !planned ==> count == 0
            &&& planned ==> {
                let d = s.planned_duration_seconds->0;
                let every = s.checkin_interval_seconds->0;
                &&& count * every <= d < (count + 1) * every
                &&& forall|i: int|
                    0 <= i < count ==> {
                        let slot = #[trigger] after.play_schedule[before + i];
                        &&& slot.id == slot_ids[i]
                        &&& slot.play_session_id == id
                        &&& slot.sequence_number == i + 1
                        &&& slot.planned_offset_seconds == (i + 1) * every
                        &&& Some(slot.checkin_template_id) == s.checkin_template_id
                        &&& slot.fulfilled_checkin_id is None
                    }
            }
            &&& forall|i: int|
                0 <= i < before ==> #[trigger] after.play_schedule[i] == db.play_schedule[i]
        }),
{
    let (after, s) = session_created(db, new, id, slot_ids, now)->Ok_0;
    let before = db.play_schedule.len() as int;
    if s.checkin_template_id is Some && s.planned_duration_seconds is Some
        && s.checkin_interval_seconds is Some && s.planned_duration_seconds->0 > 0
        && s.checkin_interval_seconds->0 > 0 {
        let d = s.planned_duration_seconds->0 as int;
        let every = s.checkin_interval_seconds->0 as int;
        let count = d / every;
        assert(count >= 0 && count * every <= d < (count + 1) * every && count <= d)
            by (nonlinear_arith)
            requires
                every > 0,
                d > 0,
                count == d / every,
        ;
        assert forall|i: int| 0 <= i < count implies (
        #[trigger] after.play_schedule[before + i]).planned_offset_seconds == (i + 1) * every by {
            assert(0 <= (i + 1) * every <= d) by (nonlinear_arith)
                requires
                    0 <= i,
                    i + 1 <= count,
                    every > 0,
                    count * every <= d,
            ;
        }
    }
}

/// A session is started once it is scheduled, ended while it runs, completed while it waits for
/// judgement, and cancelled before it is over. Each step changes the status and what the step is
/// about, of that session alone.
pub proof fn law_sessions_go_step_by_step(
    db: LedgerView,
    id: Seq<char>,
    safety_check_ok: Option<bool>,
    now: i64,
    k: int,
)
    requires
        only(db.play_sessions, k, |s: PlaySessionView| s.id == id),
    ensures
        ({
            let s = db.play_sessions[k];
            match session_started(db, id, now) {
                Err(e) => e == StartError::Conflict && s.status != "scheduled"@,
                Ok((after, now_is)) => {
                    &&& s.status == "scheduled"@
                    &&& now_is == (PlaySessionView {
                        status: "in_progress"@,
                        started_at: Some(now),
                        ..s
                    })
                    &&& after == (LedgerView {
                        play_sessions: db.play_sessions.update(k, now_is),
                        ..db
                    })
                },
            }
        }),
        ({
            let s = db.play_sessions[k];
            match session_ended(db, id, safety_check_ok, now) {
                Err(e) => e == EndError::Conflict && s.status != "in_progress"@,
                Ok((after, now_is)) => {
                    &&& s.status == "in_progress"@
                    &&& now_is == (PlaySessionView {
                        status: "pending_judgement"@,
                        ended_at: Some(now),
                        safety_check_ok,
                        ..s
                    })
                    &&& after == (LedgerView {
                        play_sessions: db.play_sessions.update(k, now_is),
                        ..db
                    })
                },
            }
        }),
        ({
            let s = db.play_sessions[k];
            match session_completed(db, id) {
                Err(e) => e == CompleteError::Conflict && s.status != "pending_judgement"@,
                Ok((after, now_is)) => {
                    &&& s.status == "pending_judgement"@
                    &&& now_is == (PlaySessionView { status: "completed"@, ..s })
                    &&& after == (LedgerView {
                        play_sessions: db.play_sessions.update(k, now_is),
                        ..db
                    })
                },
            }
        }),
        ({
            let s = db.play_sessions[k];
            match session_cancelled(db, id) {
                Err(e) => e == CancelError::Conflict && s.status != "scheduled"@ && s.status
                    != "in_progress"@,
                Ok((after, now_is)) => {
                    &&& s.status == "scheduled"@ || s.status == "in_progress"@
                    &&& now_is == (PlaySessionView { status: "cancelled"@, ..s })
                    &&& after == (LedgerView {
                        play_sessions: db.play_sessions.update(k, now_is),
                        ..db
                    })
                },
            }
        }),
{
    let named = |s: PlaySessionView| s.id == id;
    lemma_find_only(db.play_sessions, k, named, by_id(id));
    assert forall|j: int| 0 <= j < db.play_sessions.len() && j != k implies (
    #[trigger] db.play_sessions[j]).id != id by {
        assert(!named(db.play_sessions[j]));
    }
}

/// A session that is not there is not found.
pub proof fn law_no_session_no_step(
    db: LedgerView,
    id: Seq<char>,
    safety_check_ok: Option<bool>,
    now: i64,
)
    requires
        forall|j: int|
            0 <= j < db.play_sessions.len() ==> (#[trigger] db.play_sessions[j]).id != id,
    ensures
        session_started(db, id, now) == Err::<(LedgerView, PlaySessionView), StartError>(
            StartError::NotFound,
        ),
        session_ended(db, id, safety_check_ok, now) == Err::<
            (LedgerView, PlaySessionView),
            EndError,
        >(EndError::NotFound),
        session_completed(db, id) == Err::<(LedgerView, PlaySessionView), CompleteError>(
            CompleteError::NotFound,
        ),
        session_cancelled(db, id) == Err::<(LedgerView, PlaySessionView), CancelError>(
            CancelError::NotFound,
        ),
{
    lemma_find_any(db.play_sessions, by_id(id));
}

/// A judgement hands out its reward as a reward and its punishment as a punishment, in that order,
/// each on the session's link and pointing to the session; the session points back, and to what it
/// pointed to before where nothing new was handed out. Notes are replaced where new ones are given.
pub proof fn law_judgement_hands_out_its_consequences(
    db: LedgerView,
    id: Seq<char>,
    submissive_id: Seq<char>,
    keyholder_id: Seq<char>,
    j: JudgementView,
    ids: JudgementIdsView,
    now: i64,
    k: int,
)
    requires
        only(db.play_sessions, k, |s: PlaySessionView| s.id == id),
    ensures
        ({
            let s = db.play_sessions[k];
            match session_judged(db, id, submissive_id, keyholder_id, j, ids, now) {
                Err(JudgementError::NotFound) => false,
                Err(JudgementError::AlreadyCompleted) => s.status == "completed"@,
                Err(_) => s.status != "completed"@ && (j.reward is Some || j.punishment is Some),
                Ok((after, now_is)) => {
                    let first = db.assignments.len() as int;
                    let second = first + (if j.reward is Some {
                        1int
                    } else {
                        0
                    });
                    &&& s.status != "completed"@
                    &&& after.play_sessions == db.play_sessions.update(k, now_is)
                    &&& now_is == (PlaySessionView {
                        judgement_notes: if j.judgement_notes is Some {
                            j.judgement_notes
                        } else {
                            s.judgement_notes
                        },
                        reward_assignment_id: if j.reward is Some {
                            Some(ids.reward)
                        } else {
                            s.reward_assignment_id
                        },
                        punishment_assignment_id: if j.punishment is Some {
                            Some(ids.punishment)
                        } else {
                            s.punishment_assignment_id
                        },
                        ..s
                    })
                    &&& after.assignments.len() == second + (if j.punishment is Some {
                        1int
                    } else {
                        0
                    })
                    &&& forall|i: int|
                        0 <= i < first ==> #[trigger] after.assignments[i] == db.assignments[i]
                    &&& j.reward is Some ==> handed_out(
                        after.assignments[first],
                        "reward"@,
                        j.reward->0,
                        ids.reward,
                        s,
                        keyholder_id,
                        now,
                    )
                    &&& j.punishment is Some ==> handed_out(
                        after.assignments[second],
                        "punishment"@,
                        j.punishment->0,
                        ids.punishment,
                        s,
                        keyholder_id,
                        now,
                    )
                },
            }
        }),
{
    let named = |s: PlaySessionView| s.id == id;
    lemma_find_only(db.play_sessions, k, named, by_id(id));
    assert forall|i: int| 0 <= i < db.play_sessions.len() && i != k implies (
    #[trigger] db.play_sessions[i]).id != id by {
        assert(!named(db.play_sessions[i]));
    }
}

/// An assignment that stands for a consequence of a session.
pub open spec fn handed_out(
    a: assignments::AssignmentView,
    kind: Seq<char>,
    c: JudgementConsequenceView,
    id: Seq<char>,
    s: PlaySessionView,
    keyholder_id: Seq<char>,
    now: i64,
) -> bool {
    &&& a.id == id && a.link_id == s.link_id && a.kind == kind
    &&& a.template_id == c.template_id
    &&& c.title is Some ==> a.title == c.title->0
    &&& c.description is Some ==> a.description == c.description
    &&& c.effect_kind is Some ==> a.effect_kind == c.effect_kind
    &&& c.time_extension_seconds is Some ==> a.time_extension_seconds == c.time_extension_seconds
    &&& c.time_reduction_seconds is Some ==> a.time_reduction_seconds == c.time_reduction_seconds
    &&& c.points_delta is Some ==> a.points_delta == c.points_delta
    &&& a.triggered_by_play_session_id == Some(s.id)
    &&& a.assigned_by_user_id == Some(keyholder_id)
    &&& a.assigned_via == "session"@
    &&& a.assigned_at == now
}

/// A check-in fills the open slot of its session that comes first, and no slot of any other session.
pub proof fn law_the_first_open_slot_is_filled(
    schedule: Seq<ScheduleSlotView>,
    session_id: Seq<char>,
    slot: ScheduleSlotView,
    checkin_id: Seq<char>,
    k: int,
)
    requires
        earliest_open(schedule, session_id, slot),
        0 <= k < schedule.len(),
    ensures
        schedule.contains(slot),
        slot.play_session_id == session_id,
        slot.fulfilled_checkin_id is None,
        schedule[k].play_session_id == session_id && schedule[k].fulfilled_checkin_id is None
            ==> slot.sequence_number <= schedule[k].sequence_number,
        ({
            let after = updated(schedule, slot_by_id(slot.id), fulfilled_by(checkin_id));
            &&& after.len() == schedule.len()
            &&& schedule[k].id == slot.id ==> after[k] == (ScheduleSlotView {
                fulfilled_checkin_id: Some(checkin_id),
                ..schedule[k]
            })
            &&& schedule[k].id != slot.id ==> after[k] == schedule[k]
        }),
{
    let p = open_slot(session_id);
    lemma_filter_contains(schedule, p, slot);
    lemma_filter_contains(schedule, p, schedule[k]);
    let open = schedule.filter(p);
    if p(schedule[k]) {
        let i = choose|i: int| 0 <= i < open.len() && open[i] == schedule[k];
        assert(slot.sequence_number <= open[i].sequence_number);
    }
}

/// There is a slot to fill exactly where the session has one that nothing has filled.
pub proof fn law_a_slot_is_open_until_filled(schedule: Seq<ScheduleSlotView>, session_id: Seq<char>)
    ensures
        any_row(schedule, open_slot(session_id)) <==> exists|k: int|
            0 <= k < schedule.len() && (#[trigger] schedule[k]).play_session_id == session_id
                && schedule[k].fulfilled_checkin_id is None,
{
    let p = open_slot(session_id);
    if any_row(schedule, p) {
        let k = choose|k: int| 0 <= k < schedule.len() && p(#[trigger] schedule[k]);
        assert(schedule[k].play_session_id == session_id);
    }
    if exists|k: int|
        0 <= k < schedule.len() && (#[trigger] schedule[k]).play_session_id == session_id
            && schedule[k].fulfilled_checkin_id is None {
        let k = choose|k: int|
            0 <= k < schedule.len() && (#[trigger] schedule[k]).play_session_id == session_id
                && schedule[k].fulfilled_checkin_id is None;
        assert(p(schedule[k]));
    }
}

/// A template starts active, as it was asked for; an edit by its Keyholder replaces what is given
/// and keeps the rest, of that template alone; nobody else edits it.
pub proof fn law_templates_are_edited_field_by_field(
    db: LedgerView,
    id: Seq<char>,
    keyholder_id: Seq<char>,
    edit: TemplateEditView,
    k: int,
)
    requires
        only(db.play_templates, k, |t: TemplateView| t.id == id),
    ensures
        ({
            let t = db.play_templates[k];
            match template_edited(db, id, keyholder_id, edit) {
                None => t.keyholder_id != keyholder_id,
                Some(after) => {
                    let e = after.play_templates[k];
                    &&& t.keyholder_id == keyholder_id
                    &&& after == (LedgerView {
                        play_templates: db.play_templates.update(k, e),
                        ..db
                    })
                    &&& e.id == t.id && e.keyholder_id == t.keyholder_id && e.created_at
                        == t.created_at
                    &&& e.title == (if edit.title is Some {
                        edit.title->0
                    } else {
                        t.title
                    })
                    &&& e.setup_notes == (if edit.setup_notes is Some {
                        edit.setup_notes->0
                    } else {
                        t.setup_notes
                    })
                    &&& e.suggested_toy_categories == (if edit.suggested_toy_categories is Some {
                        edit.suggested_toy_categories->0
                    } else {
                        t.suggested_toy_categories
                    })
                    &&& e.planned_duration_seconds == (if edit.planned_duration_seconds is Some {
                        edit.planned_duration_seconds->0
                    } else {
                        t.planned_duration_seconds
                    })
                    &&& e.checkin_template_id == (if edit.checkin_template_id is Some {
                        edit.checkin_template_id->0
                    } else {
                        t.checkin_template_id
                    })
                    &&& e.checkin_interval_seconds == (if edit.checkin_interval_seconds is Some {
                        edit.checkin_interval_seconds->0
                    } else {
                        t.checkin_interval_seconds
                    })
                    &&& e.active == (if edit.active is Some {
                        edit.active->0
                    } else {
                        t.active
                    })
                },
            }
        }),
{
    let named = |t: TemplateView| t.id == id;
    lemma_find_only(db.play_templates, k, named, template_by_id(id));
    assert forall|j: int| 0 <= j < db.play_templates.len() && j != k implies (
    #[trigger] db.play_templates[j]).id != id by {
        assert(!named(db.play_templates[j]));
    }
}

/// A template as it is created.
pub proof fn law_templates_start_active(id: Seq<char>, new: NewTemplateView, now: i64)
    ensures
        ({
            let t = new_template(id, new, now);
            &&& t.active && t.id == id && t.created_at == now && t.keyholder_id == new.keyholder_id
            &&& t.title == new.title && t.setup_notes == new.setup_notes
            &&& t.suggested_toy_categories == new.suggested_toy_categories
            &&& t.planned_duration_seconds == new.planned_duration_seconds
            &&& t.checkin_template_id == new.checkin_template_id
            &&& t.checkin_interval_seconds == new.checkin_interval_seconds
        }),
{
}

/// Lists hold what they are asked for, whole: a link's sessions, the latest first, a Keyholder's
/// templates, the latest first, and a session's slots in their sequence.
pub proof fn law_sessions_are_listed_whole(
    listed: Seq<PlaySessionView>,
    sessions: Seq<PlaySessionView>,
    link_id: Seq<char>,
    status: Option<Seq<char>>,
    slots: Seq<ScheduleSlotView>,
    schedule: Seq<ScheduleSlotView>,
    session_id: Seq<char>,
    own: Seq<TemplateView>,
    templates: Seq<TemplateView>,
    keyholder_id: Seq<char>,
)
    requires
        ordered_from(listed, sessions.filter(on_link(link_id, status)), newest_first()),
        ordered_from(slots, schedule.filter(slot_of(session_id)), in_sequence()),
        ordered_from(own, templates.filter(of_keyholder(keyholder_id)), newest_template_first()),
    ensures
        forall|s: PlaySessionView| #[trigger]
            listed.contains(s) <==> sessions.contains(s) && s.link_id == link_id && (
            status is Some ==> s.status == status->0),
        forall|i: int, j: int|
            0 <= i < j < listed.len() ==> (#[trigger] listed[i]).assigned_at >= (
            #[trigger] listed[j]).assigned_at,
        forall|s: ScheduleSlotView| #[trigger]
            slots.contains(s) <==> schedule.contains(s) && s.play_session_id == session_id,
        forall|i: int, j: int|
            0 <= i < j < slots.len() ==> (#[trigger] slots[i]).sequence_number <= (
            #[trigger] slots[j]).sequence_number,
        forall|t: TemplateView| #[trigger]
            own.contains(t) <==> templates.contains(t) && t.keyholder_id == keyholder_id,
        forall|i: int, j: int|
            0 <= i < j < own.len() ==> (#[trigger] own[i]).created_at >= (
            #[trigger] own[j]).created_at,
{
    lemma_listed(listed, sessions, on_link(link_id, status), newest_first());
    lemma_listed(slots, schedule, slot_of(session_id), in_sequence());
    lemma_listed(own, templates, of_keyholder(keyholder_id), newest_template_first());
}

/// The toys of a session are those of its rows, and of no others.
pub proof fn law_a_sessions_toys_are_its_own(
    taken: Seq<SessionToyView>,
    session_id: Seq<char>,
    toy_id: Seq<char>,
)
    ensures
        taken.filter(in_session(session_id)).map_values(|t: SessionToyView| t.toy_id).contains(
            toy_id,
        ) <==> exists|k: int|
            0 <= k < taken.len() && (#[trigger] taken[k]).session_id == session_id
                && taken[k].toy_id == toy_id,
{
    let f = taken.filter(in_session(session_id));
    let ids = f.map_values(|t: SessionToyView| t.toy_id);
    if ids.contains(toy_id) {
        let i = choose|i: int| 0 <= i < ids.len() && ids[i] == toy_id;
        assert(f.contains(f[i]));
        lemma_filter_contains(taken, in_session(session_id), f[i]);
        let k = choose|k: int| 0 <= k < taken.len() && taken[k] == f[i];
        assert(taken[k].session_id == session_id);
    }
    if exists|k: int|
        0 <= k < taken.len() && (#[trigger] taken[k]).session_id == session_id && taken[k].toy_id
            == toy_id {
        let k = choose|k: int|
            0 <= k < taken.len() && (#[trigger] taken[k]).session_id == session_id
                && taken[k].toy_id == toy_id;
        lemma_filter_contains(taken, in_session(session_id), taken[k]);
        let i = choose|i: int| 0 <= i < f.len() && f[i] == taken[k];
        assert(ids[i] == toy_id);
    }
}

} // verus!
