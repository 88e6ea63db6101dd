//! Rules that spawn a task again and again. A spawned task is an ordinary assignment but for the
//! rule that it names, so deadlines, proofs and points treat it like any other.

use vstd::prelude::*;

use crate::arith::fits;
use crate::clock::{
    clock_seconds, has_weekday, parse_hh_mm, second_of_day, split_day, weekday, weekday_of,
};
use crate::domain::links;
use crate::domain::rewards_punishments::{assignments, templates};
use crate::domain::rewards_punishments::assignments::{Assignment, AssignmentView};
use crate::ids::{is_id, new_id};
use crate::json::{lookup, member, object_fields, read_object, Field, FieldView};
use crate::ledger::{Ledger, LedgerView};
use crate::table::{
    any, any_row, find, find_row, insert, lemma_any_same, lemma_filter_contains, lemma_filter_meets,
    lemma_filter_sole, lemma_find_any, lemma_find_only, lemma_find_sole, lemma_find_updated,
    lemma_listed, only, order, ordered_from, rows, select, sole, updated, Row,
};
use crate::text::{edited, opt_is, or_keep, own, same};

verus! {

/// A rule that spawns a task again and again.
#[derive(Debug, PartialEq, Eq)]
pub struct Rule {
    pub id: String,
    pub link_id: String,
    pub template_id: String,
    pub recurrence_kind: String,
    pub recurrence_value: String,
    pub allow_overlap: bool,
    pub active: bool,
    pub next_due_at: i64,
    pub created_by_user_id: String,
    pub created_at: i64,
}

/// What a `Rule` holds.
#[verifier::ext_equal]
pub struct RuleView {
    pub id: Seq<char>,
    pub link_id: Seq<char>,
    pub template_id: Seq<char>,
    pub recurrence_kind: Seq<char>,
    pub recurrence_value: Seq<char>,
    pub allow_overlap: bool,
    pub active: bool,
    pub next_due_at: i64,
    pub created_by_user_id: Seq<char>,
    pub created_at: i64,
}

impl View for Rule {
    type V = RuleView;

    open spec fn view(&self) -> RuleView {
        RuleView {
            id: self.id@,
            link_id: self.link_id@,
            template_id: self.template_id@,
            recurrence_kind: self.recurrence_kind@,
            recurrence_value: self.recurrence_value@,
            allow_overlap: self.allow_overlap,
            active: self.active,
            next_due_at: self.next_due_at,
            created_by_user_id: self.created_by_user_id@,
            created_at: self.created_at,
        }
    }
}

impl DeepView for Rule {
    type V = RuleView;

    open spec fn deep_view(&self) -> RuleView {
        self.view()
    }
}

impl Row for Rule {
    fn dup(&self) -> (r: Self) {
        Rule {
            id: self.id.clone(),
            link_id: self.link_id.clone(),
            template_id: self.template_id.clone(),
            recurrence_kind: self.recurrence_kind.clone(),
            recurrence_value: self.recurrence_value.clone(),
            allow_overlap: self.allow_overlap,
            active: self.active,
            next_due_at: self.next_due_at,
            created_by_user_id: self.created_by_user_id.clone(),
            created_at: self.created_at,
        }
    }
}

/// What a new rule is made from.
#[derive(Debug, PartialEq, Eq)]
pub struct NewRule<'a> {
    pub link_id: &'a str,
    pub keyholder_id: &'a str,
    pub template_id: &'a str,
    pub recurrence_kind: &'a str,
    pub recurrence_value: &'a str,
    pub allow_overlap: bool,
}

/// What a `NewRule` holds.
#[verifier::ext_equal]
pub struct NewRuleView {
    pub link_id: Seq<char>,
    pub keyholder_id: Seq<char>,
    pub template_id: Seq<char>,
    pub recurrence_kind: Seq<char>,
    pub recurrence_value: Seq<char>,
    pub allow_overlap: bool,
}

impl<'a> View for NewRule<'a> {
    type V = NewRuleView;

    open spec fn view(&self) -> NewRuleView {
        NewRuleView {
            link_id: self.link_id@,
            keyholder_id: self.keyholder_id@,
            template_id: self.template_id@,
            recurrence_kind: self.recurrence_kind@,
            recurrence_value: self.recurrence_value@,
            allow_overlap: self.allow_overlap,
        }
    }
}

/// A partial edit.
#[derive(Debug, PartialEq, Eq)]
pub struct RuleEdit<'a> {
    pub recurrence_kind: Option<&'a str>,
    pub recurrence_value: Option<&'a str>,
    pub allow_overlap: Option<bool>,
    pub active: Option<bool>,
}

/// What a `RuleEdit` holds.
#[verifier::ext_equal]
pub struct RuleEditView {
    pub recurrence_kind: Option<Seq<char>>,
    pub recurrence_value: Option<Seq<char>>,
    pub allow_overlap: Option<bool>,
    pub active: Option<bool>,
}

impl<'a> View for RuleEdit<'a> {
    type V = RuleEditView;

    open spec fn view(&self) -> RuleEditView {
        RuleEditView {
            recurrence_kind: self.recurrence_kind.deep_view(),
            recurrence_value: self.recurrence_value.deep_view(),
            allow_overlap: self.allow_overlap,
            active: self.active,
        }
    }
}

impl RuleEditView {
    /// Nothing set.
    pub open spec fn blank() -> RuleEditView {
        RuleEditView {
            recurrence_kind: None,
            recurrence_value: None,
            allow_overlap: None,
            active: None,
        }
    }
}

impl<'a> Default for RuleEdit<'a> {
    fn default() -> (r: Self)
        ensures
            r@ == RuleEditView::blank(),
    {
        RuleEdit {
            recurrence_kind: None,
            recurrence_value: None,
            allow_overlap: None,
            active: None,
        }
    }
}

/// A task that a rule spawned.
#[derive(Debug, PartialEq, Eq)]
pub struct SpawnedTask {
    pub keyholder_id: String,
    pub submissive_id: String,
    pub link_id: String,
    pub assignment: Assignment,
}

/// What a `SpawnedTask` holds.
#[verifier::ext_equal]
pub struct SpawnedTaskView {
    pub keyholder_id: Seq<char>,
    pub submissive_id: Seq<char>,
    pub link_id: Seq<char>,
    pub assignment: AssignmentView,
}

impl View for SpawnedTask {
    type V = SpawnedTaskView;

    open spec fn view(&self) -> SpawnedTaskView {
        SpawnedTaskView {
            keyholder_id: self.keyholder_id@,
            submissive_id: self.submissive_id@,
            link_id: self.link_id@,
            assignment: self.assignment@,
        }
    }
}

impl DeepView for SpawnedTask {
    type V = SpawnedTaskView;

    open spec fn deep_view(&self) -> SpawnedTaskView {
        self.view()
    }
}

/// The rule has this id.
pub open spec fn by_id(id: Seq<char>) -> spec_fn(RuleView) -> bool {
    |r: RuleView| r.id == id
}

/// The rule with this id.
pub fn get(db: &Ledger, id: &str) -> (r: Option<Rule>)
    ensures
        r.deep_view() == find_row(db@.recurring_rules, by_id(id@)),
{
    let ghost p = by_id(id@);
    let test = |r: &Rule| -> (b: bool)
        ensures
            b == p(r@),
        { same(r.id.as_str(), id) };
    match find(&db.recurring_rules, Ghost(p), test) {
        Some(r) => Some(r.dup()),
        None => None,
    }
}

/// A rule of this link.
pub open spec fn of_link(link_id: Seq<char>) -> spec_fn(RuleView) -> bool {
    |r: RuleView| r.link_id == link_id
}

/// Newest first.
pub open spec fn newest_first() -> spec_fn(RuleView, RuleView) -> bool {
    |a: RuleView, b: RuleView| a.created_at >= b.created_at
}

/// A link's rules, newest first.
pub fn list_for_link(db: &Ledger, link_id: &str) -> (r: Vec<Rule>)
    ensures
        ordered_from(rows(r@), db@.recurring_rules.filter(of_link(link_id@)), newest_first()),
{
    let ghost p = of_link(link_id@);
    let ghost le = newest_first();
    let test = |r: &Rule| -> (b: bool)
        ensures
            b == p(r@),
        { same(r.link_id.as_str(), link_id) };
    let before = |a: &Rule, b: &Rule| -> (c: bool)
        ensures
            c == le(a@, b@),
        { a.created_at >= b.created_at };
    order(select(&db.recurring_rules, Ghost(p), test), Ghost(le), before)
}

/// The seconds since midnight that a text `h:m` stands for.
pub fn seconds_since_midnight(hh_mm: &str) -> (r: Option<i64>)
    ensures
        r == clock_seconds(hh_mm@),
{
    parse_hh_mm(hh_mm)
}

/// The number of a weekday, `0` for Monday to `6` for Sunday.
pub open spec fn day_number(day: Seq<char>) -> Option<u32> {
    if day == "mon"@ {
        Some(0)
    } else if day == "tue"@ {
        Some(1)
    } else if day == "wed"@ {
        Some(2)
    } else if day == "thu"@ {
        Some(3)
    } else if day == "fri"@ {
        Some(4)
    } else if day == "sat"@ {
        Some(5)
    } else if day == "sun"@ {
        Some(6)
    } else {
        None
    }
}

/// The number of a weekday.
pub fn weekday_index(day: &str) -> (r: Option<u32>)
    ensures
        r == day_number(day@),
{
    if same(day, "mon") {
        Some(0)
    } else if same(day, "tue") {
        Some(1)
    } else if same(day, "wed") {
        Some(2)
    } else if same(day, "thu") {
        Some(3)
    } else if same(day, "fri") {
        Some(4)
    } else if same(day, "sat") {
        Some(5)
    } else if same(day, "sun") {
        Some(6)
    } else {
        None
    }
}

/// The numbers of the weekdays in a list; what is not a weekday is passed over.
pub open spec fn listed_days(texts: Seq<Option<Seq<char>>>) -> Seq<u32>
    decreases texts.len(),
{
    if texts.len() == 0 {
        Seq::empty()
    } else {
        let rest = listed_days(texts.drop_last());
        match texts.last() {
            Some(t) => match day_number(t) {
                Some(d) => rest.push(d),
                None => rest,
            },
            None => rest,
        }
    }
}

/// The numbers of the weekdays in a list.
fn days_of(texts: &Vec<Option<String>>) -> (r: Vec<u32>)
    ensures
        r@ == listed_days(texts.deep_view()),
{
    let mut out: Vec<u32> = Vec::new();
    let mut i: usize = 0;
    assert(texts.deep_view().take(0) =~= Seq::empty());
    while i < texts.len()
        invariant
            i <= texts@.len(),
            out@ == listed_days(texts.deep_view().take(i as int)),
        decreases texts@.len() - i,
    {
        assert(texts.deep_view()[i as int] == texts@[i as int].deep_view());
        assert(texts.deep_view().take(i + 1).drop_last() =~= texts.deep_view().take(i as int));
        if let Some(t) = &texts[i] {
            if let Some(d) = weekday_index(t.as_str()) {
                out.push(d);
            }
        }
        i = i + 1;
    }
    assert(texts.deep_view().take(i as int) =~= texts.deep_view());
    out
}

/// A member of a rule's value, where it is a text.
pub open spec fn text_in(fields: Seq<(Seq<char>, FieldView)>, key: Seq<char>) -> Option<Seq<char>> {
    match member(fields, key) {
        Some(FieldView::Text(t)) => Some(t),
        _ => None,
    }
}

/// The first time from `from` on that lies `target` seconds past a midnight, today's or a later
/// one's.
pub open spec fn next_slot(target: int, from: int) -> int {
    let today = from - from % 86400 + target;
    if today >= from {
        today
    } else {
        today + (from - today + 86399) / 86400 * 86400
    }
}

/// The first of `tries` times, a day apart from `at` on, that falls on one of these weekdays.
pub open spec fn first_on(days: Seq<u32>, at: int, tries: nat) -> Option<i64>
    decreases tries,
{
    if tries == 0 {
        None
    } else if fits(at) && has_weekday(at as i64) && days.contains(weekday_of(at as i64)) {
        Some(at as i64)
    } else {
        first_on(days, at + 86400, (tries - 1) as nat)
    }
}

/// The number, where it fits in 64 bits.
pub open spec fn in_range(x: int) -> Option<i64> {
    if fits(x) {
        Some(x as i64)
    } else {
        None
    }
}

/// The first time from `from` on that a rule of this kind schedules, given the members of its
/// value; `None` where they do not make a schedule, or the time does not fit in 64 bits.
pub open spec fn scheduled(
    kind: Seq<char>,
    fields: Option<Seq<(Seq<char>, FieldView)>>,
    from: i64,
) -> Option<i64> {
    match fields {
        None => None,
        Some(fields) => if kind == "interval_hours"@ {
            match member(fields, "hours"@) {
                Some(FieldView::Number(Some(hours))) => if hours <= 0 {
                    None
                } else {
                    in_range(from + hours * 3600)
                },
                _ => None,
            }
        } else if kind == "daily"@ {
            match text_in(fields, "time"@) {
                Some(time) => match clock_seconds(time) {
                    Some(target) => in_range(next_slot(target as int, from as int)),
                    None => None,
                },
                None => None,
            }
        } else if kind == "weekly_days"@ {
            match (text_in(fields, "time"@), member(fields, "days"@)) {
                (Some(time), Some(FieldView::List(texts))) => match clock_seconds(time) {
                    Some(target) => first_on(
                        listed_days(texts),
                        next_slot(target as int, from as int),
                        8,
                    ),
                    None => None,
                },
                _ => None,
            }
        } else {
            None
        },
    }
}

/// Whether a list holds a weekday.
fn holds_day(days: &Vec<u32>, day: u32) -> (r: bool)
    ensures
        r == days@.contains(day),
{
    let mut i: usize = 0;
    while i < days.len()
        invariant
            i <= days@.len(),
            forall|j: int| 0 <= j < i ==> days@[j] != day,
        decreases days@.len() - i,
    {
        if days[i] == day {
            return true;
        }
        i = i + 1;
    }
    false
}

/// A wider number, where it fits in 64 bits.
fn narrowed(x: i128) -> (r: Option<i64>)
    ensures
        r == in_range(x as int),
{
    if -0x8000_0000_0000_0000i128 <= x && x <= 0x7fff_ffff_ffff_ffffi128 {
        Some(x as i64)
    } else {
        None
    }
}

/// The first time from `from` on that lies `target` seconds past a midnight.
fn slot_after(target: i64, from: i64) -> (r: i128)
    ensures
        r == next_slot(target as int, from as int),
        -0x2_0000_0000_0000_0000 < r < 0x2_0000_0000_0000_0000,
{
    let (_, second) = split_day(from);
    let today: i128 = from as i128 - second as i128 + target as i128;
    if today >= from as i128 {
        today
    } else {
        today + (from as i128 - today + 86399) / 86400 * 86400
    }
}

/// The first of seven times, a day apart from `at` on, that falls on one of these weekdays.
fn weekly_slot(days: &Vec<u32>, at: i128) -> (r: Option<i64>)
    requires
        -0x2_0000_0000_0000_0000 < at < 0x2_0000_0000_0000_0000,
    ensures
        r == first_on(days@, at as int, 8),
{
    let mut tries: u32 = 8;
    let mut next: i128 = at;
    while tries > 0
        invariant
            tries <= 8,
            -0x2_0000_0000_0000_0000 < at < 0x2_0000_0000_0000_0000,
            next == at + (8 - tries) * 86400,
            first_on(days@, at as int, 8) == first_on(days@, next as int, tries as nat),
        decreases tries,
    {
        if let Some(t) = narrowed(next) {
            if let Some(day) = weekday(t) {
                if holds_day(days, day) {
                    return Some(t);
                }
            }
        }
        next = next + 86400;
        tries = tries - 1;
    }
    None
}

/// The time of day in a rule's value.
fn time_of(fields: &Vec<(String, Field)>) -> (r: Option<i64>)
    ensures
        r == (match text_in(fields.deep_view(), "time"@) {
            Some(time) => clock_seconds(time),
            None => None,
        }),
{
    match lookup(fields, "time") {
        Some(Field::Text(t)) => seconds_since_midnight(t.as_str()),
        _ => None,
    }
}

/// The first time from `from` on that a rule of this kind schedules, given the members of its
/// value.
pub fn next_occurrence_by(kind: &str, fields: &Option<Vec<(String, Field)>>, from: i64) -> (r:
    Option<i64>)
    ensures
        r == scheduled(kind@, fields.deep_view(), from),
{
    let fields = match fields {
        Some(f) => f,
        None => {
            return None;
        },
    };
    if same(kind, "interval_hours") {
        match lookup(fields, "hours") {
            Some(Field::Number(Some(hours))) => if *hours <= 0 {
                None
            } else {
                narrowed(from as i128 + *hours as i128 * 3600)
            },
            _ => None,
        }
    } else if same(kind, "daily") {
        match time_of(fields) {
            Some(target) => narrowed(slot_after(target, from)),
            None => None,
        }
    } else if same(kind, "weekly_days") {
        match time_of(fields) {
            Some(target) => match lookup(fields, "days") {
                Some(Field::List(texts)) => weekly_slot(&days_of(texts), slot_after(target, from)),
                _ => None,
            },
            None => None,
        }
    } else {
        None
    }
}

/// The first time from `from` on that a rule schedules. Times of day are in UTC.
pub fn next_occurrence(kind: &str, value: &str, from: i64) -> (r: Option<i64>)
    ensures
        r == scheduled(kind@, object_fields(value@), from),
{
    next_occurrence_by(kind, &read_object(value), from)
}

/// Why a rule was not stored.
#[derive(Clone, Copy, Debug, PartialEq, Eq, Structural)]
pub enum RuleError {
    /// There is no such template, or it is another Keyholder's.
    TemplateNotFound,
    /// The template is a reward or a punishment.
    NotATaskTemplate,
    /// The kind and the value do not make a schedule.
    InvalidRecurrence,
}

/// A rule as it is created: active.
pub open spec fn new_row(id: Seq<char>, new: NewRuleView, next_due_at: i64, now: i64) -> RuleView {
    RuleView {
        id,
        link_id: new.link_id,
        template_id: new.template_id,
        recurrence_kind: new.recurrence_kind,
        recurrence_value: new.recurrence_value,
        allow_overlap: new.allow_overlap,
        active: true,
        next_due_at,
        created_by_user_id: new.keyholder_id,
        created_at: now,
    }
}

/// The ledger after a rule was created, given when it first falls due.
pub open spec fn created(
    db: LedgerView,
    new: NewRuleView,
    next: Option<i64>,
    id: Seq<char>,
    now: i64,
) -> Result<LedgerView, RuleError> {
    match find_row(db.templates, templates::by_id(new.template_id)) {
        None => Err(RuleError::TemplateNotFound),
        Some(t) => if t.keyholder_id != new.keyholder_id {
            Err(RuleError::TemplateNotFound)
        } else if t.kind != "task"@ {
            Err(RuleError::NotATaskTemplate)
        } else {
            match next {
                None => Err(RuleError::InvalidRecurrence),
                Some(next_due_at) => Ok(
                    LedgerView {
                        recurring_rules: db.recurring_rules.push(
                            new_row(id, new, next_due_at, now),
                        ),
                        ..db
                    },
                ),
            }
        },
    }
}

/// Creates a rule, given when it first falls due; its id.
pub fn create_with(db: &mut Ledger, new: NewRule, next: Option<i64>, now: i64) -> (r: Result<
    String,
    RuleError,
>)
    ensures
        exists|id: Seq<char>|
            is_id(id) && match #[trigger] created(old(db)@, new@, next, id, now) {
                Ok(after) => r is Ok && r->Ok_0@ == id && final(db)@ == after,
                Err(e) => r == Err::<String, RuleError>(e) && final(db)@ == old(db)@,
            },
{
    let id = new_id();
    let ghost outcome = created(db@, new@, next, id@, now);
    assert(outcome is Ok || outcome is Err);
    let template = match templates::get(db, new.template_id) {
        Some(t) => t,
        None => {
            return Err(RuleError::TemplateNotFound);
        },
    };
    if !same(template.keyholder_id.as_str(), new.keyholder_id) {
        return Err(RuleError::TemplateNotFound);
    }
    if !same(template.kind.as_str(), "task") {
        return Err(RuleError::NotATaskTemplate);
    }
    let next_due_at = match next {
        Some(t) => t,
        None => {
            return Err(RuleError::InvalidRecurrence);
        },
    };
    insert(
        &mut db.recurring_rules,
        Rule {
            id: id.clone(),
            link_id: own(new.link_id),
            template_id: own(new.template_id),
            recurrence_kind: own(new.recurrence_kind),
            recurrence_value: own(new.recurrence_value),
            allow_overlap: new.allow_overlap,
            active: true,
            next_due_at,
            created_by_user_id: own(new.keyholder_id),
            created_at: now,
        },
    );
    Ok(id)
}

/// Creates a rule; its id.
pub fn create(db: &mut Ledger, new: NewRule, now: i64) -> (r: Result<String, RuleError>)
    ensures
        exists|id: Seq<char>|
            is_id(id) && match #[trigger] created(
                old(db)@,
                new@,
                scheduled(new@.recurrence_kind, object_fields(new@.recurrence_value), now),
                id,
                now,
            ) {
                Ok(after) => r is Ok && r->Ok_0@ == id && final(db)@ == after,
                Err(e) => r == Err::<String, RuleError>(e) && final(db)@ == old(db)@,
            },
{
    let next = next_occurrence(new.recurrence_kind, new.recurrence_value, now);
    create_with(db, new, next, now)
}

/// An edit touches the schedule.
pub open spec fn reschedules(edit: RuleEditView) -> bool {
    edit.recurrence_kind is Some || edit.recurrence_value is Some
}

/// A rule edited.
pub open spec fn edited_rule(edit: RuleEditView, next_due_at: i64) -> spec_fn(RuleView) -> RuleView {
    |r: RuleView|
        RuleView {
            recurrence_kind: or_keep(edit.recurrence_kind, r.recurrence_kind),
            recurrence_value: or_keep(edit.recurrence_value, r.recurrence_value),
            allow_overlap: or_keep(edit.allow_overlap, r.allow_overlap),
            active: or_keep(edit.active, r.active),
            next_due_at,
            ..r
        }
}

/// The ledger after an edit, and whether there was a rule of this link to edit, given when a new
/// schedule first falls due. An edit that leaves the schedule alone leaves the due time alone.
pub open spec fn rule_edited(
    db: LedgerView,
    id: Seq<char>,
    link_id: Seq<char>,
    edit: RuleEditView,
    next: Option<i64>,
) -> Result<(LedgerView, bool), RuleError> {
    match find_row(db.recurring_rules, by_id(id)) {
        None => Ok((db, false)),
        Some(current) => if current.link_id != link_id {
            Ok((db, false))
        } else {
            match if reschedules(edit) {
                next
            } else {
                Some(current.next_due_at)
            } {
                None => Err(RuleError::InvalidRecurrence),
                Some(next_due_at) => Ok(
                    (
                        LedgerView {
                            recurring_rules: updated(
                                db.recurring_rules,
                                by_id(id),
                                edited_rule(edit, next_due_at),
                            ),
                            ..db
                        },
                        true,
                    ),
                ),
            }
        },
    }
}

/// Edits a rule of a link, given when a new schedule first falls due; `false` where the link has
/// no such rule.
pub fn update_with(db: &mut Ledger, id: &str, link_id: &str, edit: RuleEdit, next: Option<i64>) -> (r:
    Result<bool, RuleError>)
    ensures
        match rule_edited(old(db)@, id@, link_id@, edit@, next) {
            Ok((after, found)) => r == Ok::<bool, RuleError>(found) && final(db)@ == after,
            Err(e) => r == Err::<bool, RuleError>(e) && final(db)@ == old(db)@,
        },
{
    let current = match get(db, id) {
        Some(c) => c,
        None => {
            return Ok(false);
        },
    };
    if !same(current.link_id.as_str(), link_id) {
        return Ok(false);
    }
    let next_due_at = if edit.recurrence_kind.is_some() || edit.recurrence_value.is_some() {
        match next {
            Some(t) => t,
            None => {
                return Err(RuleError::InvalidRecurrence);
            },
        }
    } else {
        current.next_due_at
    };
    let ghost p = by_id(id@);
    let ghost u = edited_rule(edit@, next_due_at);
    let change = |r: &Rule| -> (n: Option<Rule>)
        ensures
            match n {
                Some(x) => p(r@) && x@ == u(r@),
                None => !p(r@),
            },
        {
            if same(r.id.as_str(), id) {
                let mut n = r.dup();
                n.recurrence_kind = edited(edit.recurrence_kind, r.recurrence_kind.as_str());
                n.recurrence_value = edited(edit.recurrence_value, r.recurrence_value.as_str());
                n.allow_overlap = match edit.allow_overlap {
                    Some(b) => b,
                    None => r.allow_overlap,
                };
                n.active = match edit.active {
                    Some(b) => b,
                    None => r.active,
                };
                n.next_due_at = next_due_at;

                Some(n)
            } else {
                None
            }
        };
    crate::table::update(&mut db.recurring_rules, Ghost(p), Ghost(u), change);
    Ok(true)
}

/// When the schedule of an edited rule first falls due; `None` without such a rule.
pub open spec fn rescheduled(db: LedgerView, id: Seq<char>, edit: RuleEditView, now: i64) -> Option<
    i64,
> {
    match find_row(db.recurring_rules, by_id(id)) {
        Some(current) => scheduled(
            or_keep(edit.recurrence_kind, current.recurrence_kind),
            object_fields(or_keep(edit.recurrence_value, current.recurrence_value)),
            now,
        ),
        None => None,
    }
}

/// Edits a rule of a link; `false` where the link has no such rule. A change of the schedule
/// recomputes when the rule falls due.
pub fn update(db: &mut Ledger, id: &str, link_id: &str, edit: RuleEdit, now: i64) -> (r: Result<
    bool,
    RuleError,
>)
    ensures
        match rule_edited(
            old(db)@,
            id@,
            link_id@,
            edit@,
            rescheduled(old(db)@, id@, edit@, now),
        ) {
            Ok((after, found)) => r == Ok::<bool, RuleError>(found) && final(db)@ == after,
            Err(e) => r == Err::<bool, RuleError>(e) && final(db)@ == old(db)@,
        },
{
    let next = match get(db, id) {
        Some(current) => {
            let kind = edited(edit.recurrence_kind, current.recurrence_kind.as_str());
            let value = edited(edit.recurrence_value, current.recurrence_value.as_str());
            next_occurrence(kind.as_str(), value.as_str(), now)
        },
        None => None,
    };
    update_with(db, id, link_id, edit, next)
}

/// A rule that has fallen due.
pub open spec fn due(now: i64) -> spec_fn(RuleView) -> bool {
    |r: RuleView| r.active && r.next_due_at <= now
}

/// A task that this rule spawned and that is still open.
pub open spec fn open_spawn(rule_id: Seq<char>) -> spec_fn(AssignmentView) -> bool {
    |a: AssignmentView|
        a.spawned_by_recurring_task_rule_id == Some(rule_id) && (a.status == "assigned"@ || a.status
            == "acknowledged"@ || a.status == "proof_submitted"@)
}

/// The task that a rule spawns.
pub open spec fn spawn_of(rule: RuleView) -> assignments::NewAssignmentView {
    assignments::NewAssignmentView {
        kind: Some("task"@),
        template_id: Some(rule.template_id),
        require_active_template: true,
        spawned_by_recurring_task_rule_id: Some(rule.id),
        assigned_via: "system"@,
        ..assignments::NewAssignmentView::blank()
    }
}

/// Due next at this time.
pub open spec fn due_at(next_due_at: i64) -> spec_fn(RuleView) -> RuleView {
    |r: RuleView| RuleView { next_due_at, ..r }
}

/// When a rule falls due after it has spawned a task now, given the members of its value.
pub open spec fn due_after(
    rule: RuleView,
    fields: Option<Seq<(Seq<char>, FieldView)>>,
    now: i64,
) -> Option<i64> {
    if now == i64::MAX {
        None
    } else {
        scheduled(rule.recurrence_kind, fields, (now + 1) as i64)
    }
}

/// The ledger after a rule spawned a task, and the task; `None` where it spawns none: its link is
/// gone, a task of its own is still open and may not be overlapped, its schedule gives no next
/// time, or the task cannot be created. Then the rule stays as it is and is tried again.
pub open spec fn spawned(
    db: LedgerView,
    rule: RuleView,
    next: Option<i64>,
    id: Seq<char>,
    adjustment_id: Seq<char>,
    now: i64,
) -> Option<(LedgerView, SpawnedTaskView)> {
    match (find_row(db.links, links::by_id(rule.link_id)), next) {
        (Some(l), Some(next_due_at)) => if !rule.allow_overlap && any_row(
            db.assignments,
            open_spawn(rule.id),
        ) {
            None
        } else {
            match assignments::created(
                db,
                l.submissive_id,
                rule.link_id,
                spawn_of(rule),
                id,
                adjustment_id,
                now,
            ) {
                Err(e) => None,
                Ok((after, assignment)) => Some(
                    (
                        LedgerView {
                            recurring_rules: updated(
                                after.recurring_rules,
                                by_id(rule.id),
                                due_at(next_due_at),
                            ),
                            ..after
                        },
                        SpawnedTaskView {
                            keyholder_id: l.keyholder_id,
                            submissive_id: l.submissive_id,
                            link_id: rule.link_id,
                            assignment,
                        },
                    ),
                ),
            }
        },
        _ => None,
    }
}

/// Spawns the task of a rule that has fallen due, given when it falls due again.
pub fn spawn(
    db: &mut Ledger,
    rule: &Rule,
    next: Option<i64>,
    id: String,
    adjustment_id: String,
    now: i64,
) -> (r: Option<SpawnedTask>)
    ensures
        match spawned(old(db)@, rule@, next, id@, adjustment_id@, now) {
            Some((after, task)) => r is Some && r->0@ == task && final(db)@ == after,
            None => r is None && final(db)@ == old(db)@,
        },
{
    let (keyholder_id, submissive_id) = match links::parties(db, rule.link_id.as_str()) {
        Some(p) => p,
        None => {
            return None;
        },
    };
    let next_due_at = match next {
        Some(t) => t,
        None => {
            return None;
        },
    };
    let ghost q = open_spawn(rule@.id);
    let test = |a: &Assignment| -> (b: bool)
        ensures
            b == q(a@),
        {
            opt_is(&a.spawned_by_recurring_task_rule_id, rule.id.as_str()) && (same(
                a.status.as_str(),
                "assigned",
            ) || same(a.status.as_str(), "acknowledged")
                || same(a.status.as_str(), "proof_submitted"))
        };
    if !rule.allow_overlap && any(&db.assignments, Ghost(q), test) {
        return None;
    }
    let new = assignments::NewAssignment {
        kind: Some("task"),
        template_id: Some(rule.template_id.as_str()),
        require_active_template: true,
        spawned_by_recurring_task_rule_id: Some(rule.id.as_str()),
        assigned_via: "system",
        ..Default::default()
    };
    match assignments::create_as(
        db,
        submissive_id.as_str(),
        rule.link_id.as_str(),
        new,
        id,
        adjustment_id,
        now,
    ) {
        Err(_) => None,
        Ok(assignment) => {
            let ghost p = by_id(rule@.id);
            let ghost u = due_at(next_due_at);
            let change = |y: &Rule| -> (n: Option<Rule>)
                ensures
                    match n {
                        Some(x) => p(y@) && x@ == u(y@),
                        None => !p(y@),
                    },
                {
                    if same(y.id.as_str(), rule.id.as_str()) {
                        let mut n = y.dup();
                        n.next_due_at = next_due_at;

                        Some(n)
                    } else {
                        None
                    }
                };
            crate::table::update(&mut db.recurring_rules, Ghost(p), Ghost(u), change);
            Some(
                SpawnedTask {
                    keyholder_id,
                    submissive_id,
                    link_id: rule.link_id.clone(),
                    assignment,
                },
            )
        },
    }
}

/// The ledger after the first `n` of some rules spawned their tasks, and the tasks.
pub open spec fn swept(
    db: LedgerView,
    rules: Seq<RuleView>,
    ids: Seq<(Seq<char>, Seq<char>)>,
    n: nat,
    now: i64,
) -> (LedgerView, Seq<SpawnedTaskView>)
    decreases n,
{
    if n == 0 {
        (db, Seq::empty())
    } else {
        let (before, tasks) = swept(db, rules, ids, (n - 1) as nat, now);
        let rule = rules[n - 1];
        match spawned(
            before,
            rule,
            due_after(rule, object_fields(rule.recurrence_value), now),
            ids[n - 1].0,
            ids[n - 1].1,
            now,
        ) {
            Some((after, task)) => (after, tasks.push(task)),
            None => (before, tasks),
        }
    }
}

/// A sweep over every rule that has fallen due as it starts.
pub open spec fn whole_sweep(db: LedgerView, ids: Seq<(Seq<char>, Seq<char>)>, now: i64) -> (
    LedgerView,
    Seq<SpawnedTaskView>,
) {
    let rules = db.recurring_rules.filter(due(now));
    swept(db, rules, ids, rules.len(), now)
}

/// `n` pairs of row identifiers.
pub open spec fn pairs_of_ids(s: Seq<(Seq<char>, Seq<char>)>, n: nat) -> bool {
    s.len() == n && forall|i: int|
        0 <= i < n ==> is_id((#[trigger] s[i]).0) && is_id(s[i].1)
}

/// Pairs of fresh ids.
fn new_pairs(n: usize) -> (r: Vec<(String, String)>)
    ensures
        r@.len() == n,
        pairs_of_ids(r.deep_view(), n as nat),
{
    let mut out: Vec<(String, String)> = Vec::new();
    while out.len() < n
        invariant
            out@.len() <= n,
            forall|i: int|
                0 <= i < out@.len() ==> is_id((#[trigger] out@[i]).0@) && is_id(out@[i].1@),
        decreases n - out@.len(),
    {
        out.push((new_id(), new_id()));
    }
    assert forall|i: int| 0 <= i < n implies is_id((#[trigger] out.deep_view()[i]).0) && is_id(
        out.deep_view()[i].1,
    ) by {
        assert(out.deep_view()[i] == out@[i].deep_view());
    }
    out
}

/// Spawns the task of every active rule that has fallen due; the tasks.
pub fn run_recurring_task_sweep_tick(db: &mut Ledger, now: i64) -> (r: Vec<SpawnedTask>)
    ensures
        exists|ids: Seq<(Seq<char>, Seq<char>)>|
            pairs_of_ids(ids, old(db)@.recurring_rules.filter(due(now)).len())
                && (final(db)@, r.deep_view()) == #[trigger] whole_sweep(old(db)@, ids, now),
{
    let ghost p = due(now);
    let test = |r: &Rule| -> (b: bool)
        ensures
            b == p(r@),
        { r.active && r.next_due_at <= now };
    let rules = select(&db.recurring_rules, Ghost(p), test);
    let ids = new_pairs(rules.len());
    let ghost all = ids.deep_view();
    let ghost start = db@;
    let mut out: Vec<SpawnedTask> = Vec::new();
    let mut i: usize = 0;
    assert(out.deep_view() =~= Seq::empty());
    while i < rules.len()
        invariant
            i <= rules@.len(),
            ids@.len() == rules@.len(),
            all == ids.deep_view(),
            swept(start, rows(rules@), all, i as nat, now) == (db@, out.deep_view()),
        decreases rules@.len() - i,
    {
        assert(all[i as int] == ids@[i as int].deep_view());
        let ghost before = out.deep_view();
        let rule = &rules[i];
        let next = if now == i64::MAX {
            None
        } else {
            next_occurrence(rule.recurrence_kind.as_str(), rule.recurrence_value.as_str(), now + 1)
        };
        if let Some(t) = spawn(db, rule, next, ids[i].0.clone(), ids[i].1.clone(), now) {
            out.push(t);
            assert(out.deep_view() =~= before.push(t@));
        }
        i = i + 1;
    }
    assert((db@, out.deep_view()) == whole_sweep(start, all, now));
    out
}

/// The slot that is found is not before the time it was asked for, and lies as far past a midnight
/// as it should.
pub proof fn lemma_next_slot(target: int, from: int)
    ensures
        next_slot(target, from) >= from,
        (next_slot(target, from) - target) % 86400 == 0,
        0 <= target < 86400 ==> next_slot(target, from) < from + 86400,
{
    let today = from - from % 86400 + target;
    assert((from - from % 86400) % 86400 == 0);
    if today < from {
        let days = (from - today + 86399) / 86400;
        assert((from - from % 86400 + days * 86400) % 86400 == 0) by (nonlinear_arith)
            requires
                (from - from % 86400) % 86400 == 0,
        ;
    }
}

/// What `first_on` finds is one of the times that it tries, on one of the weekdays.
proof fn lemma_first_on(days: Seq<u32>, at: int, tries: nat)
    ensures
        first_on(days, at, tries) matches Some(t) ==> t >= at && (t - at) % 86400 == 0 && t < at
            + tries * 86400 && has_weekday(t) && days.contains(weekday_of(t)),
    decreases tries,
{
    if tries > 0 {
        lemma_first_on(days, at + 86400, (tries - 1) as nat);
    }
}

/// What `first_on` finds is the first: no earlier try falls on one of the weekdays.
proof fn lemma_first_on_is_first(days: Seq<u32>, at: int, tries: nat, k: int)
    requires
        0 <= k < tries,
        fits(at + k * 86400),
        has_weekday((at + k * 86400) as i64),
        days.contains(weekday_of((at + k * 86400) as i64)),
    ensures
        first_on(days, at, tries) matches Some(t) && t <= at + k * 86400,
    decreases tries,
{
    lemma_first_on(days, at, tries);
    if !(fits(at) && has_weekday(at as i64) && days.contains(weekday_of(at as i64))) {
        assert(at + 86400 + (k - 1) * 86400 == at + k * 86400);
        lemma_first_on_is_first(days, at + 86400, (tries - 1) as nat, k - 1);
    }
}

/// The next occurrence is never before the time that it is asked for.
pub proof fn law_next_is_not_before(
    kind: Seq<char>,
    fields: Option<Seq<(Seq<char>, FieldView)>>,
    from: i64,
)
    ensures
        scheduled(kind, fields, from) matches Some(t) ==> t >= from,
{
    if let Some(fields) = fields {
        if let Some(time) = text_in(fields, "time"@) {
            if let Some(target) = clock_seconds(time) {
                lemma_next_slot(target as int, from as int);
                if let Some(FieldView::List(texts)) = member(fields, "days"@) {
                    lemma_first_on(
                        listed_days(texts),
                        next_slot(target as int, from as int),
                        8,
                    );
                }
            }
        }
    }
}

/// The slot of a time of day comes within a day, and at that time.
proof fn lemma_slot_of_the_day(target: int, from: int)
    requires
        0 <= target < 86400,
    ensures
        next_slot(target, from) < from + 86400,
        fits(next_slot(target, from)) ==> second_of_day(next_slot(target, from) as i64) == target,
{
    lemma_next_slot(target, from);
}

/// A daily rule falls due at its time of day, within a day.
#[verifier::spinoff_prover]
pub proof fn law_daily_is_daily(fields: Seq<(Seq<char>, FieldView)>, from: i64)
    requires
        text_in(fields, "time"@) is Some,
        clock_seconds(text_in(fields, "time"@)->0) matches Some(target) && 0 <= target < 86400,
    ensures
        scheduled("daily"@, Some(fields), from) matches Some(t) ==> t < from + 86400
            && second_of_day(t) == clock_seconds(text_in(fields, "time"@)->0)->0,
        from <= i64::MAX - 86400 ==> scheduled("daily"@, Some(fields), from) is Some,
{
    reveal_strlit("interval_hours");
    reveal_strlit("daily");
    assert("interval_hours"@.len() != "daily"@.len());
    let target = clock_seconds(text_in(fields, "time"@)->0)->0;
    assert(scheduled("daily"@, Some(fields), from) == in_range(
        next_slot(target as int, from as int),
    ));
    lemma_next_slot(target as int, from as int);
    lemma_slot_of_the_day(target as int, from as int);
}

/// The first listed day of the week that starts at a slot.
proof fn lemma_first_of_week(days: Seq<u32>, target: int, from: int, k: int)
    requires
        0 <= target < 86400,
        0 <= k < 8,
    ensures
        ({
            let at = next_slot(target, from);
            let day = at + k * 86400;
            &&& first_on(days, at, 8) matches Some(t) ==> days.contains(weekday_of(t))
                && second_of_day(t) == target
            &&& fits(day) && has_weekday(day as i64) && days.contains(weekday_of(day as i64))
                ==> (first_on(days, at, 8) matches Some(t) && t <= day)
        }),
{
    let at = next_slot(target, from);
    lemma_next_slot(target, from);
    lemma_first_on(days, at, 8);
    if fits(at + k * 86400) && has_weekday((at + k * 86400) as i64) && days.contains(
        weekday_of((at + k * 86400) as i64),
    ) {
        lemma_first_on_is_first(days, at, 8, k);
    }
}

/// A weekly rule falls due on one of its weekdays at its time of day, and on the first such day: a
/// day that is listed and not yet past within the week is never passed over.
#[verifier::spinoff_prover]
pub proof fn law_weekly_finds_the_first_day(
    fields: Seq<(Seq<char>, FieldView)>,
    texts: Seq<Option<Seq<char>>>,
    from: i64,
    k: int,
)
    requires
        text_in(fields, "time"@) is Some,
        clock_seconds(text_in(fields, "time"@)->0) matches Some(target) && 0 <= target < 86400,
        member(fields, "days"@) == Some(FieldView::List(texts)),
        0 <= k < 8,
    ensures
        ({
            let target = clock_seconds(text_in(fields, "time"@)->0)->0;
            let next = scheduled("weekly_days"@, Some(fields), from);
            let day = next_slot(target as int, from as int) + k * 86400;
            &&& next matches Some(t) ==> listed_days(texts).contains(weekday_of(t))
                && second_of_day(t) == target
            &&& fits(day) && has_weekday(day as i64) && listed_days(texts).contains(
                weekday_of(day as i64),
            ) ==> (next matches Some(t) && t <= day)
        }),
{
    reveal_strlit("interval_hours");
    reveal_strlit("daily");
    reveal_strlit("weekly_days");
    assert("interval_hours"@.len() != "weekly_days"@.len());
    assert("daily"@.len() != "weekly_days"@.len());
    let target = clock_seconds(text_in(fields, "time"@)->0)->0;
    assert(scheduled("weekly_days"@, Some(fields), from) == first_on(
        listed_days(texts),
        next_slot(target as int, from as int),
        8,
    ));
    lemma_first_of_week(listed_days(texts), target as int, from as int, k);
}

/// A rule that spawned a task is not due again now.
pub proof fn law_spawning_moves_the_due_time(
    db: LedgerView,
    rule: RuleView,
    id: Seq<char>,
    adjustment_id: Seq<char>,
    now: i64,
)
    requires
        find_row(db.recurring_rules, by_id(rule.id)) == Some(rule),
        spawned(
            db,
            rule,
            due_after(rule, object_fields(rule.recurrence_value), now),
            id,
            adjustment_id,
            now,
        ) is Some,
    ensures
        ({
            let (after, task) = spawned(
                db,
                rule,
                due_after(rule, object_fields(rule.recurrence_value), now),
                id,
                adjustment_id,
                now,
            )->0;
            &&& find_row(after.recurring_rules, by_id(rule.id)) matches Some(r) && !due(now)(r)
            &&& task.assignment.spawned_by_recurring_task_rule_id == Some(rule.id)
            &&& task.assignment.kind == "task"@
            &&& task.assignment.assigned_via == "system"@
        }),
{
    let next = due_after(rule, object_fields(rule.recurrence_value), now)->0;
    law_next_is_not_before(
        rule.recurrence_kind,
        object_fields(rule.recurrence_value),
        (now + 1) as i64,
    );
    lemma_find_updated(db.recurring_rules, by_id(rule.id), by_id(rule.id), due_at(next));
}

/// A rule whose task is still open spawns no second one and stays as it is, unless it allows
/// overlap.
pub proof fn law_open_task_is_not_overlapped(
    db: LedgerView,
    rule: RuleView,
    next: Option<i64>,
    id: Seq<char>,
    adjustment_id: Seq<char>,
    now: i64,
)
    requires
        !rule.allow_overlap,
        any_row(db.assignments, open_spawn(rule.id)),
    ensures
        spawned(db, rule, next, id, adjustment_id, now) is None,
{
}

/// An edit that leaves the schedule alone leaves the due time alone.
pub proof fn law_due_time_moves_only_with_the_schedule(
    db: LedgerView,
    id: Seq<char>,
    link_id: Seq<char>,
    edit: RuleEditView,
    next: Option<i64>,
)
    requires
        !reschedules(edit),
        find_row(db.recurring_rules, by_id(id)) is Some,
    ensures
        rule_edited(db, id, link_id, edit, next) is Ok,
        find_row(
            rule_edited(db, id, link_id, edit, next)->Ok_0.0.recurring_rules,
            by_id(id),
        ) matches Some(r) && r.next_due_at == find_row(
            db.recurring_rules,
            by_id(id),
        )->0.next_due_at,
{
    let current = find_row(db.recurring_rules, by_id(id))->0;
    lemma_find_any(db.recurring_rules, by_id(id));
    lemma_find_updated(
        db.recurring_rules,
        by_id(id),
        by_id(id),
        edited_rule(edit, current.next_due_at),
    );
}

/// A task that this rule spawned.
pub open spec fn task_of(rule_id: Seq<char>) -> spec_fn(SpawnedTaskView) -> bool {
    |t: SpawnedTaskView| t.assignment.spawned_by_recurring_task_rule_id == Some(rule_id)
}

/// Those of some tasks that a rule spawned.
pub open spec fn tasks_of(tasks: Seq<SpawnedTaskView>, rule_id: Seq<char>) -> Seq<SpawnedTaskView> {
    tasks.filter(task_of(rule_id))
}

/// A rule that may spawn now: its link is there, no task of its own is still open or it allows
/// overlap, its schedule gives a next time, and its template is an active one that makes a task.
pub open spec fn ready(db: LedgerView, rule: RuleView, id: Seq<char>, now: i64) -> bool {
    &&& find_row(db.links, links::by_id(rule.link_id)) is Some
    &&& rule.allow_overlap || !any_row(db.assignments, open_spawn(rule.id))
    &&& due_after(rule, object_fields(rule.recurrence_value), now) is Some
    &&& assignments::chosen_template(db, spawn_of(rule)) matches Ok(t) && assignments::drafted(
        assignments::inherited(t),
        id,
        rule.link_id,
        spawn_of(rule),
        now,
    ) is Ok
}

/// An effect of the rule's template that works at once can be stored; a plain task has none.
pub open spec fn effect_fits(
    db: LedgerView,
    rule: RuleView,
    id: Seq<char>,
    adjustment_id: Seq<char>,
    now: i64,
) -> bool {
    let a = assignments::drafted(
        assignments::inherited(assignments::chosen_template(db, spawn_of(rule))->Ok_0),
        id,
        rule.link_id,
        spawn_of(rule),
        now,
    )->Ok_0;
    !assignments::immediate(a.effect_kind) || assignments::handed_out(
        db,
        find_row(db.links, links::by_id(rule.link_id))->0.submissive_id,
        a,
        adjustment_id,
        now,
    ) is Ok
}

/// Spawning succeeds exactly where the rule is ready and an effect of its own can be stored.
proof fn lemma_spawns_where_ready(
    db: LedgerView,
    rule: RuleView,
    id: Seq<char>,
    adjustment_id: Seq<char>,
    now: i64,
)
    ensures
        (spawned(
            db,
            rule,
            due_after(rule, object_fields(rule.recurrence_value), now),
            id,
            adjustment_id,
            now,
        ) is Some) == (ready(db, rule, id, now) && effect_fits(
            db,
            rule,
            id,
            adjustment_id,
            now,
        )),
{
}

/// What one rule spawns leaves alone: links, templates, and whatever belongs to another rule.
proof fn lemma_spawn_leaves_others(
    db: LedgerView,
    rule: RuleView,
    next: Option<i64>,
    id: Seq<char>,
    adjustment_id: Seq<char>,
    now: i64,
    other: Seq<char>,
)
    requires
        rule.id != other,
    ensures
        spawned(db, rule, next, id, adjustment_id, now) matches Some((after, task)) ==> {
            &&& after.links == db.links
            &&& after.templates == db.templates
            &&& find_row(after.recurring_rules, by_id(other)) == find_row(
                db.recurring_rules,
                by_id(other),
            )
            &&& any_row(after.assignments, open_spawn(other)) == any_row(
                db.assignments,
                open_spawn(other),
            )
            &&& !task_of(other)(task)
        },
{
    if let Some((after, task)) = spawned(db, rule, next, id, adjustment_id, now) {
        lemma_find_updated(db.recurring_rules, by_id(other), by_id(rule.id), due_at(next->0));
        lemma_find_any(db.recurring_rules, by_id(other));
        let q = open_spawn(other);
        assert(after.assignments == db.assignments.push(task.assignment));
        if any_row(db.assignments, q) {
            let i = choose|i: int| 0 <= i < db.assignments.len() && q(#[trigger] db.assignments[i]);
            assert(q(after.assignments[i]));
        }
        if any_row(after.assignments, q) {
            let i = choose|i: int|
                0 <= i < after.assignments.len() && q(#[trigger] after.assignments[i]);
            assert(i < db.assignments.len());
            assert(q(db.assignments[i]));
        }
    }
}

/// Over rules that are not `other`, a sweep changes nothing of it.
proof fn lemma_sweep_leaves_others(
    db: LedgerView,
    rules: Seq<RuleView>,
    ids: Seq<(Seq<char>, Seq<char>)>,
    m: nat,
    n: nat,
    now: i64,
    other: Seq<char>,
)
    requires
        m <= n <= rules.len(),
        forall|i: int| m <= i < n ==> (#[trigger] rules[i]).id != other,
    ensures
        ({
            let (from, told) = swept(db, rules, ids, m, now);
            let (after, tasks) = swept(db, rules, ids, n, now);
            &&& after.links == from.links
            &&& after.templates == from.templates
            &&& find_row(after.recurring_rules, by_id(other)) == find_row(
                from.recurring_rules,
                by_id(other),
            )
            &&& any_row(after.assignments, open_spawn(other)) == any_row(
                from.assignments,
                open_spawn(other),
            )
            &&& tasks_of(tasks, other) == tasks_of(told, other)
        }),
    decreases n,
{
    if m < n {
        let k = (n - 1) as nat;
        lemma_sweep_leaves_others(db, rules, ids, m, k, now, other);
        let (before, tasks) = swept(db, rules, ids, k, now);
        let rule = rules[k as int];
        let next = due_after(rule, object_fields(rule.recurrence_value), now);
        lemma_spawn_leaves_others(
            before,
            rule,
            next,
            ids[k as int].0,
            ids[k as int].1,
            now,
            other,
        );
        if let Some((after, task)) = spawned(
            before,
            rule,
            next,
            ids[k as int].0,
            ids[k as int].1,
            now,
        ) {
            reveal(Seq::filter);
            assert(tasks.push(task).drop_last() =~= tasks);
        }
    }
}

/// A sweep leaves every rule its id.
proof fn lemma_sweep_keeps_rules(
    db: LedgerView,
    rules: Seq<RuleView>,
    ids: Seq<(Seq<char>, Seq<char>)>,
    n: nat,
    now: i64,
    rule_id: Seq<char>,
)
    requires
        n <= rules.len(),
        sole(db.recurring_rules, by_id(rule_id)),
    ensures
        sole(swept(db, rules, ids, n, now).0.recurring_rules, by_id(rule_id)),
    decreases n,
{
    if n > 0 {
        let k = (n - 1) as nat;
        lemma_sweep_keeps_rules(db, rules, ids, k, now, rule_id);
        let (before, tasks) = swept(db, rules, ids, k, now);
        let rule = rules[k as int];
        let next = due_after(rule, object_fields(rule.recurrence_value), now);
        if let Some((after, task)) = spawned(
            before,
            rule,
            next,
            ids[k as int].0,
            ids[k as int].1,
            now,
        ) {
            let p = by_id(rule_id);
            let s = before.recurring_rules;
            let t = after.recurring_rules;
            assert forall|i: int, j: int| 0 <= i < j < t.len() implies !(p(#[trigger] t[i]) && p(
                #[trigger] t[j],
            )) by {
                assert(!(p(s[i]) && p(s[j])));
            }
        }
    }
}

/// A tick spawns one task for every rule that has fallen due and is ready, and its due time becomes
/// the next occurrence, which lies after now. A rule that has fallen due and is not ready spawns
/// none and keeps its due time. What other rules spawn in the same tick makes no difference, but
/// for an effect of the rule's own template, which has to fit when its turn comes. No other rule
/// may have the rule's id.
pub proof fn law_tick_spawns_one_task_for_each_rule(
    db: LedgerView,
    ids: Seq<(Seq<char>, Seq<char>)>,
    now: i64,
    j: int,
)
    requires
        0 <= j < db.recurring_rules.filter(due(now)).len(),
        sole(db.recurring_rules, by_id(db.recurring_rules.filter(due(now))[j].id)),
    ensures
        ({
            let rules = db.recurring_rules.filter(due(now));
            let rule = rules[j];
            let turn = swept(db, rules, ids, j as nat, now).0;
            let (after, told) = whole_sweep(db, ids, now);
            let next = due_after(rule, object_fields(rule.recurrence_value), now);
            if ready(db, rule, ids[j].0, now) && effect_fits(
                turn,
                rule,
                ids[j].0,
                ids[j].1,
                now,
            ) {
                &&& tasks_of(told, rule.id).len() == 1
                &&& tasks_of(told, rule.id)[0].assignment.kind == "task"@
                &&& tasks_of(told, rule.id)[0].assignment.assigned_via == "system"@
                &&& find_row(after.recurring_rules, by_id(rule.id)) == Some(
                    RuleView { next_due_at: next->0, ..rule },
                )
                &&& next->0 > now
            } else {
                &&& tasks_of(told, rule.id).len() == 0
                &&& find_row(after.recurring_rules, by_id(rule.id)) == Some(rule)
            }
        }),
{
    let rules = db.recurring_rules.filter(due(now));
    let rule = rules[j];
    let p = by_id(rule.id);
    let next = due_after(rule, object_fields(rule.recurrence_value), now);
    let (turn, before) = swept(db, rules, ids, j as nat, now);
    lemma_filter_sole(db.recurring_rules, due(now), p);
    lemma_filter_contains(db.recurring_rules, due(now), rule);
    assert(rules.contains(rule));
    lemma_find_sole(db.recurring_rules, p, rule);
    assert forall|i: int| 0 <= i < rules.len() && i != j implies (#[trigger] rules[i]).id
        != rule.id by {
        if i < j {
            assert(!(p(rules[i]) && p(rules[j])));
        } else {
            assert(!(p(rules[j]) && p(rules[i])));
        }
    }
    lemma_sweep_leaves_others(db, rules, ids, 0, j as nat, now, rule.id);
    lemma_sweep_leaves_others(db, rules, ids, (j + 1) as nat, rules.len(), now, rule.id);
    lemma_spawns_where_ready(turn, rule, ids[j].0, ids[j].1, now);
    reveal(Seq::filter);
    assert(tasks_of(Seq::<SpawnedTaskView>::empty(), rule.id).len() == 0);
    assert(ready(turn, rule, ids[j].0, now) == ready(db, rule, ids[j].0, now));
    if let Some((after, task)) = spawned(turn, rule, next, ids[j].0, ids[j].1, now) {
        lemma_find_updated(
            turn.recurring_rules,
            by_id(rule.id),
            by_id(rule.id),
            due_at(next->0),
        );
        law_next_is_not_before(
            rule.recurrence_kind,
            object_fields(rule.recurrence_value),
            (now + 1) as i64,
        );
        assert(before.push(task).drop_last() =~= before);
        assert(tasks_of(before.push(task), rule.id) == tasks_of(before, rule.id).push(task));
    }
}

/// A tick spawns nothing for a rule that has not fallen due, or is not active, and leaves it its
/// due time.
pub proof fn law_tick_leaves_other_rules(
    db: LedgerView,
    ids: Seq<(Seq<char>, Seq<char>)>,
    now: i64,
    rule: RuleView,
)
    requires
        sole(db.recurring_rules, by_id(rule.id)),
        find_row(db.recurring_rules, by_id(rule.id)) == Some(rule),
        !due(now)(rule),
    ensures
        tasks_of(whole_sweep(db, ids, now).1, rule.id).len() == 0,
        find_row(whole_sweep(db, ids, now).0.recurring_rules, by_id(rule.id)) == Some(rule),
{
    let rules = db.recurring_rules.filter(due(now));
    lemma_filter_meets(db.recurring_rules, due(now));
    assert forall|i: int| 0 <= i < rules.len() implies (#[trigger] rules[i]).id != rule.id by {
        let x = rules[i];
        assert(rules.contains(x));
        lemma_filter_contains(db.recurring_rules, due(now), x);
        if x.id == rule.id {
            lemma_find_sole(db.recurring_rules, by_id(rule.id), x);
        }
    }
    lemma_sweep_leaves_others(db, rules, ids, 0, rules.len(), now, rule.id);
    reveal(Seq::filter);
}

/// A second tick at the same time spawns nothing for a rule that the first spawned a task for, and
/// leaves it the due time that the first gave it.
pub proof fn law_second_tick_spawns_nothing_more(
    db: LedgerView,
    ids: Seq<(Seq<char>, Seq<char>)>,
    again: Seq<(Seq<char>, Seq<char>)>,
    now: i64,
    rule: RuleView,
)
    requires
        sole(db.recurring_rules, by_id(rule.id)),
        find_row(db.recurring_rules, by_id(rule.id)) == Some(rule),
        tasks_of(whole_sweep(db, ids, now).1, rule.id).len() > 0,
    ensures
        ({
            let (first, told) = whole_sweep(db, ids, now);
            let (second, more) = whole_sweep(first, again, now);
            &&& tasks_of(more, rule.id).len() == 0
            &&& find_row(second.recurring_rules, by_id(rule.id)) == find_row(
                first.recurring_rules,
                by_id(rule.id),
            )
        }),
{
    let rules = db.recurring_rules.filter(due(now));
    lemma_find_any(db.recurring_rules, by_id(rule.id));
    if !due(now)(rule) {
        law_tick_leaves_other_rules(db, ids, now, rule);
    }
    lemma_filter_contains(db.recurring_rules, due(now), rule);
    let j = choose|j: int| 0 <= j < rules.len() && rules[j] == rule;
    law_tick_spawns_one_task_for_each_rule(db, ids, now, j);
    lemma_sweep_keeps_rules(db, rules, ids, rules.len(), now, rule.id);
    let next = due_after(rule, object_fields(rule.recurrence_value), now)->0;
    law_tick_leaves_other_rules(
        whole_sweep(db, ids, now).0,
        again,
        now,
        RuleView { next_due_at: next, ..rule },
    );
}

/// A rule of every so many hours falls due that many hours on, whatever their number, and gives no
/// time where it is none or less; after it has spawned it falls due that many hours and a second on.
pub proof fn law_intervals_are_kept(
    fields: Seq<(Seq<char>, FieldView)>,
    hours: i64,
    from: i64,
    rule: RuleView,
)
    requires
        member(fields, "hours"@) == Some(FieldView::Number(Some(hours))),
        rule.recurrence_kind == "interval_hours"@,
    ensures
        hours <= 0 ==> scheduled("interval_hours"@, Some(fields), from) is None,
        hours > 0 ==> match scheduled("interval_hours"@, Some(fields), from) {
            Some(t) => t == from + hours * 3600,
            None => from + hours * 3600 > i64::MAX,
        },
        hours > 0 ==> match due_after(rule, Some(fields), from) {
            Some(t) => t == from + 1 + hours * 3600,
            None => from + 1 + hours * 3600 > i64::MAX,
        },
        hours <= 0 ==> due_after(rule, Some(fields), from) is None,
{
}

/// Kinds of rule: every so many hours, daily, and on days of the week. Any other gives no time, nor
/// does a value that lacks what the kind asks for.
pub proof fn law_three_kinds_of_rule(
    kind: Seq<char>,
    fields: Option<Seq<(Seq<char>, FieldView)>>,
    from: i64,
)
    ensures
        kind != "interval_hours"@ && kind != "daily"@ && kind != "weekly_days"@ ==> scheduled(
            kind,
            fields,
            from,
        ) is None,
        fields is None ==> scheduled(kind, fields, from) is None,
        fields is Some && member(fields->0, "hours"@) is None ==> scheduled(
            "interval_hours"@,
            fields,
            from,
        ) is None,
        fields is Some && member(fields->0, "time"@) is None ==> scheduled("daily"@, fields, from)
             is None && scheduled("weekly_days"@, fields, from) is None,
        fields is Some && member(fields->0, "days"@) is None ==> scheduled(
            "weekly_days"@,
            fields,
            from,
        ) is None,
{
    reveal_strlit("interval_hours");
    reveal_strlit("daily");
    reveal_strlit("weekly_days");
    assert("interval_hours"@.len() == 14 && "daily"@.len() == 5 && "weekly_days"@.len() == 11);
}

/// A daily rule falls due at the first time from then on that is its time of day.
pub proof fn law_daily_comes_at_the_first_chance(
    fields: Seq<(Seq<char>, FieldView)>,
    time: Seq<char>,
    target: i64,
    from: i64,
    t: i64,
)
    requires
        member(fields, "time"@) == Some(FieldView::Text(time)),
        clock_seconds(time) == Some(target),
        0 <= target < 86400,
        from <= i64::MAX - 86400,
    ensures
        scheduled("daily"@, Some(fields), from) is Some,
        ({
            let due = scheduled("daily"@, Some(fields), from)->0;
            &&& due >= from && due as int % 86400 == target
            &&& t >= from && t as int % 86400 == target ==> due <= t
        }),
{
    law_daily_is_daily(fields, from);
    law_next_is_not_before("daily"@, Some(fields), from);
    let due = scheduled("daily"@, Some(fields), from)->0;
    if t >= from && t as int % 86400 == target && t < due {
        assert(due - t < 86400);
        assert((due - t) % 86400 == 0);
    }
}

/// The days of the week by name, Monday the first; nothing else is one.
pub proof fn law_seven_weekdays(day: Seq<char>)
    ensures
        day_number(day) == Some(0u32) <==> day == "mon"@,
        day_number(day) == Some(1u32) <==> day == "tue"@,
        day_number(day) == Some(2u32) <==> day == "wed"@,
        day_number(day) == Some(3u32) <==> day == "thu"@,
        day_number(day) == Some(4u32) <==> day == "fri"@,
        day_number(day) == Some(5u32) <==> day == "sat"@,
        day_number(day) == Some(6u32) <==> day == "sun"@,
        day_number(day) is Some ==> day_number(day)->0 < 7,
{
    reveal_strlit("mon");
    reveal_strlit("tue");
    reveal_strlit("wed");
    reveal_strlit("thu");
    reveal_strlit("fri");
    reveal_strlit("sat");
    reveal_strlit("sun");
    assert("mon"@[0] == 'm' && "tue"@[0] == 't' && "wed"@[0] == 'w' && "thu"@[0] == 't' && "fri"@[0]
        == 'f' && "sat"@[0] == 's' && "sun"@[0] == 's');
    assert("tue"@[1] == 'u' && "thu"@[1] == 'h' && "sat"@[1] == 'a' && "sun"@[1] == 'u');
}

/// The days of a list are those that it names, and what is not a day is passed over.
pub proof fn law_listed_days_are_the_named_ones(texts: Seq<Option<Seq<char>>>, d: u32)
    ensures
        listed_days(texts).contains(d) <==> exists|i: int|
            0 <= i < texts.len() && (#[trigger] texts[i]) is Some && day_number(texts[i]->0)
                == Some(d),
    decreases texts.len(),
{
    if texts.len() > 0 {
        let front = texts.drop_last();
        let rest = listed_days(front);
        law_listed_days_are_the_named_ones(front, d);
        let n = texts.len() - 1;
        let here = texts[n] is Some && day_number(texts[n]->0) == Some(d);
        let days = listed_days(texts);
        if rest.contains(d) {
            let i = choose|i: int|
                0 <= i < front.len() && (#[trigger] front[i]) is Some && day_number(front[i]->0)
                    == Some(d);
            assert(texts[i] == front[i]);
            let m = choose|m: int| 0 <= m < rest.len() && rest[m] == d;
            assert(days[m] == d);
        }
        if here {
            assert(days[days.len() - 1] == d);
        }
        if days.contains(d) && !here {
            let m = choose|m: int| 0 <= m < days.len() && days[m] == d;
            assert(m < rest.len());
            assert(rest[m] == d);
        }
        if exists|i: int|
            0 <= i < texts.len() && (#[trigger] texts[i]) is Some && day_number(texts[i]->0)
                == Some(d) {
            let i = choose|i: int|
                0 <= i < texts.len() && (#[trigger] texts[i]) is Some && day_number(texts[i]->0)
                    == Some(d);
            if i < n {
                assert(front[i] == texts[i]);
            }
        }
    }
}

/// A rule is made of a task template of the Keyholder's own, starts active, and first falls due when
/// its schedule says; where that says nothing, there is no rule.
pub proof fn law_rules_are_made_of_ones_own_tasks(
    db: LedgerView,
    new: NewRuleView,
    next: Option<i64>,
    id: Seq<char>,
    now: i64,
    k: int,
)
    requires
        only(db.templates, k, |t: templates::TemplateView| t.id == new.template_id),
    ensures
        ({
            let t = db.templates[k];
            match created(db, new, next, id, now) {
                Err(RuleError::TemplateNotFound) => t.keyholder_id != new.keyholder_id,
                Err(RuleError::NotATaskTemplate) => t.keyholder_id == new.keyholder_id && t.kind
                    != "task"@,
                Err(RuleError::InvalidRecurrence) => t.keyholder_id == new.keyholder_id && t.kind
                    == "task"@ && next is None,
                Ok(after) => {
                    let r = after.recurring_rules.last();
                    &&& t.keyholder_id == new.keyholder_id && t.kind == "task"@
                    &&& after == (LedgerView {
                        recurring_rules: db.recurring_rules.push(r),
                        ..db
                    })
                    &&& r.id == id && r.link_id == new.link_id && r.template_id == new.template_id
                    &&& r.recurrence_kind == new.recurrence_kind
                    &&& r.recurrence_value == new.recurrence_value
                    &&& r.allow_overlap == new.allow_overlap && r.active
                    &&& Some(r.next_due_at) == next && r.created_by_user_id == new.keyholder_id
                    &&& r.created_at == now
                },
            }
        }),
{
    lemma_find_only(
        db.templates,
        k,
        |t: templates::TemplateView| t.id == new.template_id,
        templates::by_id(new.template_id),
    );
}

/// An edit of a rule, through its own link, replaces what it gives and keeps the rest; the due time
/// moves only where the schedule is touched, and then to what the new one says.
pub proof fn law_rules_are_edited_field_by_field(
    db: LedgerView,
    id: Seq<char>,
    link_id: Seq<char>,
    edit: RuleEditView,
    next: Option<i64>,
    k: int,
)
    requires
        only(db.recurring_rules, k, |r: RuleView| r.id == id),
    ensures
        ({
            let r = db.recurring_rules[k];
            let touched = edit.recurrence_kind is Some || edit.recurrence_value is Some;
            match rule_edited(db, id, link_id, edit, next) {
                Err(e) => e == RuleError::InvalidRecurrence && r.link_id == link_id && touched
                    && next is None,
                Ok((after, found)) => {
                    &&& found <==> r.link_id == link_id
                    &&& !found ==> after == db
                    &&& found ==> {
                        let e = after.recurring_rules[k];
                        &&& after == (LedgerView {
                            recurring_rules: db.recurring_rules.update(k, e),
                            ..db
                        })
                        &&& e.id == r.id && e.link_id == r.link_id && e.template_id == r.template_id
                        &&& e.created_at == r.created_at && e.created_by_user_id
                            == r.created_by_user_id
                        &&& edit.recurrence_kind is Some ==> e.recurrence_kind
                            == edit.recurrence_kind->0
                        &&& edit.recurrence_kind is None ==> e.recurrence_kind == r.recurrence_kind
                        &&& edit.recurrence_value is Some ==> e.recurrence_value
                            == edit.recurrence_value->0
                        &&& edit.recurrence_value is None ==> e.recurrence_value
                            == r.recurrence_value
                        &&& edit.allow_overlap is Some ==> e.allow_overlap == edit.allow_overlap->0
                        &&& edit.allow_overlap is None ==> e.allow_overlap == r.allow_overlap
                        &&& edit.active is Some ==> e.active == edit.active->0
                        &&& edit.active is None ==> e.active == r.active
                        &&& touched ==> Some(e.next_due_at) == next
                        &&& !touched ==> e.next_due_at == r.next_due_at
                    }
                },
            }
        }),
{
    let named = |r: RuleView| r.id == id;
    lemma_find_only(db.recurring_rules, k, named, by_id(id));
    assert forall|j: int| 0 <= j < db.recurring_rules.len() && j != k implies (
    #[trigger] db.recurring_rules[j]).id != id by {
        assert(!named(db.recurring_rules[j]));
    }
}

/// An active rule has fallen due from its due time on.
pub proof fn law_rules_fall_due_on_time(r: RuleView, now: i64)
    ensures
        due(now)(r) <==> r.active && r.next_due_at <= now,
{
}

/// What a rule spawns is a task of its template, on its link, by the system, naming the rule; the
/// rule then falls due next at the time given. A task of its own that is still open keeps it from
/// spawning unless it allows that.
pub proof fn law_a_rule_spawns_its_template(
    db: LedgerView,
    rule: RuleView,
    next: Option<i64>,
    id: Seq<char>,
    adjustment_id: Seq<char>,
    now: i64,
    n: int,
)
    requires
        only(db.links, n, |l: links::LinkView| l.id == rule.link_id),
    ensures
        ({
            let open = any_row(
                db.assignments,
                |a: AssignmentView|
                    a.spawned_by_recurring_task_rule_id == Some(rule.id) && (a.status
                        == "assigned"@ || a.status == "acknowledged"@ || a.status
                        == "proof_submitted"@),
            );
            let l = db.links[n];
            match spawned(db, rule, next, id, adjustment_id, now) {
                None => true,
                Some((after, task)) => {
                    let a = after.assignments.last();
                    &&& next is Some && (rule.allow_overlap || !open)
                    &&& after.assignments == db.assignments.push(a)
                    &&& a.id == id && a.kind == "task"@ && a.link_id == rule.link_id
                    &&& a.template_id == Some(rule.template_id)
                    &&& a.spawned_by_recurring_task_rule_id == Some(rule.id)
                    &&& a.assigned_via == "system"@ && a.assigned_by_user_id is None
                    &&& a.assigned_at == now
                    &&& task.assignment == a && task.link_id == rule.link_id
                    &&& task.keyholder_id == l.keyholder_id && task.submissive_id
                        == l.submissive_id
                    &&& after.recurring_rules.len() == db.recurring_rules.len()
                    &&& forall|j: int|
                        0 <= j < db.recurring_rules.len() ==> #[trigger] after.recurring_rules[j]
                            == (if db.recurring_rules[j].id == rule.id {
                            RuleView { next_due_at: next->0, ..db.recurring_rules[j] }
                        } else {
                            db.recurring_rules[j]
                        })
                },
            }
        }),
{
    lemma_find_only(
        db.links,
        n,
        |l: links::LinkView| l.id == rule.link_id,
        links::by_id(rule.link_id),
    );
    lemma_any_same(
        db.assignments,
        |a: AssignmentView|
            a.spawned_by_recurring_task_rule_id == Some(rule.id) && (a.status == "assigned"@
                || a.status == "acknowledged"@ || a.status == "proof_submitted"@),
        open_spawn(rule.id),
    );
}

/// A link's rules are listed whole, the latest first.
pub proof fn law_rules_are_listed_whole(
    listed: Seq<RuleView>,
    rules: Seq<RuleView>,
    link_id: Seq<char>,
)
    requires
        ordered_from(listed, rules.filter(of_link(link_id)), newest_first()),
    ensures
        forall|r: RuleView| #[trigger]
            listed.contains(r) <==> rules.contains(r) && r.link_id == link_id,
        forall|i: int, j: int|
            0 <= i < j < listed.len() ==> (#[trigger] listed[i]).created_at >= (
            #[trigger] listed[j]).created_at,
{
    lemma_listed(listed, rules, of_link(link_id), newest_first());
}

/// An edited schedule is asked for its first time from now on, as it stands after the edit.
pub proof fn law_edits_ask_the_edited_schedule(
    db: LedgerView,
    id: Seq<char>,
    edit: RuleEditView,
    now: i64,
    k: int,
)
    requires
        only(db.recurring_rules, k, |r: RuleView| r.id == id),
    ensures
        ({
            let r = db.recurring_rules[k];
            let kind = if edit.recurrence_kind is Some {
                edit.recurrence_kind->0
            } else {
                r.recurrence_kind
            };
            let value = if edit.recurrence_value is Some {
                edit.recurrence_value->0
            } else {
                r.recurrence_value
            };
            rescheduled(db, id, edit, now) == scheduled(kind, object_fields(value), now)
        }),
{
    lemma_find_only(db.recurring_rules, k, |r: RuleView| r.id == id, by_id(id));
}

} // verus!
